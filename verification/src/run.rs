//! What the `run`, `eval` and `run-eszip` commands decide before and between
//! the steps that touch the outside world.
use vstd::prelude::*;
use vstd::string::*;
use crate::text::{chars_of, find_char, first_index, lemma_first_index, split, split_seq, substring};

verus! {

/// A script argument of the form `entrypoint#path1,path2,...`, taken apart.
pub struct EszipScript {
    pub entrypoint: String,
    pub files: Vec<String>,
}

pub struct EszipScriptView {
    pub entrypoint: Seq<char>,
    pub files: Seq<Seq<char>>,
}

impl View for EszipScript {
    type V = EszipScriptView;

    open spec fn view(&self) -> EszipScriptView {
        EszipScriptView { entrypoint: self.entrypoint@, files: self.files.deep_view() }
    }
}

/// Why a command could not be started.
#[derive(Debug, PartialEq, Eq, Structural, Clone, Copy)]
pub enum RunError {
    /// The script argument holds no `#`.
    InvalidEszipScript,
}

impl RunError {
    /// The text shown to the user.
    pub fn message(&self) -> (m: &'static str)
        ensures
            m@ == "eszip: invalid script string"@,
    {
        "eszip: invalid script string"
    }
}

/// The entry point is what stands before the first `#`; the files are the
/// pieces, between commas, of what stands after it.
pub open spec fn eszip_script_of(script: Seq<char>) -> Option<EszipScriptView> {
    let i = first_index(script, '#');
    if i >= script.len() {
        None
    } else {
        Some(
            EszipScriptView {
                entrypoint: script.take(i),
                files: split_seq(script.skip(i + 1), ','),
            },
        )
    }
}

/// Takes a script argument of the form `entrypoint#path1,path2,...` apart.
pub fn parse_eszip_script(script: &str) -> (r: Result<EszipScript, RunError>)
    ensures
        match r {
            Ok(parsed) => eszip_script_of(script@) == Some(parsed@),
            Err(e) => eszip_script_of(script@) is None && e == RunError::InvalidEszipScript,
        },
{
    let chars = chars_of(script);
    match find_char(&chars, '#', 0) {
        None => {
            proof {
                lemma_first_index(script@, '#', script@.len() as int);
            }
            Err(RunError::InvalidEszipScript)
        },
        Some(i) => {
            proof {
                lemma_first_index(script@, '#', i as int);
            }
            let entrypoint = substring(script, 0, i);
            let rest = substring(script, i + 1, chars.len());
            let files = split(rest.as_str(), ',');
            Ok(EszipScript { entrypoint, files })
        },
    }
}

/// The source that `eval` runs: the code itself, or a call that prints its
/// value.
pub open spec fn eval_source_of(code: Seq<char>, print: bool) -> Seq<char> {
    if print {
        "console.log("@ + code + ")"@
    } else {
        code
    }
}

/// The source that `eval` hands to the runtime.
pub fn eval_source(code: &str, print: bool) -> (source: String)
    ensures
        source@ == eval_source_of(code@, print),
{
    if print {
        let mut source = String::from_str("console.log(");
        source.append(code);
        source.append(")");
        source
    } else {
        String::from_str(code)
    }
}

/// The warning owed when permission flags stand behind the script argument,
/// where they are handed to the script and grant nothing.
pub fn permission_flags_warning(has_permission: bool, has_permission_in_argv: bool) -> (w: Option<
    &'static str,
>)
    ensures
        w is Some <==> (!has_permission && has_permission_in_argv),
        w matches Some(text) ==> text@
            == "Permission flags have likely been incorrectly set after the script argument.\nTo grant permissions, set them before the script argument. For example:\n    deno run --allow-read=. main.js"@,
{
    if !has_permission && has_permission_in_argv {
        Some(
            "Permission flags have likely been incorrectly set after the script argument.\nTo grant permissions, set them before the script argument. For example:\n    deno run --allow-read=. main.js",
        )
    } else {
        None
    }
}

/// The warning owed when sloppy imports are switched on.
pub fn sloppy_imports_warning(unstable_sloppy_imports: bool) -> (w: Option<&'static str>)
    ensures
        w is Some <==> unstable_sloppy_imports,
        w matches Some(text) ==> text@
            == "Sloppy imports are not recommended and have a negative impact on performance."@,
{
    if unstable_sloppy_imports {
        Some("Sloppy imports are not recommended and have a negative impact on performance.")
    } else {
        None
    }
}

/// Whether an install is thought of at all: only where the user asked for a
/// `node_modules` directory. Only then is it found out who owns the
/// directory.
pub fn asks_for_node_modules(node_modules_dir: Option<bool>) -> (asks: bool)
    ensures
        asks == (node_modules_dir == Some(true)),
{
    match node_modules_dir {
        Some(enabled) => enabled,
        None => false,
    }
}

/// Whether the packages of the top-level `package.json` are installed before
/// the script runs: only where the user asked for a `node_modules` directory
/// and this resolver, not another package manager, owns it.
pub fn should_npm_install(node_modules_dir: Option<bool>, managed: bool) -> (install: bool)
    ensures
        install == (node_modules_dir == Some(true) && managed),
{
    match node_modules_dir {
        Some(enabled) => enabled && managed,
        None => false,
    }
}

/// The flags of a run that restarts when a file changes.
#[derive(Debug, PartialEq, Eq, Structural, Clone, Copy)]
pub struct WatchFlags {
    pub hmr: bool,
    pub no_clear_screen: bool,
}

/// How the main module is run under the watcher.
#[derive(Debug, PartialEq, Eq, Structural, Clone, Copy)]
pub enum WatchRun {
    /// Run to the end: modules are replaced while the program lives.
    ToCompletion,
    /// Run until the watcher restarts the process.
    UntilRestart,
}

/// What the watcher is told about a run.
pub struct WatchPlan {
    pub banner: &'static str,
    pub job_name: &'static str,
    pub clear_screen: bool,
    pub run: WatchRun,
}

/// What the watcher is told about a run with the given flags.
pub fn watch_plan(flags: WatchFlags) -> (plan: WatchPlan)
    ensures
        plan.banner@ == (if flags.hmr {
            "HMR"@
        } else {
            "Watcher"@
        }),
        plan.job_name@ == "Process"@,
        plan.clear_screen == !flags.no_clear_screen,
        plan.run == (if flags.hmr {
            WatchRun::ToCompletion
        } else {
            WatchRun::UntilRestart
        }),
{
    WatchPlan {
        banner: if flags.hmr {
            "HMR"
        } else {
            "Watcher"
        },
        job_name: "Process",
        clear_screen: !flags.no_clear_screen,
        run: if flags.hmr {
            WatchRun::ToCompletion
        } else {
            WatchRun::UntilRestart
        },
    }
}

} // verus!

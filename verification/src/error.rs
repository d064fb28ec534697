//! What can go wrong in resolution, each kind told apart from the others.
use vstd::prelude::*;
use vstd::string::*;

verus! {

/// Why a specifier could not be resolved.
pub enum ResolveError {
    /// The registry knows no package of this name.
    PackageNotFound { name: String },
    /// No version of the package that is at hand answers the requirement.
    VersionNotFound { name: String, req: String },
    /// The contents of the package do not have the hash that the lockfile
    /// vouches for.
    IntegrityMismatch { id: String },
    /// The lockfile refers to a package that it has no entry for.
    LockfileCorrupt { missing: String },
    /// A text of the lockfile cannot be read.
    LockfileInvalid { text: String },
    /// The lockfile resolves a request to a package that does not answer it.
    LockfileInconsistent { req: String },
    /// The package's `exports` do not define the subpath.
    SubpathNotExported { package_path: String, subpath: String },
    /// The package's `exports` lead the subpath to something that is no file
    /// of the package.
    InvalidExportsTarget { package_path: String, target: String },
    /// The `imports` of the package do not define the alias.
    ImportNotDefined { package_path: String, alias: String },
    /// No file stands where the specifier leads.
    ModuleNotFound { path: String },
    /// The specifier leads to a directory that holds no index file.
    DirectoryNoIndex { path: String },
    /// A `package.json` names the package, yet `node_modules` does not hold
    /// it.
    PackageJsonMissingDependency { name: String },
    /// An `npm:` specifier asks for a version other than the one that the
    /// externally managed `node_modules` holds.
    NoMatchingPackage { specifier: String, package_json: String },
    /// An `npm:` specifier was met while npm packages are switched off.
    NoNpmAllowed,
}

pub enum ResolveErrorView {
    PackageNotFound { name: Seq<char> },
    VersionNotFound { name: Seq<char>, req: Seq<char> },
    IntegrityMismatch { id: Seq<char> },
    LockfileCorrupt { missing: Seq<char> },
    LockfileInvalid { text: Seq<char> },
    LockfileInconsistent { req: Seq<char> },
    SubpathNotExported { package_path: Seq<char>, subpath: Seq<char> },
    InvalidExportsTarget { package_path: Seq<char>, target: Seq<char> },
    ImportNotDefined { package_path: Seq<char>, alias: Seq<char> },
    ModuleNotFound { path: Seq<char> },
    DirectoryNoIndex { path: Seq<char> },
    PackageJsonMissingDependency { name: Seq<char> },
    NoMatchingPackage { specifier: Seq<char>, package_json: Seq<char> },
    NoNpmAllowed,
}

impl View for ResolveError {
    type V = ResolveErrorView;

    open spec fn view(&self) -> ResolveErrorView {
        match self {
            ResolveError::PackageNotFound { name } => ResolveErrorView::PackageNotFound {
                name: name@,
            },
            ResolveError::VersionNotFound { name, req } => ResolveErrorView::VersionNotFound {
                name: name@,
                req: req@,
            },
            ResolveError::IntegrityMismatch { id } => ResolveErrorView::IntegrityMismatch {
                id: id@,
            },
            ResolveError::LockfileCorrupt { missing } => ResolveErrorView::LockfileCorrupt {
                missing: missing@,
            },
            ResolveError::LockfileInvalid { text } => ResolveErrorView::LockfileInvalid {
                text: text@,
            },
            ResolveError::LockfileInconsistent {
                req,
            } => ResolveErrorView::LockfileInconsistent { req: req@ },
            ResolveError::SubpathNotExported {
                package_path,
                subpath,
            } => ResolveErrorView::SubpathNotExported {
                package_path: package_path@,
                subpath: subpath@,
            },
            ResolveError::InvalidExportsTarget {
                package_path,
                target,
            } => ResolveErrorView::InvalidExportsTarget {
                package_path: package_path@,
                target: target@,
            },
            ResolveError::ImportNotDefined {
                package_path,
                alias,
            } => ResolveErrorView::ImportNotDefined { package_path: package_path@, alias: alias@ },
            ResolveError::ModuleNotFound { path } => ResolveErrorView::ModuleNotFound {
                path: path@,
            },
            ResolveError::DirectoryNoIndex { path } => ResolveErrorView::DirectoryNoIndex {
                path: path@,
            },
            ResolveError::PackageJsonMissingDependency {
                name,
            } => ResolveErrorView::PackageJsonMissingDependency { name: name@ },
            ResolveError::NoMatchingPackage {
                specifier,
                package_json,
            } => ResolveErrorView::NoMatchingPackage {
                specifier: specifier@,
                package_json: package_json@,
            },
            ResolveError::NoNpmAllowed => ResolveErrorView::NoNpmAllowed,
        }
    }
}

impl DeepView for ResolveError {
    type V = ResolveErrorView;

    open spec fn deep_view(&self) -> ResolveErrorView {
        self@
    }
}

/// What is told of an error, the outermost cause first. A corrupt lockfile
/// is told in two lines, every other error in one.
pub open spec fn causes_of(e: ResolveErrorView) -> Seq<Seq<char>> {
    match e {
        ResolveErrorView::PackageNotFound { name } => seq![
            "npm package '"@ + name + "' does not exist."@,
        ],
        ResolveErrorView::VersionNotFound { name, req } => seq![
            "Could not find npm package '"@ + name + "' matching '"@ + req + "'."@,
        ],
        ResolveErrorView::IntegrityMismatch { id } => seq![
            "Integrity check failed for npm package: \""@ + id + "\"."@,
        ],
        ResolveErrorView::LockfileCorrupt { missing } => seq![
            "The lockfile is corrupt. You can recreate it with --lock-write"@,
            "Could not find '"@ + missing + "' in the list of packages."@,
        ],
        ResolveErrorView::LockfileInvalid { text } => seq![
            "Could not read '"@ + text + "' in the lockfile."@,
        ],
        ResolveErrorView::LockfileInconsistent { req } => seq![
            "The lockfile resolves '"@ + req + "' to a package that does not answer it."@,
        ],
        ResolveErrorView::SubpathNotExported { package_path, subpath } => seq![
            "[ERR_PACKAGE_PATH_NOT_EXPORTED] Package subpath '"@ + subpath
                + "' is not defined by \"exports\" in '"@ + package_path + "'"@,
        ],
        ResolveErrorView::InvalidExportsTarget { package_path, target } => seq![
            "[ERR_INVALID_PACKAGE_TARGET] Invalid \"exports\" target '"@ + target
                + "' defined in the package config of '"@ + package_path + "'"@,
        ],
        ResolveErrorView::ImportNotDefined { package_path, alias } => seq![
            "[ERR_PACKAGE_IMPORT_NOT_DEFINED] Package import specifier \""@ + alias
                + "\" is not defined in package '"@ + package_path + "'"@,
        ],
        ResolveErrorView::ModuleNotFound { path } => seq![
            "[ERR_MODULE_NOT_FOUND] Cannot find module '"@ + path + "'"@,
        ],
        ResolveErrorView::DirectoryNoIndex { path } => seq![
            "[ERR_UNSUPPORTED_DIR_IMPORT] Directory import '"@ + path
                + "' is not supported: the directory holds no index file"@,
        ],
        ResolveErrorView::PackageJsonMissingDependency { name } => seq![
            "Could not resolve \""@ + name
                + "\", but found it in a package.json. Deno expects the node_modules/ directory to be up to date. Did you forget to run `npm install`?"@,
        ],
        ResolveErrorView::NoMatchingPackage { specifier, package_json } => seq![
            "Could not find a matching package for '"@ + specifier + "' in '"@ + package_json
                + "'. You must specify this as a package.json dependency when the node_modules folder is not managed by Deno."@,
        ],
        ResolveErrorView::NoNpmAllowed => seq![
            "npm specifiers were requested; but --no-npm is specified"@,
        ],
    }
}

/// The text of an error in one line: its last cause, which names what was
/// not found.
pub open spec fn message_of(e: ResolveErrorView) -> Seq<char> {
    causes_of(e).last()
}

/// The text of an error as it reads for one who imports: where a subpath is
/// not exported, the text names the one who imports too.
pub open spec fn message_for(e: ResolveErrorView, importer: Option<Seq<char>>) -> Seq<char> {
    match (e, importer) {
        (ResolveErrorView::SubpathNotExported { .. }, Some(from)) => message_of(e)
            + " imported from '"@ + from + "'"@,
        _ => message_of(e),
    }
}

/// What the user is shown of an error: `error: ` and the text, and below it
/// where the import stands that led to the error, if that is known.
pub open spec fn report_of(
    e: ResolveErrorView,
    importer: Option<Seq<char>>,
    location: Option<Seq<char>>,
) -> Seq<char> {
    "error: "@ + message_for(e, importer) + "\n"@ + (match location {
        Some(at) => "    at "@ + at + "\n"@,
        None => Seq::empty(),
    })
}

/// What the user is shown where a lockfile could not be read: the file, and
/// the causes, the outermost first, each with its number.
pub open spec fn lockfile_report_of(e: ResolveErrorView, path: Seq<char>) -> Seq<char> {
    let causes = causes_of(e);
    "error: failed reading lockfile '"@ + path + "'\n\nCaused by:\n"@ + "    0: "@ + causes[0]
        + "\n"@ + (if causes.len() > 1 {
        "    1: "@ + causes[1] + "\n"@
    } else {
        Seq::empty()
    })
}

fn framed(before: &str, inner: &str, after: &str) -> (out: String)
    ensures
        out@ == before@ + inner@ + after@,
{
    let mut out = String::from_str(before);
    out.append(inner);
    out.append(after);
    out
}

fn framed_twice(a: &str, x: &str, b: &str, y: &str, c: &str) -> (out: String)
    ensures
        out@ == a@ + x@ + b@ + y@ + c@,
{
    let mut out = framed(a, x, b);
    out.append(y);
    out.append(c);
    out
}

fn single(line: String) -> (lines: Vec<String>)
    ensures
        lines.deep_view() == seq![line@],
{
    let mut lines: Vec<String> = Vec::new();
    lines.push(line);
    assert(lines.deep_view() =~= seq![line@]);
    lines
}

impl ResolveError {
    /// What is told of the error, the outermost cause first.
    pub fn causes(&self) -> (lines: Vec<String>)
        ensures
            lines.deep_view() == causes_of(self@),
            lines@.len() >= 1,
    {
        match self {
            ResolveError::PackageNotFound { name } => single(
                framed("npm package '", name.as_str(), "' does not exist."),
            ),
            ResolveError::VersionNotFound { name, req } => single(
                framed_twice(
                    "Could not find npm package '",
                    name.as_str(),
                    "' matching '",
                    req.as_str(),
                    "'.",
                ),
            ),
            ResolveError::IntegrityMismatch { id } => single(
                framed("Integrity check failed for npm package: \"", id.as_str(), "\"."),
            ),
            ResolveError::LockfileCorrupt { missing } => {
                let mut lines: Vec<String> = Vec::new();
                let first = String::from_str(
                    "The lockfile is corrupt. You can recreate it with --lock-write",
                );
                let second = framed(
                    "Could not find '",
                    missing.as_str(),
                    "' in the list of packages.",
                );
                lines.push(first);
                lines.push(second);
                assert(lines.deep_view() =~= seq![first@, second@]);
                lines
            },
            ResolveError::LockfileInvalid { text } => single(
                framed("Could not read '", text.as_str(), "' in the lockfile."),
            ),
            ResolveError::LockfileInconsistent { req } => single(
                framed(
                    "The lockfile resolves '",
                    req.as_str(),
                    "' to a package that does not answer it.",
                ),
            ),
            ResolveError::SubpathNotExported { package_path, subpath } => single(
                framed_twice(
                    "[ERR_PACKAGE_PATH_NOT_EXPORTED] Package subpath '",
                    subpath.as_str(),
                    "' is not defined by \"exports\" in '",
                    package_path.as_str(),
                    "'",
                ),
            ),
            ResolveError::InvalidExportsTarget { package_path, target } => single(
                framed_twice(
                    "[ERR_INVALID_PACKAGE_TARGET] Invalid \"exports\" target '",
                    target.as_str(),
                    "' defined in the package config of '",
                    package_path.as_str(),
                    "'",
                ),
            ),
            ResolveError::ImportNotDefined { package_path, alias } => single(
                framed_twice(
                    "[ERR_PACKAGE_IMPORT_NOT_DEFINED] Package import specifier \"",
                    alias.as_str(),
                    "\" is not defined in package '",
                    package_path.as_str(),
                    "'",
                ),
            ),
            ResolveError::ModuleNotFound { path } => single(
                framed("[ERR_MODULE_NOT_FOUND] Cannot find module '", path.as_str(), "'"),
            ),
            ResolveError::DirectoryNoIndex { path } => single(
                framed(
                    "[ERR_UNSUPPORTED_DIR_IMPORT] Directory import '",
                    path.as_str(),
                    "' is not supported: the directory holds no index file",
                ),
            ),
            ResolveError::PackageJsonMissingDependency { name } => single(
                framed(
                    "Could not resolve \"",
                    name.as_str(),
                    "\", but found it in a package.json. Deno expects the node_modules/ directory to be up to date. Did you forget to run `npm install`?",
                ),
            ),
            ResolveError::NoMatchingPackage { specifier, package_json } => single(
                framed_twice(
                    "Could not find a matching package for '",
                    specifier.as_str(),
                    "' in '",
                    package_json.as_str(),
                    "'. You must specify this as a package.json dependency when the node_modules folder is not managed by Deno.",
                ),
            ),
            ResolveError::NoNpmAllowed => single(
                String::from_str("npm specifiers were requested; but --no-npm is specified"),
            ),
        }
    }

    /// The text of the error as it reads for one who imports.
    pub fn message_from(&self, importer: Option<&str>) -> (text: String)
        ensures
            text@ == message_for(
                self@,
                match importer {
                    Some(from) => Some(from@),
                    None => None,
                },
            ),
    {
        let mut text = self.message();
        match (self, importer) {
            (ResolveError::SubpathNotExported { .. }, Some(from)) => {
                text.append(" imported from '");
                text.append(from);
                text.append("'");
            },
            _ => {},
        }
        text
    }

    /// What the user is shown of the error.
    pub fn report(&self, importer: Option<&str>, location: Option<&str>) -> (text: String)
        ensures
            text@ == report_of(
                self@,
                match importer {
                    Some(from) => Some(from@),
                    None => None,
                },
                match location {
                    Some(at) => Some(at@),
                    None => None,
                },
            ),
    {
        let mut text = String::from_str("error: ");
        text.append(self.message_from(importer).as_str());
        text.append("\n");
        match location {
            Some(at) => {
                text.append("    at ");
                text.append(at);
                text.append("\n");
                assert(text@ =~= "error: "@ + message_for(
                    self@,
                    match importer {
                        Some(from) => Some(from@),
                        None => None,
                    },
                ) + "\n"@ + ("    at "@ + at@ + "\n"@));
            },
            None => {
                assert(text@ + Seq::<char>::empty() =~= text@);
            },
        }
        text
    }

    /// What the user is shown where a lockfile could not be read.
    pub fn lockfile_report(&self, path: &str) -> (text: String)
        ensures
            text@ == lockfile_report_of(self@, path@),
    {
        let causes = self.causes();
        let ghost all = causes.deep_view();
        assert(all[0] == causes@[0]@);
        let mut text = String::from_str("error: failed reading lockfile '");
        text.append(path);
        text.append("'\n\nCaused by:\n");
        text.append("    0: ");
        text.append(causes[0].as_str());
        text.append("\n");
        if causes.len() > 1 {
            assert(all[1] == causes@[1]@);
            let ghost head = text@;
            text.append("    1: ");
            text.append(causes[1].as_str());
            text.append("\n");
            assert(text@ =~= head + ("    1: "@ + all[1] + "\n"@));
        } else {
            assert(text@ + Seq::<char>::empty() =~= text@);
        }
        text
    }

    /// The status with which a program that cannot go on for this error
    /// ends: 10 where the contents of a package are not what the lockfile
    /// vouches for, 1 for every other error.
    pub fn exit_code(&self) -> (code: i32)
        ensures
            code == (if self@ is IntegrityMismatch {
                10i32
            } else {
                1i32
            }),
    {
        match self {
            ResolveError::IntegrityMismatch { .. } => 10,
            _ => 1,
        }
    }

    /// The text of the error in one line.
    pub fn message(&self) -> (text: String)
        ensures
            text@ == message_of(self@),
    {
        let mut lines = self.causes();
        let ghost all = lines.deep_view();
        let n = lines.len();
        assert(all[n - 1] == lines@[n - 1]@);
        match lines.pop() {
            Some(last) => last,
            None => String::new(),
        }
    }
}

} // verus!

//! The way from a specifier to a file, in the steps between which the file
//! system or the registry must be asked: what is to be done for a specifier,
//! which file of a package a subpath leads to, and what is made of what
//! stands at a path.
use vstd::prelude::*;
use vstd::string::*;
use crate::error::{ResolveError, ResolveErrorView};
use crate::exports::{
    conditions_for, conditions_of, exports_resolution, imports_resolution, resolve_exports,
    resolve_imports, Exports, ExportsView, ResolutionMode,
};
use crate::lookup::{
    choose_imported, choose_required, external_package, external_request, imported_file,
    lookup_dirs, lookup_places, required_file, resolve_external_package,
    resolve_external_request, Declared, DeclaredView, Entry, Probes,
};
use crate::package::{PackageReq, PackageReqView};
use crate::path::{join, joined};
use crate::specifier::{
    bare_of, classify, kind_of, npm_reference_of, parse_bare, parse_npm, SpecifierKind,
};
use crate::text::{chars_of, has_prefix, starts_with, substring};

verus! {

/// From where, and for whom, a specifier is resolved.
pub struct Context {
    /// The directory of the file that imports.
    pub referrer_dir: String,
    /// Whether the file imports or requires.
    pub mode: ResolutionMode,
    /// Whether packages of the registry are switched off.
    pub no_npm: bool,
    /// Whether another package manager owns `node_modules`.
    pub external: bool,
    /// The directory of the project.
    pub project_dir: String,
    /// The `package.json` of the project.
    pub package_json: String,
    /// What the `package.json` of the project declares.
    pub declared: Vec<Declared>,
}

pub struct ContextView {
    pub referrer_dir: Seq<char>,
    pub mode: ResolutionMode,
    pub no_npm: bool,
    pub external: bool,
    pub project_dir: Seq<char>,
    pub package_json: Seq<char>,
    pub declared: Seq<DeclaredView>,
}

impl View for Context {
    type V = ContextView;

    open spec fn view(&self) -> ContextView {
        ContextView {
            referrer_dir: self.referrer_dir@,
            mode: self.mode,
            no_npm: self.no_npm,
            external: self.external,
            project_dir: self.project_dir@,
            package_json: self.package_json@,
            declared: self.declared.deep_view(),
        }
    }
}

/// How what stands at a path is taken.
#[derive(Debug, PartialEq, Eq, Structural, Clone, Copy)]
pub enum Taking {
    /// The path must be a file.
    Exact,
    /// As an import takes it: a file, or a directory with an index file.
    Imported,
    /// As a require takes it: extensions are tried too.
    Required,
}

/// What is to be done for a specifier.
pub enum Plan {
    /// Nothing more: the runtime brings the module along.
    Builtin(String),
    /// Nothing more: the specifier is an address, which others resolve.
    Url(String),
    /// The path is to be probed.
    Probe { path: String, taking: Taking },
    /// The package is to be looked for at the places, the first first; the
    /// subpath then leads on within it.
    FindPackage { name: String, subpath: String, places: Vec<String> },
    /// The request is to be resolved and the package laid out; the subpath
    /// then leads on within it.
    PackageOf { req: PackageReq, subpath: String },
    /// The alias is to be looked up in the package of the file that imports.
    OwnImports { alias: String },
}

pub enum PlanView {
    Builtin(Seq<char>),
    Url(Seq<char>),
    Probe { path: Seq<char>, taking: Taking },
    FindPackage { name: Seq<char>, subpath: Seq<char>, places: Seq<Seq<char>> },
    PackageOf { req: PackageReqView, subpath: Seq<char> },
    OwnImports { alias: Seq<char> },
}

impl View for Plan {
    type V = PlanView;

    open spec fn view(&self) -> PlanView {
        match self {
            Plan::Builtin(name) => PlanView::Builtin(name@),
            Plan::Url(url) => PlanView::Url(url@),
            Plan::Probe { path, taking } => PlanView::Probe { path: path@, taking: *taking },
            Plan::FindPackage { name, subpath, places } => PlanView::FindPackage {
                name: name@,
                subpath: subpath@,
                places: places.deep_view(),
            },
            Plan::PackageOf { req, subpath } => PlanView::PackageOf {
                req: req@,
                subpath: subpath@,
            },
            Plan::OwnImports { alias } => PlanView::OwnImports { alias: alias@ },
        }
    }
}

/// How a path that the file itself names is taken.
pub open spec fn taking_of(mode: ResolutionMode) -> Taking {
    match mode {
        ResolutionMode::Import => Taking::Imported,
        ResolutionMode::Require => Taking::Required,
    }
}

/// What is to be done for a specifier. A path is probed where it leads from
/// the directory of the file that imports. A package named bare is looked for
/// from that directory upward. A package of the registry is refused where
/// such are switched off; where another package manager owns `node_modules`
/// it must be one that the project declares, and is looked for from the
/// project; else it is resolved and laid out.
pub open spec fn plan_of(specifier: Seq<char>, c: ContextView) -> Result<PlanView, ResolveErrorView> {
    match kind_of(specifier) {
        SpecifierKind::Builtin => Ok(PlanView::Builtin(specifier.skip(5))),
        SpecifierKind::Url => Ok(PlanView::Url(specifier)),
        SpecifierKind::Relative | SpecifierKind::Absolute => Ok(
            PlanView::Probe { path: joined(c.referrer_dir, specifier), taking: taking_of(c.mode) },
        ),
        SpecifierKind::Imports => Ok(PlanView::OwnImports { alias: specifier }),
        SpecifierKind::Npm => if c.no_npm {
            Err(ResolveErrorView::NoNpmAllowed)
        } else {
            match npm_reference_of(specifier) {
                None => Err(ResolveErrorView::ModuleNotFound { path: specifier }),
                Some(reference) => if c.external {
                    match external_request(specifier, c.package_json, reference.req, c.declared) {
                        Ok(name) => Ok(
                            PlanView::FindPackage {
                                name,
                                subpath: reference.subpath,
                                places: lookup_places(c.project_dir, name),
                            },
                        ),
                        Err(e) => Err(e),
                    }
                } else {
                    Ok(PlanView::PackageOf { req: reference.req, subpath: reference.subpath })
                },
            }
        },
        SpecifierKind::Bare => match bare_of(specifier) {
            None => Err(ResolveErrorView::ModuleNotFound { path: specifier }),
            Some(bare) => Ok(
                PlanView::FindPackage {
                    name: bare.name,
                    subpath: bare.subpath,
                    places: lookup_places(c.referrer_dir, bare.name),
                },
            ),
        },
    }
}

fn taking_for(mode: ResolutionMode) -> (t: Taking)
    ensures
        t == taking_of(mode),
{
    match mode {
        ResolutionMode::Import => Taking::Imported,
        ResolutionMode::Require => Taking::Required,
    }
}

/// What is to be done for a specifier.
pub fn plan(specifier: &str, context: &Context) -> (r: Result<Plan, ResolveError>)
    ensures
        match r {
            Ok(p) => plan_of(specifier@, context@) == Ok::<PlanView, ResolveErrorView>(p@),
            Err(e) => plan_of(specifier@, context@) == Err::<PlanView, ResolveErrorView>(e@),
        },
{
    match classify(specifier) {
        SpecifierKind::Builtin => {
            let n = specifier.unicode_len();
            proof {
                reveal_strlit("node:");
                assert(specifier@.skip(5) =~= specifier@.subrange(5, n as int));
            }
            Ok(Plan::Builtin(substring(specifier, 5, n)))
        },
        SpecifierKind::Url => Ok(Plan::Url(String::from_str(specifier))),
        SpecifierKind::Relative | SpecifierKind::Absolute => Ok(
            Plan::Probe {
                path: join(context.referrer_dir.as_str(), specifier),
                taking: taking_for(context.mode),
            },
        ),
        SpecifierKind::Imports => Ok(Plan::OwnImports { alias: String::from_str(specifier) }),
        SpecifierKind::Npm => {
            if context.no_npm {
                return Err(ResolveError::NoNpmAllowed);
            }
            match parse_npm(specifier) {
                None => Err(ResolveError::ModuleNotFound { path: String::from_str(specifier) }),
                Some(reference) => {
                    if context.external {
                        match resolve_external_request(
                            specifier,
                            context.package_json.as_str(),
                            &reference.req,
                            &context.declared,
                        ) {
                            Ok(name) => {
                                let places = lookup_dirs(
                                    context.project_dir.as_str(),
                                    name.as_str(),
                                );
                                Ok(Plan::FindPackage { name, subpath: reference.subpath, places })
                            },
                            Err(e) => Err(e),
                        }
                    } else {
                        Ok(Plan::PackageOf { req: reference.req, subpath: reference.subpath })
                    }
                },
            }
        },
        SpecifierKind::Bare => match parse_bare(specifier) {
            None => Err(ResolveError::ModuleNotFound { path: String::from_str(specifier) }),
            Some(bare) => {
                let places = lookup_dirs(context.referrer_dir.as_str(), bare.name.as_str());
                Ok(Plan::FindPackage { name: bare.name, subpath: bare.subpath, places })
            },
        },
    }
}

/// Where a package stands that was looked for and found at `found`, or
/// found nowhere. Where another package manager owns `node_modules`, a
/// package that is declared and not found has not been installed.
pub open spec fn package_dir_of(name: Seq<char>, found: Option<Seq<char>>, c: ContextView) -> Result<
    Seq<char>,
    ResolveErrorView,
> {
    if c.external {
        external_package(name, found, c.declared)
    } else {
        match found {
            Some(dir) => Ok(dir),
            None => Err(ResolveErrorView::ModuleNotFound { path: name }),
        }
    }
}

/// Where a package stands that was looked for.
pub fn package_dir(name: &str, found: Option<String>, context: &Context) -> (r: Result<
    String,
    ResolveError,
>)
    ensures
        match r {
            Ok(dir) => package_dir_of(name@, found.deep_view(), context@) == Ok::<
                Seq<char>,
                ResolveErrorView,
            >(dir@),
            Err(e) => package_dir_of(name@, found.deep_view(), context@) == Err::<
                Seq<char>,
                ResolveErrorView,
            >(e@),
        },
{
    if context.external {
        resolve_external_package(name, found, &context.declared)
    } else {
        match found {
            Some(dir) => Ok(dir),
            None => Err(ResolveError::ModuleNotFound { path: String::from_str(name) }),
        }
    }
}

/// What the `package.json` of a package says of its files.
pub struct Manifest {
    pub exports: Option<Exports>,
    pub imports: Option<Exports>,
    pub main: Option<String>,
}

pub struct ManifestView {
    pub exports: Option<ExportsView>,
    pub imports: Option<ExportsView>,
    pub main: Option<Seq<char>>,
}

impl View for Manifest {
    type V = ManifestView;

    open spec fn view(&self) -> ManifestView {
        ManifestView {
            exports: match self.exports {
                Some(e) => Some(e@),
                None => None,
            },
            imports: match self.imports {
                Some(e) => Some(e@),
                None => None,
            },
            main: match self.main {
                Some(m) => Some(m@),
                None => None,
            },
        }
    }
}

/// The path within a package that a subpath leads to, and how it is taken.
/// A package with `exports` lets in what `exports` defines, taken exactly,
/// and nothing else. A package without leads `.` to its `main`, or to
/// `index.js` where it names none, and any other subpath to the file of that
/// name; both are taken as a require takes them.
pub open spec fn entry_of(dir: Seq<char>, m: ManifestView, subpath: Seq<char>, mode: ResolutionMode) -> Result<
    (Seq<char>, Taking),
    ResolveErrorView,
> {
    match m.exports {
        Some(exports) => match exports_resolution(dir, exports, subpath, conditions_of(mode)) {
            Ok(target) => Ok((joined(dir, target), Taking::Exact)),
            Err(e) => Err(e),
        },
        None => if subpath == seq!['.'] {
            match m.main {
                Some(main) => Ok((joined(dir, main), Taking::Required)),
                None => Ok((joined(dir, "index.js"@), Taking::Required)),
            }
        } else {
            Ok((joined(dir, subpath), Taking::Required))
        },
    }
}

/// The path within a package that a subpath leads to, and how it is taken.
pub fn entry(dir: &str, manifest: &Manifest, subpath: &str, mode: ResolutionMode) -> (r: Result<
    (String, Taking),
    ResolveError,
>)
    ensures
        match r {
            Ok(found) => entry_of(dir@, manifest@, subpath@, mode) == Ok::<
                (Seq<char>, Taking),
                ResolveErrorView,
            >((found.0@, found.1)),
            Err(e) => entry_of(dir@, manifest@, subpath@, mode) == Err::<
                (Seq<char>, Taking),
                ResolveErrorView,
            >(e@),
        },
{
    match &manifest.exports {
        Some(exports) => {
            let conditions = conditions_for(mode);
            match resolve_exports(dir, exports, subpath, &conditions) {
                Ok(target) => Ok((join(dir, target.as_str()), Taking::Exact)),
                Err(e) => Err(e),
            }
        },
        None => {
            proof {
                reveal_strlit(".");
                assert("."@ =~= seq!['.']);
            }
            if String::from_str(subpath) == String::from_str(".") {
                match &manifest.main {
                    Some(main) => Ok((join(dir, main.as_str()), Taking::Required)),
                    None => Ok((join(dir, "index.js"), Taking::Required)),
                }
            } else {
                Ok((join(dir, subpath), Taking::Required))
            }
        },
    }
}

/// What an alias of a package leads to.
pub enum AliasTarget {
    /// A file of the package, to be taken exactly.
    File(String),
    /// Another specifier, to be resolved from the package.
    Specifier(String),
}

pub enum AliasTargetView {
    File(Seq<char>),
    Specifier(Seq<char>),
}

impl View for AliasTarget {
    type V = AliasTargetView;

    open spec fn view(&self) -> AliasTargetView {
        match self {
            AliasTarget::File(path) => AliasTargetView::File(path@),
            AliasTarget::Specifier(s) => AliasTargetView::Specifier(s@),
        }
    }
}

/// What an alias leads to in the package at `dir`: what its `imports`
/// define for it, as a file of the package where that begins with `./`, else
/// as a specifier. A package without `imports` defines no alias.
pub open spec fn alias_of(dir: Seq<char>, m: ManifestView, alias: Seq<char>, mode: ResolutionMode) -> Result<
    AliasTargetView,
    ResolveErrorView,
> {
    match m.imports {
        None => Err(ResolveErrorView::ImportNotDefined { package_path: dir, alias }),
        Some(imports) => match imports_resolution(dir, imports, alias, conditions_of(mode)) {
            Ok(target) => if starts_with(target, seq!['.', '/']) {
                Ok(AliasTargetView::File(joined(dir, target)))
            } else {
                Ok(AliasTargetView::Specifier(target))
            },
            Err(e) => Err(e),
        },
    }
}

/// What an alias leads to in the package at `dir`.
pub fn resolve_alias(dir: &str, manifest: &Manifest, alias: &str, mode: ResolutionMode) -> (r: Result<
    AliasTarget,
    ResolveError,
>)
    ensures
        match r {
            Ok(t) => alias_of(dir@, manifest@, alias@, mode) == Ok::<
                AliasTargetView,
                ResolveErrorView,
            >(t@),
            Err(e) => alias_of(dir@, manifest@, alias@, mode) == Err::<
                AliasTargetView,
                ResolveErrorView,
            >(e@),
        },
{
    match &manifest.imports {
        None => Err(
            ResolveError::ImportNotDefined {
                package_path: String::from_str(dir),
                alias: String::from_str(alias),
            },
        ),
        Some(imports) => {
            let conditions = conditions_for(mode);
            match resolve_imports(dir, imports, alias, &conditions) {
                Ok(target) => {
                    let dot_slash = chars_of("./");
                    proof {
                        reveal_strlit("./");
                        assert(dot_slash@ =~= seq!['.', '/']);
                    }
                    let t = chars_of(target.as_str());
                    if has_prefix(&t, &dot_slash) {
                        Ok(AliasTarget::File(join(dir, target.as_str())))
                    } else {
                        Ok(AliasTarget::Specifier(target))
                    }
                },
                Err(e) => Err(e),
            }
        },
    }
}

/// The file that a path leads to, by what stands at its places.
pub open spec fn located_at(path: Seq<char>, probes: Probes, taking: Taking) -> Result<
    Seq<char>,
    ResolveErrorView,
> {
    match taking {
        Taking::Exact => if probes.itself is File {
            Ok(path)
        } else {
            Err(ResolveErrorView::ModuleNotFound { path })
        },
        Taking::Imported => imported_file(path, probes),
        Taking::Required => required_file(path, probes),
    }
}

/// The file that a path leads to, by what stands at its places.
pub fn locate(path: &str, probes: &Probes, taking: Taking) -> (r: Result<String, ResolveError>)
    ensures
        match r {
            Ok(file) => located_at(path@, *probes, taking) == Ok::<Seq<char>, ResolveErrorView>(
                file@,
            ),
            Err(e) => located_at(path@, *probes, taking) == Err::<Seq<char>, ResolveErrorView>(e@),
        },
{
    match taking {
        Taking::Exact => match probes.itself {
            Entry::File => Ok(String::from_str(path)),
            _ => Err(ResolveError::ModuleNotFound { path: String::from_str(path) }),
        },
        Taking::Imported => choose_imported(path, probes),
        Taking::Required => choose_required(path, probes),
    }
}

/// A package with `exports` never answers a subpath that `exports` does not
/// let in with a file, nor with the plain news that a file is missing: the
/// answer says that the subpath is not exported, and names the subpath and
/// the package.
pub proof fn lemma_exports_decide(
    dir: Seq<char>,
    m: ManifestView,
    subpath: Seq<char>,
    mode: ResolutionMode,
)
    requires
        m.exports is Some,
        exports_resolution(dir, m.exports.unwrap(), subpath, conditions_of(mode)) is Err,
    ensures
        entry_of(dir, m, subpath, mode) is Err,
        !(entry_of(dir, m, subpath, mode) matches Err(ResolveErrorView::ModuleNotFound { .. })),
        entry_of(dir, m, subpath, mode) == Err::<(Seq<char>, Taking), ResolveErrorView>(
            ResolveErrorView::SubpathNotExported { package_path: dir, subpath },
        ) || (entry_of(dir, m, subpath, mode) matches Err(
            ResolveErrorView::InvalidExportsTarget { .. },
        )),
{
}

} // verus!

//! The resolved graph of packages, and its written form, the lockfile.
use vstd::prelude::*;
use vstd::string::*;
use crate::error::{ResolveError, ResolveErrorView};
use crate::req::{req_admits, req_is_tag};
use crate::text::{chars_of, contains_in, has_prefix, occurs_in, starts_with, substring};
use crate::package::{
    id_of_text, id_text, is_package_name, is_package_req, lemma_id_of_text,
    lemma_id_of_text_is_text, lemma_req_of_text, lemma_req_of_text_is_text, req_of_text, req_text,
    PackageId, PackageIdView, PackageReq, PackageReqView,
};

verus! {

/// One resolved package: where its contents are vouched for, and which
/// package each of its dependencies resolved to.
pub struct SnapshotPackage {
    pub id: PackageId,
    pub integrity: String,
    pub dependencies: Vec<(String, PackageId)>,
}

pub struct SnapshotPackageView {
    pub id: PackageIdView,
    pub integrity: Seq<char>,
    pub dependencies: Seq<(Seq<char>, PackageIdView)>,
}

impl View for SnapshotPackage {
    type V = SnapshotPackageView;

    open spec fn view(&self) -> SnapshotPackageView {
        SnapshotPackageView {
            id: self.id@,
            integrity: self.integrity@,
            dependencies: self.dependencies.deep_view(),
        }
    }
}

impl DeepView for SnapshotPackage {
    type V = SnapshotPackageView;

    open spec fn deep_view(&self) -> SnapshotPackageView {
        self@
    }
}

/// The resolved graph: which package each request resolved to, and the
/// packages with their dependencies.
pub struct Snapshot {
    pub specifiers: Vec<(PackageReq, PackageId)>,
    pub packages: Vec<SnapshotPackage>,
}

pub struct SnapshotView {
    pub specifiers: Seq<(PackageReqView, PackageIdView)>,
    pub packages: Seq<SnapshotPackageView>,
}

impl View for Snapshot {
    type V = SnapshotView;

    open spec fn view(&self) -> SnapshotView {
        SnapshotView {
            specifiers: self.specifiers.deep_view(),
            packages: self.packages.deep_view(),
        }
    }
}

/// One package of a lockfile, as written: `name@version`, the integrity hash,
/// and for each dependency its name with the `name@version` it resolved to.
pub struct LockfilePackage {
    pub id: String,
    pub integrity: String,
    pub dependencies: Vec<(String, String)>,
}

pub struct LockfilePackageView {
    pub id: Seq<char>,
    pub integrity: Seq<char>,
    pub dependencies: Seq<(Seq<char>, Seq<char>)>,
}

impl View for LockfilePackage {
    type V = LockfilePackageView;

    open spec fn view(&self) -> LockfilePackageView {
        LockfilePackageView {
            id: self.id@,
            integrity: self.integrity@,
            dependencies: self.dependencies.deep_view(),
        }
    }
}

impl DeepView for LockfilePackage {
    type V = LockfilePackageView;

    open spec fn deep_view(&self) -> LockfilePackageView {
        self@
    }
}

/// A lockfile, as written: each request with the `name@version` it resolved
/// to, and the packages.
pub struct Lockfile {
    pub specifiers: Vec<(String, String)>,
    pub packages: Vec<LockfilePackage>,
}

pub struct LockfileView {
    pub specifiers: Seq<(Seq<char>, Seq<char>)>,
    pub packages: Seq<LockfilePackageView>,
}

impl View for Lockfile {
    type V = LockfileView;

    open spec fn view(&self) -> LockfileView {
        LockfileView {
            specifiers: self.specifiers.deep_view(),
            packages: self.packages.deep_view(),
        }
    }
}

/// Whether the snapshot has an entry for the package.
pub open spec fn has_package(s: SnapshotView, id: PackageIdView) -> bool {
    exists|i: int| 0 <= i < s.packages.len() && (#[trigger] s.packages[i]).id == id
}

/// Whether every dependency of `p` has an entry in the snapshot.
pub open spec fn dependencies_present(s: SnapshotView, p: SnapshotPackageView) -> bool {
    forall|j: int| 0 <= j < p.dependencies.len() ==> has_package(s, (#[trigger] p.dependencies[j]).1)
}

/// Whether every request resolved to a package that has an entry.
pub open spec fn specifiers_present(s: SnapshotView) -> bool {
    forall|i: int| 0 <= i < s.specifiers.len() ==> has_package(s, (#[trigger] s.specifiers[i]).1)
}

/// No edge of the graph leads to a package without an entry.
pub open spec fn no_dangling(s: SnapshotView) -> bool {
    &&& specifiers_present(s)
    &&& forall|i: int|
        0 <= i < s.packages.len() ==> dependencies_present(s, #[trigger] s.packages[i])
}

/// Whether every dependency of `p` resolved to a properly named package.
pub open spec fn package_well_named(p: SnapshotPackageView) -> bool {
    &&& is_package_name(p.id.name)
    &&& forall|j: int|
        0 <= j < p.dependencies.len() ==> is_package_name((#[trigger] p.dependencies[j]).1.name)
}

/// Every request is a request and every package has a proper name.
pub open spec fn well_named(s: SnapshotView) -> bool {
    &&& forall|i: int|
        0 <= i < s.specifiers.len() ==> is_package_req((#[trigger] s.specifiers[i]).0)
            && is_package_name(s.specifiers[i].1.name)
    &&& forall|i: int| 0 <= i < s.packages.len() ==> package_well_named(#[trigger] s.packages[i])
}

/// The package is one that the request could have resolved to: it has the
/// name asked for, at a version in the range asked for. Which version a tag
/// names only the registry knows.
pub open spec fn answers_request(q: PackageReqView, id: PackageIdView) -> bool {
    q.name == id.name && (req_is_tag(q.req) || req_admits(q.req, id.version))
}

/// Every request resolved to a package that answers it.
pub open spec fn consistent(s: SnapshotView) -> bool {
    forall|i: int|
        0 <= i < s.specifiers.len() ==> answers_request(
            (#[trigger] s.specifiers[i]).0,
            s.specifiers[i].1,
        )
}

/// No package has two entries.
pub open spec fn unique_packages(s: SnapshotView) -> bool {
    forall|i: int, j: int|
        0 <= i < j < s.packages.len() ==> (#[trigger] s.packages[i]).id != (
        #[trigger] s.packages[j]).id
}

/// A snapshot is well named, every request in it resolved to a package that
/// answers it, and no edge dangles.
pub open spec fn is_snapshot(s: SnapshotView) -> bool {
    well_named(s) && consistent(s) && no_dangling(s)
}

/// The written form of the dependencies of a package.
pub open spec fn lockfile_dependencies(deps: Seq<(Seq<char>, PackageIdView)>) -> Seq<
    (Seq<char>, Seq<char>),
> {
    Seq::new(deps.len(), |j: int| (deps[j].0, id_text(deps[j].1)))
}

/// The written form of a package.
pub open spec fn lockfile_package(p: SnapshotPackageView) -> LockfilePackageView {
    LockfilePackageView {
        id: id_text(p.id),
        integrity: p.integrity,
        dependencies: lockfile_dependencies(p.dependencies),
    }
}

/// The written form of a snapshot: entry for entry, in the same order.
pub open spec fn lockfile_of(s: SnapshotView) -> LockfileView {
    LockfileView {
        specifiers: Seq::new(
            s.specifiers.len(),
            |i: int| (req_text(s.specifiers[i].0), id_text(s.specifiers[i].1)),
        ),
        packages: Seq::new(s.packages.len(), |i: int| lockfile_package(s.packages[i])),
    }
}

fn write_dependencies(deps: &Vec<(String, PackageId)>) -> (out: Vec<(String, String)>)
    ensures
        out.deep_view() == lockfile_dependencies(deps.deep_view()),
{
    let mut out: Vec<(String, String)> = Vec::new();
    let mut j: usize = 0;
    while j < deps.len()
        invariant
            j <= deps@.len(),
            out@.len() == j,
            forall|k: int|
                0 <= k < j ==> (#[trigger] out@[k]).deep_view() == lockfile_dependencies(
                    deps.deep_view(),
                )[k],
        decreases deps.len() - j,
    {
        let entry = (deps[j].0.clone(), deps[j].1.to_text());
        out.push(entry);
        j += 1;
    }
    assert(out.deep_view() =~= lockfile_dependencies(deps.deep_view()));
    out
}

impl Clone for SnapshotPackage {
    fn clone(&self) -> (r: Self)
        ensures
            r@ == self@,
    {
        let mut dependencies: Vec<(String, PackageId)> = Vec::new();
        let mut j: usize = 0;
        while j < self.dependencies.len()
            invariant
                j <= self.dependencies@.len(),
                dependencies@.len() == j,
                forall|k: int|
                    0 <= k < j ==> (#[trigger] dependencies@[k]).deep_view()
                        == self.dependencies.deep_view()[k],
            decreases self.dependencies.len() - j,
        {
            assert(self.dependencies.deep_view()[j as int] == (
                self.dependencies@[j as int].0@,
                self.dependencies@[j as int].1@,
            ));
            dependencies.push((self.dependencies[j].0.clone(), self.dependencies[j].1.clone()));
            j += 1;
        }
        assert(dependencies.deep_view() =~= self.dependencies.deep_view());
        SnapshotPackage { id: self.id.clone(), integrity: self.integrity.clone(), dependencies }
    }
}

impl Clone for Snapshot {
    fn clone(&self) -> (r: Self)
        ensures
            r@ == self@,
    {
        let mut specifiers: Vec<(PackageReq, PackageId)> = Vec::new();
        let mut i: usize = 0;
        while i < self.specifiers.len()
            invariant
                i <= self.specifiers@.len(),
                specifiers@.len() == i,
                forall|k: int|
                    0 <= k < i ==> (#[trigger] specifiers@[k]).deep_view()
                        == self.specifiers.deep_view()[k],
            decreases self.specifiers.len() - i,
        {
            assert(self.specifiers.deep_view()[i as int] == (
                self.specifiers@[i as int].0@,
                self.specifiers@[i as int].1@,
            ));
            specifiers.push((self.specifiers[i].0.clone(), self.specifiers[i].1.clone()));
            i += 1;
        }
        let mut packages: Vec<SnapshotPackage> = Vec::new();
        let mut k: usize = 0;
        while k < self.packages.len()
            invariant
                k <= self.packages@.len(),
                packages@.len() == k,
                forall|m: int| 0 <= m < k ==> (#[trigger] packages@[m])@ == self.packages@[m]@,
            decreases self.packages.len() - k,
        {
            packages.push(self.packages[k].clone());
            k += 1;
        }
        let r = Snapshot { specifiers, packages };
        assert(r@.specifiers =~= self@.specifiers);
        assert(r@.packages =~= self@.packages);
        r
    }
}

impl SnapshotPackage {
    /// The written form of the package.
    pub fn to_lockfile(&self) -> (out: LockfilePackage)
        ensures
            out@ == lockfile_package(self@),
    {
        LockfilePackage {
            id: self.id.to_text(),
            integrity: self.integrity.clone(),
            dependencies: write_dependencies(&self.dependencies),
        }
    }
}

impl Snapshot {
    /// The written form of the snapshot.
    pub fn to_lockfile(&self) -> (out: Lockfile)
        ensures
            out@ == lockfile_of(self@),
    {
        let mut specifiers: Vec<(String, String)> = Vec::new();
        let mut i: usize = 0;
        while i < self.specifiers.len()
            invariant
                i <= self.specifiers@.len(),
                specifiers@.len() == i,
                forall|k: int|
                    0 <= k < i ==> (#[trigger] specifiers@[k]).deep_view() == lockfile_of(
                        self@,
                    ).specifiers[k],
            decreases self.specifiers.len() - i,
        {
            let entry = (self.specifiers[i].0.to_text(), self.specifiers[i].1.to_text());
            specifiers.push(entry);
            i += 1;
        }
        let mut packages: Vec<LockfilePackage> = Vec::new();
        let mut k: usize = 0;
        while k < self.packages.len()
            invariant
                k <= self.packages@.len(),
                packages@.len() == k,
                forall|m: int|
                    0 <= m < k ==> (#[trigger] packages@[m]).deep_view() == lockfile_of(
                        self@,
                    ).packages[m],
            decreases self.packages.len() - k,
        {
            packages.push(self.packages[k].to_lockfile());
            k += 1;
        }
        let out = Lockfile { specifiers, packages };
        proof {
            assert(out@.specifiers =~= lockfile_of(self@).specifiers);
            assert(out@.packages =~= lockfile_of(self@).packages);
        }
        out
    }
}

/// Why a lockfile could not be taken as a snapshot.
pub enum HydrateError {
    /// A request or a `name@version` of the lockfile cannot be read; the text
    /// is the first such, in the order of the file.
    InvalidEntry(String),
    /// A request resolved to a package that does not answer it; the request
    /// is the first such, in the order of the file.
    Inconsistent(PackageReq),
    /// The lockfile is corrupt: a request or a dependency resolved to a
    /// package that has no entry; the package is the first such, in the order
    /// of the file.
    MissingPackage(PackageId),
}

pub enum HydrateErrorView {
    InvalidEntry(Seq<char>),
    Inconsistent(PackageReqView),
    MissingPackage(PackageIdView),
}

impl View for HydrateError {
    type V = HydrateErrorView;

    open spec fn view(&self) -> HydrateErrorView {
        match self {
            HydrateError::InvalidEntry(text) => HydrateErrorView::InvalidEntry(text@),
            HydrateError::Inconsistent(req) => HydrateErrorView::Inconsistent(req@),
            HydrateError::MissingPackage(id) => HydrateErrorView::MissingPackage(id@),
        }
    }
}

/// The error as one of resolution: a lockfile that refers to a package
/// without an entry is corrupt.
pub open spec fn resolve_error_of(e: HydrateErrorView) -> ResolveErrorView {
    match e {
        HydrateErrorView::InvalidEntry(text) => ResolveErrorView::LockfileInvalid {
            text,
        },
        HydrateErrorView::Inconsistent(q) => ResolveErrorView::LockfileInconsistent {
            req: req_text(q),
        },
        HydrateErrorView::MissingPackage(id) => ResolveErrorView::LockfileCorrupt {
            missing: id_text(id),
        },
    }
}

impl HydrateError {
    /// The error as one of resolution.
    pub fn into_resolve_error(self) -> (e: ResolveError)
        ensures
            e@ == resolve_error_of(self@),
    {
        match self {
            HydrateError::InvalidEntry(text) => ResolveError::LockfileInvalid {
                text,
            },
            HydrateError::Inconsistent(q) => ResolveError::LockfileInconsistent {
                req: q.to_text(),
            },
            HydrateError::MissingPackage(id) => ResolveError::LockfileCorrupt {
                missing: id.to_text(),
            },
        }
    }
}

pub open spec fn specifier_readable(e: (Seq<char>, Seq<char>)) -> bool {
    req_of_text(e.0) is Some && id_of_text(e.1) is Some
}

pub open spec fn dependency_readable(d: (Seq<char>, Seq<char>)) -> bool {
    id_of_text(d.1) is Some
}

pub open spec fn dependencies_readable(deps: Seq<(Seq<char>, Seq<char>)>) -> bool {
    forall|j: int| 0 <= j < deps.len() ==> dependency_readable(#[trigger] deps[j])
}

pub open spec fn package_readable(p: LockfilePackageView) -> bool {
    id_of_text(p.id) is Some && dependencies_readable(p.dependencies)
}

pub open spec fn specifiers_readable(specifiers: Seq<(Seq<char>, Seq<char>)>) -> bool {
    forall|i: int| 0 <= i < specifiers.len() ==> specifier_readable(#[trigger] specifiers[i])
}

pub open spec fn packages_readable(packages: Seq<LockfilePackageView>) -> bool {
    forall|i: int| 0 <= i < packages.len() ==> package_readable(#[trigger] packages[i])
}

/// Every request and every `name@version` of the lockfile can be read.
pub open spec fn lockfile_readable(l: LockfileView) -> bool {
    specifiers_readable(l.specifiers) && packages_readable(l.packages)
}

/// `t` is the first text among the dependencies that cannot be read.
pub open spec fn first_unreadable_dependency(deps: Seq<(Seq<char>, Seq<char>)>, t: Seq<char>) -> bool {
    exists|j: int|
        0 <= j < deps.len() && !dependency_readable(#[trigger] deps[j]) && t == deps[j].1
            && dependencies_readable(deps.take(j))
}

/// `t` is the first text of the specifiers that cannot be read: of each entry
/// the request comes first.
pub open spec fn first_unreadable_specifier(
    specifiers: Seq<(Seq<char>, Seq<char>)>,
    t: Seq<char>,
) -> bool {
    exists|i: int|
        0 <= i < specifiers.len() && !specifier_readable(#[trigger] specifiers[i]) && t == (
        if req_of_text(specifiers[i].0) is None {
            specifiers[i].0
        } else {
            specifiers[i].1
        }) && specifiers_readable(specifiers.take(i))
}

/// `t` is the first text of the packages that cannot be read: of each package
/// its own `name@version` comes first, then its dependencies.
pub open spec fn first_unreadable_package(packages: Seq<LockfilePackageView>, t: Seq<char>) -> bool {
    exists|i: int|
        0 <= i < packages.len() && !package_readable(#[trigger] packages[i]) && (if id_of_text(
            packages[i].id,
        ) is None {
            t == packages[i].id
        } else {
            first_unreadable_dependency(packages[i].dependencies, t)
        }) && packages_readable(packages.take(i))
}

/// `t` is the first text of the lockfile that cannot be read: the specifiers
/// come first, then the packages.
pub open spec fn first_unreadable(l: LockfileView, t: Seq<char>) -> bool {
    if specifiers_readable(l.specifiers) {
        first_unreadable_package(l.packages, t)
    } else {
        first_unreadable_specifier(l.specifiers, t)
    }
}

/// What the dependencies of a lockfile package stand for.
pub open spec fn snapshot_dependencies(deps: Seq<(Seq<char>, Seq<char>)>) -> Seq<
    (Seq<char>, PackageIdView),
> {
    Seq::new(deps.len(), |j: int| (deps[j].0, id_of_text(deps[j].1).unwrap()))
}

/// What a lockfile package stands for.
pub open spec fn snapshot_package(p: LockfilePackageView) -> SnapshotPackageView {
    SnapshotPackageView {
        id: id_of_text(p.id).unwrap(),
        integrity: p.integrity,
        dependencies: snapshot_dependencies(p.dependencies),
    }
}

/// What the specifiers of a lockfile stand for.
pub open spec fn snapshot_specifiers(specifiers: Seq<(Seq<char>, Seq<char>)>) -> Seq<
    (PackageReqView, PackageIdView),
> {
    Seq::new(
        specifiers.len(),
        |i: int| (req_of_text(specifiers[i].0).unwrap(), id_of_text(specifiers[i].1).unwrap()),
    )
}

/// What the packages of a lockfile stand for.
pub open spec fn snapshot_packages(packages: Seq<LockfilePackageView>) -> Seq<SnapshotPackageView> {
    Seq::new(packages.len(), |i: int| snapshot_package(packages[i]))
}

/// What a readable lockfile stands for: entry for entry, in the same order.
pub open spec fn snapshot_of(l: LockfileView) -> SnapshotView {
    SnapshotView {
        specifiers: snapshot_specifiers(l.specifiers),
        packages: snapshot_packages(l.packages),
    }
}

/// `id` is the first dependency of `p`, in order, that has no entry.
pub open spec fn first_missing_dependency(
    s: SnapshotView,
    p: SnapshotPackageView,
    id: PackageIdView,
) -> bool {
    exists|j: int|
        0 <= j < p.dependencies.len() && (#[trigger] p.dependencies[j]).1 == id && !has_package(
            s,
            id,
        ) && forall|k: int| 0 <= k < j ==> has_package(s, (#[trigger] p.dependencies[k]).1)
}

/// `id` is the first package, in the order of the snapshot, that an edge leads
/// to and that has no entry: the specifiers come first, then the dependencies
/// of each package.
pub open spec fn first_missing(s: SnapshotView, id: PackageIdView) -> bool {
    if specifiers_present(s) {
        exists|i: int|
            0 <= i < s.packages.len() && first_missing_dependency(s, #[trigger] s.packages[i], id)
                && forall|k: int|
                0 <= k < i ==> dependencies_present(s, #[trigger] s.packages[k])
    } else {
        exists|i: int|
            0 <= i < s.specifiers.len() && (#[trigger] s.specifiers[i]).1 == id && !has_package(
                s,
                id,
            ) && forall|k: int| 0 <= k < i ==> has_package(s, (#[trigger] s.specifiers[k]).1)
    }
}

/// `q` is the first request, in order, that resolved to a package that does
/// not answer it.
pub open spec fn first_inconsistent(s: SnapshotView, q: PackageReqView) -> bool {
    exists|i: int|
        0 <= i < s.specifiers.len() && (#[trigger] s.specifiers[i]).0 == q && !answers_request(
            q,
            s.specifiers[i].1,
        ) && forall|k: int|
            0 <= k < i ==> answers_request((#[trigger] s.specifiers[k]).0, s.specifiers[k].1)
}

fn invalid_entry(text: &String) -> (e: HydrateError)
    ensures
        e@ == HydrateErrorView::InvalidEntry(text@),
{
    HydrateError::InvalidEntry(text.clone())
}

fn read_dependencies(deps: &Vec<(String, String)>) -> (r: Result<
    Vec<(String, PackageId)>,
    HydrateError,
>)
    ensures
        match r {
            Ok(out) => dependencies_readable(deps.deep_view()) && out.deep_view()
                == snapshot_dependencies(deps.deep_view()),
            Err(e) => e@ matches HydrateErrorView::InvalidEntry(t) && first_unreadable_dependency(
                deps.deep_view(),
                t,
            ),
        },
{
    let mut out: Vec<(String, PackageId)> = Vec::new();
    let mut j: usize = 0;
    let ghost d = deps.deep_view();
    while j < deps.len()
        invariant
            j <= deps@.len(),
            d == deps.deep_view(),
            out@.len() == j,
            dependencies_readable(d.take(j as int)),
            forall|k: int|
                0 <= k < j ==> (#[trigger] out@[k]).deep_view() == snapshot_dependencies(d)[k],
        decreases deps.len() - j,
    {
        assert(d[j as int] == (deps@[j as int].0@, deps@[j as int].1@));
        match PackageId::parse(deps[j].1.as_str()) {
            Some(id) => {
                out.push((deps[j].0.clone(), id));
                proof {
                    assert forall|k: int| 0 <= k < j + 1 implies dependency_readable(
                        #[trigger] d.take(j + 1)[k],
                    ) by {
                        if k < j {
                            assert(d.take(j as int)[k] == d.take(j + 1)[k]);
                        }
                    }
                }
            },
            None => {
                assert(!dependency_readable(d[j as int]));
                return Err(invalid_entry(&deps[j].1));
            },
        }
        j += 1;
    }
    proof {
        assert(d.take(j as int) =~= d);
        assert(out.deep_view() =~= snapshot_dependencies(d));
    }
    Ok(out)
}

fn read_package(p: &LockfilePackage) -> (r: Result<SnapshotPackage, HydrateError>)
    ensures
        match r {
            Ok(out) => package_readable(p@) && out@ == snapshot_package(p@),
            Err(e) => {
                &&& !package_readable(p@)
                &&& e@ matches HydrateErrorView::InvalidEntry(t)
                &&& if id_of_text(p@.id) is None {
                    t == p@.id
                } else {
                    first_unreadable_dependency(p@.dependencies, t)
                }
            },
        },
{
    match PackageId::parse(p.id.as_str()) {
        None => Err(invalid_entry(&p.id)),
        Some(id) => match read_dependencies(&p.dependencies) {
            Err(e) => {
                proof {
                    let t = e@->InvalidEntry_0;
                    let j = choose|j: int|
                        0 <= j < p@.dependencies.len() && !dependency_readable(
                            #[trigger] p@.dependencies[j],
                        ) && t == p@.dependencies[j].1 && dependencies_readable(
                            p@.dependencies.take(j),
                        );
                    assert(!dependency_readable(p@.dependencies[j]));
                }
                Err(e)
            },
            Ok(dependencies) => Ok(
                SnapshotPackage { id, integrity: p.integrity.clone(), dependencies },
            ),
        },
    }
}

fn read_specifiers(specifiers: &Vec<(String, String)>) -> (r: Result<
    Vec<(PackageReq, PackageId)>,
    HydrateError,
>)
    ensures
        match r {
            Ok(out) => specifiers_readable(specifiers.deep_view()) && out.deep_view()
                == snapshot_specifiers(specifiers.deep_view()),
            Err(e) => e@ matches HydrateErrorView::InvalidEntry(t) && first_unreadable_specifier(
                specifiers.deep_view(),
                t,
            ),
        },
{
    let mut out: Vec<(PackageReq, PackageId)> = Vec::new();
    let mut i: usize = 0;
    let ghost d = specifiers.deep_view();
    while i < specifiers.len()
        invariant
            i <= specifiers@.len(),
            d == specifiers.deep_view(),
            out@.len() == i,
            specifiers_readable(d.take(i as int)),
            forall|k: int|
                0 <= k < i ==> (#[trigger] out@[k]).deep_view() == snapshot_specifiers(d)[k],
        decreases specifiers.len() - i,
    {
        assert(d[i as int] == (specifiers@[i as int].0@, specifiers@[i as int].1@));
        let req = match PackageReq::parse(specifiers[i].0.as_str()) {
            Some(req) => req,
            None => {
                assert(!specifier_readable(d[i as int]));
                return Err(invalid_entry(&specifiers[i].0));
            },
        };
        let id = match PackageId::parse(specifiers[i].1.as_str()) {
            Some(id) => id,
            None => {
                assert(!specifier_readable(d[i as int]));
                return Err(invalid_entry(&specifiers[i].1));
            },
        };
        out.push((req, id));
        proof {
            assert forall|k: int| 0 <= k < i + 1 implies specifier_readable(
                #[trigger] d.take(i + 1)[k],
            ) by {
                if k < i {
                    assert(d.take(i as int)[k] == d.take(i + 1)[k]);
                }
            }
        }
        i += 1;
    }
    proof {
        assert(d.take(i as int) =~= d);
        assert(out.deep_view() =~= snapshot_specifiers(d));
    }
    Ok(out)
}

fn read_packages(packages: &Vec<LockfilePackage>) -> (r: Result<Vec<SnapshotPackage>, HydrateError>)
    ensures
        match r {
            Ok(out) => packages_readable(packages.deep_view()) && out.deep_view()
                == snapshot_packages(packages.deep_view()),
            Err(e) => e@ matches HydrateErrorView::InvalidEntry(t) && first_unreadable_package(
                packages.deep_view(),
                t,
            ),
        },
{
    let mut out: Vec<SnapshotPackage> = Vec::new();
    let mut i: usize = 0;
    let ghost d = packages.deep_view();
    while i < packages.len()
        invariant
            i <= packages@.len(),
            d == packages.deep_view(),
            out@.len() == i,
            packages_readable(d.take(i as int)),
            forall|k: int|
                0 <= k < i ==> (#[trigger] out@[k]).deep_view() == snapshot_packages(d)[k],
        decreases packages.len() - i,
    {
        assert(d[i as int] == packages@[i as int]@);
        match read_package(&packages[i]) {
            Ok(package) => {
                out.push(package);
            },
            Err(e) => {
                assert(!package_readable(d[i as int]));
                return Err(e);
            },
        }
        proof {
            assert forall|k: int| 0 <= k < i + 1 implies package_readable(
                #[trigger] d.take(i + 1)[k],
            ) by {
                if k < i {
                    assert(d.take(i as int)[k] == d.take(i + 1)[k]);
                }
            }
        }
        i += 1;
    }
    proof {
        assert(d.take(i as int) =~= d);
        assert(out.deep_view() =~= snapshot_packages(d));
    }
    Ok(out)
}

/// What a readable lockfile stands for is well named.
pub proof fn lemma_snapshot_of_well_named(l: LockfileView)
    requires
        lockfile_readable(l),
    ensures
        well_named(snapshot_of(l)),
{
    let s = snapshot_of(l);
    assert forall|i: int| 0 <= i < s.specifiers.len() implies is_package_req(
        (#[trigger] s.specifiers[i]).0,
    ) && is_package_name(s.specifiers[i].1.name) by {
        assert(specifier_readable(l.specifiers[i]));
        lemma_req_of_text_is_text(l.specifiers[i].0);
        lemma_id_of_text_is_text(l.specifiers[i].1);
    }
    assert forall|i: int| 0 <= i < s.packages.len() implies package_well_named(
        #[trigger] s.packages[i],
    ) by {
        let p = l.packages[i];
        assert(package_readable(p));
        lemma_id_of_text_is_text(p.id);
        assert forall|j: int| 0 <= j < s.packages[i].dependencies.len() implies is_package_name(
            (#[trigger] s.packages[i].dependencies[j]).1.name,
        ) by {
            assert(dependency_readable(p.dependencies[j]));
            lemma_id_of_text_is_text(p.dependencies[j].1);
        }
    }
}

impl Snapshot {
    /// A snapshot without requests and packages.
    pub fn new() -> (s: Snapshot)
        ensures
            s@.specifiers.len() == 0,
            s@.packages.len() == 0,
            is_snapshot(s@),
    {
        Snapshot { specifiers: Vec::new(), packages: Vec::new() }
    }

    /// Where the entry of the package stands, if it has one: the first place,
    /// should it have several.
    pub fn position(&self, id: &PackageId) -> (r: Option<usize>)
        ensures
            r is Some <==> has_package(self@, id@),
            r matches Some(i) ==> i < self@.packages.len() && self@.packages[i as int].id == id@
                && forall|k: int| 0 <= k < i ==> (#[trigger] self@.packages[k]).id != id@,
    {
        let mut i: usize = 0;
        while i < self.packages.len()
            invariant
                i <= self.packages@.len(),
                forall|k: int| 0 <= k < i ==> (#[trigger] self@.packages[k]).id != id@,
            decreases self.packages.len() - i,
        {
            assert(self@.packages[i as int] == self.packages@[i as int]@);
            if self.packages[i].id.same(id) {
                return Some(i);
            }
            i += 1;
        }
        None
    }

    /// Whether the package has an entry.
    pub fn contains(&self, id: &PackageId) -> (b: bool)
        ensures
            b == has_package(self@, id@),
    {
        self.position(id).is_some()
    }

    /// The package that the request resolved to, if the snapshot holds the
    /// request, with the same text of the requirement: the first, should it
    /// hold several.
    pub fn resolution(&self, req: &PackageReq) -> (r: Option<&PackageId>)
        ensures
            match r {
                Some(id) => exists|i: int|
                    0 <= i < self@.specifiers.len() && (#[trigger] self@.specifiers[i]) == (
                        req@,
                        id@,
                    ) && forall|k: int| 0 <= k < i ==> (#[trigger] self@.specifiers[k]).0 != req@,
                None => forall|k: int|
                    0 <= k < self@.specifiers.len() ==> (#[trigger] self@.specifiers[k]).0 != req@,
            },
    {
        let mut i: usize = 0;
        while i < self.specifiers.len()
            invariant
                i <= self.specifiers@.len(),
                forall|k: int| 0 <= k < i ==> (#[trigger] self@.specifiers[k]).0 != req@,
            decreases self.specifiers.len() - i,
        {
            assert(self@.specifiers[i as int] == (
                self.specifiers@[i as int].0@,
                self.specifiers@[i as int].1@,
            ));
            if self.specifiers[i].0.same(req) {
                return Some(&self.specifiers[i].1);
            }
            i += 1;
        }
        None
    }

    fn first_missing_dependency(&self, p: &SnapshotPackage) -> (r: Option<PackageId>)
        ensures
            match r {
                None => dependencies_present(self@, p@),
                Some(id) => first_missing_dependency(self@, p@, id@),
            },
    {
        let mut j: usize = 0;
        while j < p.dependencies.len()
            invariant
                j <= p.dependencies@.len(),
                forall|k: int| 0 <= k < j ==> has_package(self@, (#[trigger] p@.dependencies[k]).1),
            decreases p.dependencies.len() - j,
        {
            assert(p@.dependencies[j as int] == (
                p.dependencies@[j as int].0@,
                p.dependencies@[j as int].1@,
            ));
            if !self.contains(&p.dependencies[j].1) {
                return Some(p.dependencies[j].1.clone());
            }
            j += 1;
        }
        None
    }

    /// The first request, in order, that resolved to a package that does not
    /// answer it; none if every request is answered.
    pub fn first_unanswered(&self) -> (r: Option<PackageReq>)
        ensures
            match r {
                None => consistent(self@),
                Some(q) => first_inconsistent(self@, q@),
            },
    {
        let mut i: usize = 0;
        while i < self.specifiers.len()
            invariant
                i <= self.specifiers@.len(),
                forall|k: int|
                    0 <= k < i ==> answers_request(
                        (#[trigger] self@.specifiers[k]).0,
                        self@.specifiers[k].1,
                    ),
            decreases self.specifiers.len() - i,
        {
            assert(self@.specifiers[i as int] == (
                self.specifiers@[i as int].0@,
                self.specifiers@[i as int].1@,
            ));
            let req = &self.specifiers[i].0;
            let id = &self.specifiers[i].1;
            let answered = req.name == id.name && (req.req.is_tag() || req.req.admits(&id.version));
            if !answered {
                return Some(req.clone());
            }
            i += 1;
        }
        None
    }

    /// The first package, in the order of the snapshot, that an edge leads to
    /// and that has no entry; none if no edge dangles.
    pub fn first_dangling(&self) -> (r: Option<PackageId>)
        ensures
            match r {
                None => no_dangling(self@),
                Some(id) => first_missing(self@, id@),
            },
    {
        let mut i: usize = 0;
        while i < self.specifiers.len()
            invariant
                i <= self.specifiers@.len(),
                forall|k: int| 0 <= k < i ==> has_package(self@, (#[trigger] self@.specifiers[k]).1),
            decreases self.specifiers.len() - i,
        {
            assert(self@.specifiers[i as int] == (
                self.specifiers@[i as int].0@,
                self.specifiers@[i as int].1@,
            ));
            if !self.contains(&self.specifiers[i].1) {
                return Some(self.specifiers[i].1.clone());
            }
            i += 1;
        }
        let mut k: usize = 0;
        while k < self.packages.len()
            invariant
                k <= self.packages@.len(),
                specifiers_present(self@),
                forall|m: int|
                    0 <= m < k ==> dependencies_present(self@, #[trigger] self@.packages[m]),
            decreases self.packages.len() - k,
        {
            assert(self@.packages[k as int] == self.packages@[k as int]@);
            match self.first_missing_dependency(&self.packages[k]) {
                Some(id) => {
                    return Some(id);
                },
                None => {},
            }
            k += 1;
        }
        None
    }
}

/// Takes a lockfile as the snapshot it stands for. A lockfile is refused
/// where a text in it cannot be read, and, as corrupt, where it refers to a
/// package that it has no entry for.
pub fn hydrate(lockfile: &Lockfile) -> (r: Result<Snapshot, HydrateError>)
    ensures
        r is Ok <==> lockfile_readable(lockfile@) && consistent(snapshot_of(lockfile@))
            && no_dangling(snapshot_of(lockfile@)),
        match r {
            Ok(s) => s@ == snapshot_of(lockfile@) && is_snapshot(s@),
            Err(e) => match e@ {
                HydrateErrorView::InvalidEntry(t) => first_unreadable(lockfile@, t),
                HydrateErrorView::Inconsistent(q) => lockfile_readable(lockfile@)
                    && first_inconsistent(snapshot_of(lockfile@), q),
                HydrateErrorView::MissingPackage(id) => lockfile_readable(lockfile@) && consistent(
                    snapshot_of(lockfile@),
                ) && first_missing(snapshot_of(lockfile@), id),
            },
        },
{
    let specifiers = match read_specifiers(&lockfile.specifiers) {
        Ok(specifiers) => specifiers,
        Err(e) => {
            proof {
                lemma_first_unreadable_specifier(lockfile@.specifiers, e@->InvalidEntry_0);
            }
            return Err(e);
        },
    };
    let packages = match read_packages(&lockfile.packages) {
        Ok(packages) => packages,
        Err(e) => {
            proof {
                lemma_first_unreadable_package(lockfile@.packages, e@->InvalidEntry_0);
            }
            return Err(e);
        },
    };
    let snapshot = Snapshot { specifiers, packages };
    proof {
        lemma_snapshot_of_well_named(lockfile@);
    }
    match snapshot.first_unanswered() {
        Some(q) => {
            proof {
                lemma_first_inconsistent(snapshot@, q@);
            }
            return Err(HydrateError::Inconsistent(q));
        },
        None => {},
    }
    match snapshot.first_dangling() {
        Some(id) => {
            proof {
                lemma_first_missing(snapshot@, id@);
            }
            Err(HydrateError::MissingPackage(id))
        },
        None => Ok(snapshot),
    }
}

/// Where a first unanswered request is found, not every request is answered.
pub proof fn lemma_first_inconsistent(s: SnapshotView, q: PackageReqView)
    requires
        first_inconsistent(s, q),
    ensures
        !consistent(s),
{
    let i = choose|i: int|
        0 <= i < s.specifiers.len() && (#[trigger] s.specifiers[i]).0 == q && !answers_request(
            q,
            s.specifiers[i].1,
        ) && forall|k: int|
            0 <= k < i ==> answers_request((#[trigger] s.specifiers[k]).0, s.specifiers[k].1);
    assert(!answers_request(s.specifiers[i].0, s.specifiers[i].1));
}

/// Where a first unreadable specifier is found, the specifiers are not all
/// readable.
proof fn lemma_first_unreadable_specifier(specifiers: Seq<(Seq<char>, Seq<char>)>, t: Seq<char>)
    requires
        first_unreadable_specifier(specifiers, t),
    ensures
        !specifiers_readable(specifiers),
{
    let i = choose|i: int|
        0 <= i < specifiers.len() && !specifier_readable(#[trigger] specifiers[i]) && t == (
        if req_of_text(specifiers[i].0) is None {
            specifiers[i].0
        } else {
            specifiers[i].1
        }) && specifiers_readable(specifiers.take(i));
    assert(!specifier_readable(specifiers[i]));
}

/// Where a first unreadable package is found, the packages are not all
/// readable.
proof fn lemma_first_unreadable_package(packages: Seq<LockfilePackageView>, t: Seq<char>)
    requires
        first_unreadable_package(packages, t),
    ensures
        !packages_readable(packages),
{
    let i = choose|i: int|
        0 <= i < packages.len() && !package_readable(#[trigger] packages[i]) && (if id_of_text(
            packages[i].id,
        ) is None {
            t == packages[i].id
        } else {
            first_unreadable_dependency(packages[i].dependencies, t)
        }) && packages_readable(packages.take(i));
    assert(!package_readable(packages[i]));
}

/// Where a first missing package is found, an edge dangles.
pub proof fn lemma_first_missing(s: SnapshotView, id: PackageIdView)
    requires
        first_missing(s, id),
    ensures
        !no_dangling(s),
        !has_package(s, id),
{
    if specifiers_present(s) {
        let i = choose|i: int|
            0 <= i < s.packages.len() && first_missing_dependency(s, #[trigger] s.packages[i], id)
                && forall|k: int|
                0 <= k < i ==> dependencies_present(s, #[trigger] s.packages[k]);
        let p = s.packages[i];
        let j = choose|j: int|
            0 <= j < p.dependencies.len() && (#[trigger] p.dependencies[j]).1 == id
                && !has_package(s, id) && forall|k: int|
                0 <= k < j ==> has_package(s, (#[trigger] p.dependencies[k]).1);
        assert(!has_package(s, p.dependencies[j].1));
        assert(!dependencies_present(s, s.packages[i]));
    }
}

/// Round trip: the written form of a snapshot can be read, and what it
/// stands for is the snapshot itself, request for request and package for
/// package. So `hydrate` of what `to_lockfile` wrote succeeds with the same
/// snapshot, and every request resolves in it to the package it resolved to
/// before.
pub proof fn lemma_round_trip(s: SnapshotView)
    requires
        is_snapshot(s),
    ensures
        lockfile_readable(lockfile_of(s)),
        snapshot_of(lockfile_of(s)) == s,
        consistent(snapshot_of(lockfile_of(s))),
        no_dangling(snapshot_of(lockfile_of(s))),
{
    let l = lockfile_of(s);
    assert forall|i: int| 0 <= i < l.specifiers.len() implies specifier_readable(
        #[trigger] l.specifiers[i],
    ) && snapshot_specifiers(l.specifiers)[i] == s.specifiers[i] by {
        let e = s.specifiers[i];
        assert(is_package_req(e.0) && is_package_name(e.1.name));
        lemma_req_of_text(e.0);
        lemma_id_of_text(e.1);
    }
    assert forall|i: int| 0 <= i < l.packages.len() implies package_readable(
        #[trigger] l.packages[i],
    ) && snapshot_packages(l.packages)[i] == s.packages[i] by {
        let p = s.packages[i];
        assert(package_well_named(p));
        lemma_id_of_text(p.id);
        let deps = l.packages[i].dependencies;
        assert forall|j: int| 0 <= j < deps.len() implies dependency_readable(#[trigger] deps[j])
            && snapshot_dependencies(deps)[j] == p.dependencies[j] by {
            assert(is_package_name(p.dependencies[j].1.name));
            lemma_id_of_text(p.dependencies[j].1);
        }
        assert(snapshot_dependencies(deps) =~= p.dependencies);
    }
    assert(snapshot_of(l).specifiers =~= s.specifiers);
    assert(snapshot_of(l).packages =~= s.packages);
}

/// The written form is stable: a readable lockfile is, text for text, the
/// written form of what it stands for.
pub proof fn lemma_lockfile_stable(l: LockfileView)
    requires
        lockfile_readable(l),
    ensures
        lockfile_of(snapshot_of(l)) == l,
{
    let s = snapshot_of(l);
    let w = lockfile_of(s);
    assert forall|i: int| 0 <= i < l.specifiers.len() implies w.specifiers[i]
        == l.specifiers[i] by {
        assert(specifier_readable(l.specifiers[i]));
        lemma_req_of_text_is_text(l.specifiers[i].0);
        lemma_id_of_text_is_text(l.specifiers[i].1);
    }
    assert forall|i: int| 0 <= i < l.packages.len() implies w.packages[i] == l.packages[i] by {
        let p = l.packages[i];
        assert(package_readable(p));
        lemma_id_of_text_is_text(p.id);
        assert forall|j: int| 0 <= j < p.dependencies.len() implies w.packages[i].dependencies[j]
            == p.dependencies[j] by {
            assert(dependency_readable(p.dependencies[j]));
            lemma_id_of_text_is_text(p.dependencies[j].1);
        }
        assert(w.packages[i].dependencies =~= p.dependencies);
    }
    assert(w.specifiers =~= l.specifiers);
    assert(w.packages =~= l.packages);
}

/// Whether an entry stands under the key.
pub open spec fn has_key(entries: Seq<(Seq<char>, Seq<char>)>, key: Seq<char>) -> bool {
    exists|i: int| 0 <= i < entries.len() && (#[trigger] entries[i]).0 == key
}

/// The entry at place `i` is the first under the key.
pub open spec fn is_key_at(entries: Seq<(Seq<char>, Seq<char>)>, key: Seq<char>, i: int) -> bool {
    &&& 0 <= i < entries.len()
    &&& entries[i].0 == key
    &&& forall|j: int| 0 <= j < i ==> (#[trigger] entries[j]).0 != key
}

/// The entry as it stands after an update: what the update holds under its
/// key, else the entry itself.
pub open spec fn updated_entry(
    entry: (Seq<char>, Seq<char>),
    update: Seq<(Seq<char>, Seq<char>)>,
) -> (Seq<char>, Seq<char>) {
    if has_key(update, entry.0) {
        update[choose|i: int| is_key_at(update, entry.0, i)]
    } else {
        entry
    }
}

/// The entries of the update whose keys the existing entries do not hold, in
/// their order.
pub open spec fn fresh_entries(
    existing: Seq<(Seq<char>, Seq<char>)>,
    update: Seq<(Seq<char>, Seq<char>)>,
) -> Seq<(Seq<char>, Seq<char>)>
    decreases update.len(),
{
    if update.len() == 0 {
        Seq::empty()
    } else {
        let before = fresh_entries(existing, update.drop_last());
        if has_key(existing, update.last().0) {
            before
        } else {
            before.push(update.last())
        }
    }
}

/// Entries after an update: each existing entry stays in its place, with
/// what the update holds under its key if it holds anything; what is new
/// follows, in the order of the update.
pub open spec fn updated_entries(
    existing: Seq<(Seq<char>, Seq<char>)>,
    update: Seq<(Seq<char>, Seq<char>)>,
) -> Seq<(Seq<char>, Seq<char>)> {
    Seq::new(existing.len(), |i: int| updated_entry(existing[i], update)) + fresh_entries(
        existing,
        update,
    )
}

fn find_key(entries: &Vec<(String, String)>, key: &String) -> (r: Option<usize>)
    ensures
        match r {
            Some(i) => is_key_at(entries.deep_view(), key@, i as int) && i < entries@.len() && (
            choose|j: int| is_key_at(entries.deep_view(), key@, j)) == i,
            None => !has_key(entries.deep_view(), key@),
        },
{
    let ghost e = entries.deep_view();
    let mut i: usize = 0;
    while i < entries.len()
        invariant
            i <= entries@.len(),
            e == entries.deep_view(),
            forall|j: int| 0 <= j < i ==> (#[trigger] e[j]).0 != key@,
        decreases entries.len() - i,
    {
        assert(e[i as int] == (entries@[i as int].0@, entries@[i as int].1@));
        if entries[i].0 == *key {
            proof {
                assert(is_key_at(e, key@, i as int));
                let j = choose|j: int| is_key_at(e, key@, j);
                if j < i {
                    assert(e[j].0 != key@);
                }
                if i < j {
                    assert(e[i as int].0 != key@);
                }
            }
            return Some(i);
        }
        i += 1;
    }
    proof {
        if has_key(e, key@) {
            let j = choose|j: int| 0 <= j < e.len() && (#[trigger] e[j]).0 == key@;
            assert(e[j].0 != key@);
        }
    }
    None
}

/// Entries after an update.
pub fn update_entries(existing: &Vec<(String, String)>, update: &Vec<(String, String)>) -> (out:
    Vec<(String, String)>)
    ensures
        out.deep_view() == updated_entries(existing.deep_view(), update.deep_view()),
{
    let ghost e = existing.deep_view();
    let ghost u = update.deep_view();
    let mut out: Vec<(String, String)> = Vec::new();
    let mut i: usize = 0;
    while i < existing.len()
        invariant
            i <= existing@.len(),
            e == existing.deep_view(),
            u == update.deep_view(),
            out@.len() == i,
            forall|k: int| 0 <= k < i ==> (#[trigger] out@[k]).deep_view() == updated_entry(e[k], u),
        decreases existing.len() - i,
    {
        assert(e[i as int] == (existing@[i as int].0@, existing@[i as int].1@));
        match find_key(update, &existing[i].0) {
            Some(at) => {
                assert(u[at as int] == (update@[at as int].0@, update@[at as int].1@));
                out.push((update[at].0.clone(), update[at].1.clone()));
            },
            None => {
                out.push((existing[i].0.clone(), existing[i].1.clone()));
            },
        }
        i += 1;
    }
    let ghost kept = out.deep_view();
    assert(kept =~= Seq::new(e.len(), |i: int| updated_entry(e[i], u)));
    let mut k: usize = 0;
    assert(u.take(0) =~= Seq::empty());
    assert(out.deep_view() =~= kept + fresh_entries(e, u.take(0)));
    while k < update.len()
        invariant
            k <= update@.len(),
            e == existing.deep_view(),
            u == update.deep_view(),
            out.deep_view() == kept + fresh_entries(e, u.take(k as int)),
        decreases update.len() - k,
    {
        assert(u[k as int] == (update@[k as int].0@, update@[k as int].1@));
        proof {
            let now = u.take(k + 1);
            assert(now.drop_last() =~= u.take(k as int));
            assert(now.last() == u[k as int]);
        }
        if find_key(existing, &update[k].0).is_none() {
            let ghost before = out.deep_view();
            out.push((update[k].0.clone(), update[k].1.clone()));
            assert(out.deep_view() =~= before.push(u[k as int]));
            assert(before.push(u[k as int]) =~= kept + fresh_entries(e, u.take(k as int)).push(
                u[k as int],
            ));
        }
        k += 1;
    }
    assert(u.take(k as int) =~= u);
    out
}

/// An update that holds under no key anything but what the entries hold
/// leaves the entries as they are, text for text and place for place.
pub proof fn lemma_update_with_itself(entries: Seq<(Seq<char>, Seq<char>)>)
    requires
        forall|i: int, j: int|
            0 <= i < j < entries.len() ==> (#[trigger] entries[i]).0 != (#[trigger] entries[j]).0,
    ensures
        updated_entries(entries, entries) == entries,
{
    lemma_nothing_fresh(entries, entries);
    assert forall|i: int| 0 <= i < entries.len() implies updated_entry(
        #[trigger] entries[i],
        entries,
    ) == entries[i] by {
        assert(is_key_at(entries, entries[i].0, i));
        let j = choose|j: int| is_key_at(entries, entries[i].0, j);
        if j < i {
            assert(entries[j].0 != entries[i].0);
        }
        if i < j {
            assert(entries[i].0 != entries[j].0);
        }
    }
    assert(updated_entries(entries, entries) =~= entries);
}

/// An update whose keys the entries all hold brings nothing new.
pub proof fn lemma_nothing_fresh(
    existing: Seq<(Seq<char>, Seq<char>)>,
    update: Seq<(Seq<char>, Seq<char>)>,
)
    requires
        forall|i: int| 0 <= i < update.len() ==> has_key(existing, (#[trigger] update[i]).0),
    ensures
        fresh_entries(existing, update) == Seq::<(Seq<char>, Seq<char>)>::empty(),
    decreases update.len(),
{
    if update.len() > 0 {
        let shorter = update.drop_last();
        assert forall|i: int| 0 <= i < shorter.len() implies has_key(
            existing,
            (#[trigger] shorter[i]).0,
        ) by {
            assert(shorter[i] == update[i]);
        }
        lemma_nothing_fresh(existing, shorter);
        assert(has_key(existing, update[update.len() - 1].0));
    }
}

/// An entry that the update does not touch stays as it is, in its place.
pub proof fn lemma_untouched_entry(
    existing: Seq<(Seq<char>, Seq<char>)>,
    update: Seq<(Seq<char>, Seq<char>)>,
    i: int,
)
    requires
        0 <= i < existing.len(),
        !has_key(update, existing[i].0),
    ensures
        updated_entries(existing, update)[i] == existing[i],
{
}

/// Whether a package stands under the `name@version`.
pub open spec fn has_entry(packages: Seq<LockfilePackageView>, id: Seq<char>) -> bool {
    exists|i: int| 0 <= i < packages.len() && (#[trigger] packages[i]).id == id
}

/// The package at place `i` is the first under the `name@version`.
pub open spec fn is_entry_at(packages: Seq<LockfilePackageView>, id: Seq<char>, i: int) -> bool {
    &&& 0 <= i < packages.len()
    &&& packages[i].id == id
    &&& forall|j: int| 0 <= j < i ==> (#[trigger] packages[j]).id != id
}

/// The package as it stands after an update: the package that the update
/// holds under its `name@version`, else the package itself.
pub open spec fn updated_package(
    package: LockfilePackageView,
    update: Seq<LockfilePackageView>,
) -> LockfilePackageView {
    if has_entry(update, package.id) {
        update[choose|i: int| is_entry_at(update, package.id, i)]
    } else {
        package
    }
}

/// The packages of the update that the existing packages do not hold, in
/// their order.
pub open spec fn fresh_packages(
    existing: Seq<LockfilePackageView>,
    update: Seq<LockfilePackageView>,
) -> Seq<LockfilePackageView>
    decreases update.len(),
{
    if update.len() == 0 {
        Seq::empty()
    } else {
        let before = fresh_packages(existing, update.drop_last());
        if has_entry(existing, update.last().id) {
            before
        } else {
            before.push(update.last())
        }
    }
}

/// Packages after an update: each existing package stays in its place, as
/// the update holds it if it holds it; what is new follows.
pub open spec fn updated_packages(
    existing: Seq<LockfilePackageView>,
    update: Seq<LockfilePackageView>,
) -> Seq<LockfilePackageView> {
    Seq::new(existing.len(), |i: int| updated_package(existing[i], update)) + fresh_packages(
        existing,
        update,
    )
}

/// A lockfile after an update: every entry that the update does not hold
/// stays as it is, in its place.
pub open spec fn updated_lockfile(existing: LockfileView, update: LockfileView) -> LockfileView {
    LockfileView {
        specifiers: updated_entries(existing.specifiers, update.specifiers),
        packages: updated_packages(existing.packages, update.packages),
    }
}

fn find_entry(packages: &Vec<LockfilePackage>, id: &String) -> (r: Option<usize>)
    ensures
        match r {
            Some(i) => is_entry_at(packages.deep_view(), id@, i as int) && i < packages@.len() && (
            choose|j: int| is_entry_at(packages.deep_view(), id@, j)) == i,
            None => !has_entry(packages.deep_view(), id@),
        },
{
    let ghost e = packages.deep_view();
    let mut i: usize = 0;
    while i < packages.len()
        invariant
            i <= packages@.len(),
            e == packages.deep_view(),
            forall|j: int| 0 <= j < i ==> (#[trigger] e[j]).id != id@,
        decreases packages.len() - i,
    {
        assert(e[i as int] == packages@[i as int]@);
        if packages[i].id == *id {
            proof {
                assert(is_entry_at(e, id@, i as int));
                let j = choose|j: int| is_entry_at(e, id@, j);
                if j < i {
                    assert(e[j].id != id@);
                }
                if i < j {
                    assert(e[i as int].id != id@);
                }
            }
            return Some(i);
        }
        i += 1;
    }
    proof {
        if has_entry(e, id@) {
            let j = choose|j: int| 0 <= j < e.len() && (#[trigger] e[j]).id == id@;
            assert(e[j].id != id@);
        }
    }
    None
}

impl Clone for LockfilePackage {
    fn clone(&self) -> (r: Self)
        ensures
            r@ == self@,
    {
        let mut dependencies: Vec<(String, String)> = Vec::new();
        let mut j: usize = 0;
        while j < self.dependencies.len()
            invariant
                j <= self.dependencies@.len(),
                dependencies@.len() == j,
                forall|k: int|
                    0 <= k < j ==> (#[trigger] dependencies@[k]).deep_view()
                        == self.dependencies.deep_view()[k],
            decreases self.dependencies.len() - j,
        {
            assert(self.dependencies.deep_view()[j as int] == (
                self.dependencies@[j as int].0@,
                self.dependencies@[j as int].1@,
            ));
            dependencies.push((self.dependencies[j].0.clone(), self.dependencies[j].1.clone()));
            j += 1;
        }
        assert(dependencies.deep_view() =~= self.dependencies.deep_view());
        LockfilePackage { id: self.id.clone(), integrity: self.integrity.clone(), dependencies }
    }
}

fn update_packages(existing: &Vec<LockfilePackage>, update: &Vec<LockfilePackage>) -> (out: Vec<
    LockfilePackage,
>)
    ensures
        out.deep_view() == updated_packages(existing.deep_view(), update.deep_view()),
{
    let ghost e = existing.deep_view();
    let ghost u = update.deep_view();
    let mut out: Vec<LockfilePackage> = Vec::new();
    let mut i: usize = 0;
    while i < existing.len()
        invariant
            i <= existing@.len(),
            e == existing.deep_view(),
            u == update.deep_view(),
            out@.len() == i,
            forall|k: int| 0 <= k < i ==> (#[trigger] out@[k])@ == updated_package(e[k], u),
        decreases existing.len() - i,
    {
        assert(e[i as int] == existing@[i as int]@);
        match find_entry(update, &existing[i].id) {
            Some(at) => {
                assert(u[at as int] == update@[at as int]@);
                out.push(update[at].clone());
            },
            None => {
                out.push(existing[i].clone());
            },
        }
        i += 1;
    }
    let ghost kept = out.deep_view();
    assert(kept =~= Seq::new(e.len(), |i: int| updated_package(e[i], u)));
    let mut k: usize = 0;
    assert(u.take(0) =~= Seq::empty());
    assert(out.deep_view() =~= kept + fresh_packages(e, u.take(0)));
    while k < update.len()
        invariant
            k <= update@.len(),
            e == existing.deep_view(),
            u == update.deep_view(),
            out.deep_view() == kept + fresh_packages(e, u.take(k as int)),
        decreases update.len() - k,
    {
        assert(u[k as int] == update@[k as int]@);
        proof {
            let now = u.take(k + 1);
            assert(now.drop_last() =~= u.take(k as int));
            assert(now.last() == u[k as int]);
        }
        if find_entry(existing, &update[k].id).is_none() {
            let ghost before = out.deep_view();
            out.push(update[k].clone());
            assert(out.deep_view() =~= before.push(u[k as int]));
            assert(before.push(u[k as int]) =~= kept + fresh_packages(e, u.take(k as int)).push(
                u[k as int],
            ));
        }
        k += 1;
    }
    assert(u.take(k as int) =~= u);
    out
}

impl Lockfile {
    /// The lockfile after an update: what the update holds supersedes what
    /// stands under the same request or `name@version`; every other entry
    /// stays as it is, in its place; what is new follows.
    pub fn updated_with(&self, update: &Lockfile) -> (out: Lockfile)
        ensures
            out@ == updated_lockfile(self@, update@),
    {
        Lockfile {
            specifiers: update_entries(&self.specifiers, &update.specifiers),
            packages: update_packages(&self.packages, &update.packages),
        }
    }
}

/// A package that the update does not hold stays as it is, in its place.
pub proof fn lemma_untouched_package(existing: LockfileView, update: LockfileView, i: int)
    requires
        0 <= i < existing.packages.len(),
        !has_entry(update.packages, existing.packages[i].id),
    ensures
        updated_lockfile(existing, update).packages[i] == existing.packages[i],
{
}

/// What a text of the file stands for among the texts of a lockfile: what
/// follows `npm:`, or the text itself where it names no scheme. A text with
/// another scheme is no text of a package.
pub open spec fn entry_text_of(written: Seq<char>) -> Option<Seq<char>> {
    if starts_with(written, "npm:"@) {
        Some(written.skip(4))
    } else if occurs_in(written, ':', 0, written.len() as int) {
        None
    } else {
        Some(written)
    }
}

/// What a text of the file stands for among the texts of a lockfile.
pub fn entry_text(written: &str) -> (r: Option<String>)
    ensures
        r.deep_view() == entry_text_of(written@),
{
    let chars = chars_of(written);
    let prefix = chars_of("npm:");
    let n = chars.len();
    if has_prefix(&chars, &prefix) {
        proof {
            reveal_strlit("npm:");
            assert(written@.skip(4) =~= written@.subrange(4, n as int));
        }
        Some(substring(written, 4, n))
    } else if contains_in(&chars, ':', 0, n) {
        None
    } else {
        Some(String::from_str(written))
    }
}

/// A text of a lockfile as the file writes it: behind `npm:`.
pub fn written_text(text: &str) -> (r: String)
    ensures
        r@ == "npm:"@ + text@,
        entry_text_of(r@) == Some(text@),
{
    let mut r = String::from_str("npm:");
    r.append(text);
    proof {
        reveal_strlit("npm:");
        assert(r@.take(4) =~= "npm:"@);
        assert(r@.skip(4) =~= text@);
    }
    r
}

/// The requests of a lockfile among the entries that the file writes, in
/// their order: an entry with a text of another scheme, on either side, is
/// passed over.
pub open spec fn entries_read(written: Seq<(Seq<char>, Seq<char>)>) -> Seq<(Seq<char>, Seq<char>)>
    decreases written.len(),
{
    if written.len() == 0 {
        Seq::empty()
    } else {
        let before = entries_read(written.drop_last());
        match (entry_text_of(written.last().0), entry_text_of(written.last().1)) {
            (Some(request), Some(resolved)) => before.push((request, resolved)),
            _ => before,
        }
    }
}

/// The requests of a lockfile among the entries that the file writes.
pub fn read_entries(written: &Vec<(String, String)>) -> (out: Vec<(String, String)>)
    ensures
        out.deep_view() == entries_read(written.deep_view()),
{
    let ghost w = written.deep_view();
    let mut out: Vec<(String, String)> = Vec::new();
    let mut i: usize = 0;
    assert(w.take(0) =~= Seq::empty());
    assert(out.deep_view() =~= Seq::empty());
    while i < written.len()
        invariant
            i <= written@.len(),
            w == written.deep_view(),
            out.deep_view() == entries_read(w.take(i as int)),
        decreases written.len() - i,
    {
        assert(w[i as int] == (written@[i as int].0@, written@[i as int].1@));
        proof {
            let now = w.take(i + 1);
            assert(now.drop_last() =~= w.take(i as int));
            assert(now.last() == w[i as int]);
        }
        match (entry_text(written[i].0.as_str()), entry_text(written[i].1.as_str())) {
            (Some(request), Some(resolved)) => {
                let ghost before = out.deep_view();
                out.push((request, resolved));
                assert(out.deep_view() =~= before.push((request@, resolved@)));
            },
            _ => {},
        }
        i += 1;
    }
    assert(w.take(i as int) =~= w);
    out
}

/// The requests of a lockfile as the file writes them: each text behind
/// `npm:`.
pub open spec fn entries_written(entries: Seq<(Seq<char>, Seq<char>)>) -> Seq<(Seq<char>, Seq<char>)> {
    Seq::new(entries.len(), |i: int| ("npm:"@ + entries[i].0, "npm:"@ + entries[i].1))
}

/// The requests of a lockfile as the file writes them.
pub fn write_entries(entries: &Vec<(String, String)>) -> (out: Vec<(String, String)>)
    ensures
        out.deep_view() == entries_written(entries.deep_view()),
{
    let ghost e = entries.deep_view();
    let mut out: Vec<(String, String)> = Vec::new();
    let mut i: usize = 0;
    while i < entries.len()
        invariant
            i <= entries@.len(),
            e == entries.deep_view(),
            out@.len() == i,
            forall|k: int| 0 <= k < i ==> (#[trigger] out@[k]).0@ == "npm:"@ + e[k].0
                && out@[k].1@ == "npm:"@ + e[k].1,
        decreases entries.len() - i,
    {
        assert(e[i as int] == (entries@[i as int].0@, entries@[i as int].1@));
        out.push((written_text(entries[i].0.as_str()), written_text(entries[i].1.as_str())));
        i += 1;
    }
    assert(out.deep_view() =~= entries_written(e));
    out
}

/// What is written of the requests of a lockfile is read back as it was.
pub proof fn lemma_entries_read_back(entries: Seq<(Seq<char>, Seq<char>)>)
    ensures
        entries_read(entries_written(entries)) == entries,
    decreases entries.len(),
{
    let written = entries_written(entries);
    if entries.len() > 0 {
        lemma_entries_read_back(entries.drop_last());
        assert(written.drop_last() =~= entries_written(entries.drop_last()));
        reveal_strlit("npm:");
        let last = entries.last();
        assert(("npm:"@ + last.0).take(4) =~= "npm:"@);
        assert(("npm:"@ + last.0).skip(4) =~= last.0);
        assert(("npm:"@ + last.1).take(4) =~= "npm:"@);
        assert(("npm:"@ + last.1).skip(4) =~= last.1);
        assert(entries_read(written) =~= entries.drop_last().push(last));
        assert(entries.drop_last().push(last) =~= entries);
    } else {
        assert(entries_read(written) =~= entries);
    }
}

} // verus!

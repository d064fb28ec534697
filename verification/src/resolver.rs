//! Resolution of requests to packages, one piece of work at a time. The
//! resolver says which package it must know more of; whoever drives it asks
//! the cache or the registry and hands over what came back.
use vstd::prelude::*;
use vstd::string::*;
use crate::error::{ResolveError, ResolveErrorView};
use crate::package::{
    is_name, is_package_name, is_package_req, PackageId, PackageIdView, PackageReq, PackageReqView,
};
use crate::platform::{allows, Platform, PlatformView};
use crate::registry::{
    answers, best_of, find_info, info_at, is_best_match, is_info_at, is_listed_at, lemma_info_at,
    listed_at,
    DependencyView, PackageInfo, PackageInfoView, VersionInfoView,
};
use crate::req::VersionReq;
use crate::text::holds_text;
use crate::snapshot::{
    answers_request, consistent, dependencies_present, has_package, is_snapshot,
    package_well_named, unique_packages, well_named, Snapshot, SnapshotPackage,
    SnapshotPackageView, SnapshotView,
};
use crate::version::{version_text, Version};

verus! {

/// A piece of work that is still to do.
pub enum Pending {
    /// A request of the user is to be resolved, and recorded.
    Request(PackageReq),
    /// A package that a dependency resolved to is to be entered.
    Package(PackageId),
}

pub enum PendingView {
    Request(PackageReqView),
    Package(PackageIdView),
}

impl View for Pending {
    type V = PendingView;

    open spec fn view(&self) -> PendingView {
        match self {
            Pending::Request(q) => PendingView::Request(q@),
            Pending::Package(id) => PendingView::Package(id@),
        }
    }
}

impl DeepView for Pending {
    type V = PendingView;

    open spec fn deep_view(&self) -> PendingView {
        self@
    }
}

/// The state of a resolution.
pub struct ResolverView {
    /// What is resolved so far.
    pub snapshot: SnapshotView,
    /// The work still to do, the last piece first.
    pub pending: Seq<PendingView>,
    /// What is known of packages.
    pub infos: Seq<PackageInfoView>,
    /// The packages of which what is known came from the registry in this
    /// run.
    pub fresh: Seq<Seq<char>>,
    /// The packages that the registry does not know.
    pub missing: Seq<Seq<char>>,
    /// The packages of which no more can be learnt, as the network is not to
    /// be used.
    pub offline: Seq<Seq<char>>,
    /// The machine that is resolved for.
    pub platform: PlatformView,
    /// The snapshot that the resolution began with.
    pub origin: SnapshotView,
    /// The requests of the user that were taken, in the order in which they
    /// were taken.
    pub asked: Seq<PackageReqView>,
    /// Whether the resolution was started over, so that only what the
    /// registry holds now counts.
    pub fresh_only: bool,
}

/// How the version of a package is picked.
pub enum Wanted {
    /// The best match for the text of a requirement.
    Best(Seq<char>),
    /// This version.
    Exactly(Version),
}

/// The place of the version that is wanted, among those listed.
pub open spec fn chosen(info: PackageInfoView, w: Wanted) -> Option<int> {
    match w {
        Wanted::Best(req) => best_of(info, req),
        Wanted::Exactly(v) => listed_at(info, v),
    }
}

/// What becomes of a dependency, or of a piece of work.
pub enum Outcome {
    /// It resolves to the package.
    Edge(PackageIdView),
    /// It is optional and left out.
    Skip,
    /// Nothing is known of its package yet.
    NeedInfo,
    /// What is known of its package may be stale, and does not hold what is
    /// wanted.
    NeedFresh,
    /// The registry does not know its package.
    NotFound,
    /// No version of its package is the one wanted.
    NoVersion,
}

/// Whether no more can be learnt of the package: what is known came from
/// the registry, or the registry does not know the package, or the network
/// is not to be used for it.
pub open spec fn settled(r: ResolverView, name: Seq<char>) -> bool {
    r.fresh.contains(name) || r.missing.contains(name) || r.offline.contains(name)
}

/// What an optional dependency comes to where another would fail.
pub open spec fn unless_optional(optional: bool, failure: Outcome) -> Outcome {
    if optional {
        Outcome::Skip
    } else {
        failure
    }
}

/// What becomes of the wish for a version of the package of the name. Where
/// nothing is known of the package, it must be asked for, unless the
/// registry does not know it or the network is not to be used; after a start
/// over it is fresh information that is asked for. Where what is
/// known holds what is wanted, that version is taken; an optional dependency
/// only where the version is for the machine. Where what is known does not
/// hold what is wanted, fresh information must be asked for, unless no more
/// can be learnt. What cannot be had makes an optional dependency be left
/// out, and any other fail. Of a package without a proper name nothing can
/// be had.
pub open spec fn outcome_for(r: ResolverView, name: Seq<char>, w: Wanted, optional: bool) -> Outcome {
    if !is_package_name(name) {
        unless_optional(optional, Outcome::NotFound)
    } else {
        match info_at(r.infos, name) {
            None => if r.missing.contains(name) {
                unless_optional(optional, Outcome::NotFound)
            } else if r.offline.contains(name) {
                unless_optional(optional, Outcome::NoVersion)
            } else if r.fresh_only {
                Outcome::NeedFresh
            } else {
                Outcome::NeedInfo
            },
            Some(k) => match chosen(r.infos[k], w) {
                None => if settled(r, name) {
                    unless_optional(optional, Outcome::NoVersion)
                } else {
                    Outcome::NeedFresh
                },
                Some(i) => if optional && !allows(r.infos[k].versions[i].constraints, r.platform) {
                    Outcome::Skip
                } else {
                    Outcome::Edge(
                        PackageIdView { name, version: r.infos[k].versions[i].version },
                    )
                },
            },
        }
    }
}

/// What becomes of a dependency: the best match for its requirement is
/// wanted.
pub open spec fn outcome_of(r: ResolverView, d: DependencyView) -> Outcome {
    outcome_for(r, d.req.name, Wanted::Best(d.req.req), d.optional)
}

/// Whether the outcome keeps the package that has the dependency from being
/// entered.
pub open spec fn blocks(o: Outcome) -> bool {
    o is NeedInfo || o is NeedFresh || o is NotFound || o is NoVersion
}

/// The dependency at place `k` is the first one that blocks.
pub open spec fn is_first_blocker(r: ResolverView, deps: Seq<DependencyView>, k: int) -> bool {
    &&& 0 <= k < deps.len()
    &&& blocks(outcome_of(r, deps[k]))
    &&& forall|j: int| 0 <= j < k ==> !blocks(outcome_of(r, #[trigger] deps[j]))
}

/// The place of the first dependency that blocks, if one does.
pub open spec fn first_blocker(r: ResolverView, deps: Seq<DependencyView>) -> Option<int> {
    if exists|k: int| is_first_blocker(r, deps, k) {
        Some(choose|k: int| is_first_blocker(r, deps, k))
    } else {
        None
    }
}

/// The dependencies that are taken, in their order: those that resolve.
pub open spec fn taken(r: ResolverView, deps: Seq<DependencyView>) -> Seq<DependencyView>
    decreases deps.len(),
{
    if deps.len() == 0 {
        Seq::empty()
    } else {
        let before = taken(r, deps.drop_last());
        if outcome_of(r, deps.last()) is Edge {
            before.push(deps.last())
        } else {
            before
        }
    }
}

/// The edge of a dependency that is taken: its name and the package it
/// resolves to.
pub open spec fn edge_of(r: ResolverView, d: DependencyView) -> (Seq<char>, PackageIdView) {
    (d.req.name, outcome_of(r, d)->Edge_0)
}

/// The edges of the dependencies that are taken.
pub open spec fn edges_of(r: ResolverView, deps: Seq<DependencyView>) -> Seq<
    (Seq<char>, PackageIdView),
> {
    let t = taken(r, deps);
    Seq::new(t.len(), |j: int| edge_of(r, t[j]))
}

/// The work that the dependencies that are taken leave: the package that
/// each resolved to is to be entered.
pub open spec fn work_of(r: ResolverView, deps: Seq<DependencyView>) -> Seq<PendingView> {
    let t = taken(r, deps);
    Seq::new(t.len(), |j: int| PendingView::Package(outcome_of(r, t[j])->Edge_0))
}

/// What a step comes to.
pub enum Step {
    /// A piece of work was done.
    Advanced,
    /// No work is left: the snapshot is complete.
    Done,
    /// Nothing is known of the package: hand over what the cache or the
    /// registry holds with `provide`, or report with `mark_missing` or
    /// `mark_offline` that nothing can be had.
    NeedInfo(String),
    /// What is known of the package does not hold what is wanted, and did not
    /// come from the registry in this run: hand over what the registry
    /// holds now with `provide`, or report with `mark_missing` or
    /// `mark_offline` that no more can be had.
    NeedFresh(String),
    /// The work cannot be done.
    Failed(ResolveError),
}

pub enum StepView {
    Advanced,
    Done,
    NeedInfo(Seq<char>),
    NeedFresh(Seq<char>),
    Failed(ResolveErrorView),
}

impl View for Step {
    type V = StepView;

    open spec fn view(&self) -> StepView {
        match self {
            Step::Advanced => StepView::Advanced,
            Step::Done => StepView::Done,
            Step::NeedInfo(name) => StepView::NeedInfo(name@),
            Step::NeedFresh(name) => StepView::NeedFresh(name@),
            Step::Failed(e) => StepView::Failed(e@),
        }
    }
}

/// What a step comes to where something blocks: a question for the package,
/// or a failure that names the package and what was wanted of it.
pub open spec fn blocked_step(o: Outcome, name: Seq<char>, wanted: Seq<char>) -> StepView {
    match o {
        Outcome::NeedInfo => StepView::NeedInfo(name),
        Outcome::NeedFresh => StepView::NeedFresh(name),
        Outcome::NotFound => StepView::Failed(ResolveErrorView::PackageNotFound { name }),
        _ => StepView::Failed(ResolveErrorView::VersionNotFound { name, req: wanted }),
    }
}

/// Whether the snapshot records the request.
pub open spec fn has_specifier(s: SnapshotView, q: PackageReqView) -> bool {
    exists|i: int| 0 <= i < s.specifiers.len() && (#[trigger] s.specifiers[i]).0 == q
}

/// The snapshot with the request recorded, where there is one to record.
pub open spec fn with_specifier(
    s: SnapshotView,
    recorded: Option<PackageReqView>,
    id: PackageIdView,
) -> SnapshotView {
    match recorded {
        Some(q) => SnapshotView { specifiers: s.specifiers.push((q, id)), packages: s.packages },
        None => s,
    }
}

/// The version that is wanted of the package, where it is known.
pub open spec fn version_for(r: ResolverView, name: Seq<char>, w: Wanted) -> VersionInfoView {
    let info = r.infos[info_at(r.infos, name).unwrap()];
    info.versions[chosen(info, w).unwrap()]
}

/// What comes of the last piece of work once its package and version are
/// found. Where the snapshot has the package, the work is done. Else the
/// package is entered, with each dependency resolved to the best match for
/// its requirement, and the package of each dependency taken becomes work to
/// do. Where a dependency blocks, nothing changes.
pub open spec fn entered(
    r: ResolverView,
    id: PackageIdView,
    version: VersionInfoView,
    recorded: Option<PackageReqView>,
) -> (ResolverView, StepView) {
    if has_package(r.snapshot, id) {
        (
            ResolverView {
                snapshot: with_specifier(r.snapshot, recorded, id),
                pending: r.pending.drop_last(),
                ..r
            },
            StepView::Advanced,
        )
    } else {
        match first_blocker(r, version.dependencies) {
            Some(b) => (
                r,
                blocked_step(
                    outcome_of(r, version.dependencies[b]),
                    version.dependencies[b].req.name,
                    version.dependencies[b].req.req,
                ),
            ),
            None => {
                let package = SnapshotPackageView {
                    id,
                    integrity: version.integrity,
                    dependencies: edges_of(r, version.dependencies),
                };
                let with_package = SnapshotView {
                    specifiers: r.snapshot.specifiers,
                    packages: r.snapshot.packages.push(package),
                };
                (
                    ResolverView {
                        snapshot: with_specifier(with_package, recorded, id),
                        pending: r.pending.drop_last() + work_of(r, version.dependencies),
                        ..r
                    },
                    StepView::Advanced,
                )
            },
        }
    }
}

/// One step: the last piece of work is taken up. A request that the
/// snapshot records is done: what it resolved to stands. Any other request
/// resolves to the best match among the versions known of its package, and
/// is recorded. A package that a dependency resolved to is entered at
/// exactly its version. Where something blocks, nothing changes.
pub open spec fn step_of(r: ResolverView) -> (ResolverView, StepView) {
    if r.pending.len() == 0 {
        (r, StepView::Done)
    } else {
        match r.pending.last() {
            PendingView::Request(q) => if has_specifier(r.snapshot, q) {
                (ResolverView { pending: r.pending.drop_last(), ..r }, StepView::Advanced)
            } else {
                let w = Wanted::Best(q.req);
                match outcome_for(r, q.name, w, false) {
                    Outcome::Edge(id) => entered(r, id, version_for(r, q.name, w), Some(q)),
                    own => (r, blocked_step(own, q.name, q.req)),
                }
            },
            PendingView::Package(id) => if has_package(r.snapshot, id) {
                (ResolverView { pending: r.pending.drop_last(), ..r }, StepView::Advanced)
            } else {
                let w = Wanted::Exactly(id.version);
                match outcome_for(r, id.name, w, false) {
                    Outcome::Edge(_) => entered(r, id, version_for(r, id.name, w), None),
                    own => (r, blocked_step(own, id.name, version_text(id.version))),
                }
            },
        }
    }
}

/// What is known after information of a package was handed over. What came
/// from the registry takes the place of what was known of the package, and
/// the package counts as fresh. What came from the cache is taken only
/// where nothing was known, and not at all after a start over.
pub open spec fn provided(r: ResolverView, info: PackageInfoView, fresh: bool) -> ResolverView {
    if r.fresh_only && !fresh {
        r
    } else {
        provided_to(r, info, fresh)
    }
}

/// What is known after information of a package was taken.
pub open spec fn provided_to(r: ResolverView, info: PackageInfoView, fresh: bool) -> ResolverView {
    match info_at(r.infos, info.name) {
        None => ResolverView {
            infos: r.infos.push(info),
            fresh: if fresh {
                r.fresh.push(info.name)
            } else {
                r.fresh
            },
            ..r
        },
        Some(k) => if fresh {
            ResolverView { infos: r.infos.update(k, info), fresh: r.fresh.push(info.name), ..r }
        } else {
            r
        },
    }
}

/// The resolution started over: the snapshot is the one it began with, the
/// requests of the user are all to do again, nothing is known, and only
/// what the registry holds now counts. This is what is done where the cache
/// turned out stale and the network may be used.
pub open spec fn started_over(r: ResolverView) -> ResolverView {
    ResolverView {
        snapshot: r.origin,
        pending: Seq::new(r.asked.len(), |k: int| PendingView::Request(r.asked[k])),
        infos: Seq::empty(),
        fresh: Seq::empty(),
        fresh_only: true,
        ..r
    }
}

/// Whether the package is work that is still to do.
pub open spec fn awaited(r: ResolverView, id: PackageIdView) -> bool {
    exists|k: int| 0 <= k < r.pending.len() && #[trigger] r.pending[k] == PendingView::Package(id)
}

/// Whether the package has an entry or is still to get one.
pub open spec fn backed(r: ResolverView, id: PackageIdView) -> bool {
    has_package(r.snapshot, id) || awaited(r, id)
}

/// Every dependency of the package leads to a package that has an entry or
/// is still to get one.
pub open spec fn dependencies_backed(r: ResolverView, p: SnapshotPackageView) -> bool {
    forall|j: int| 0 <= j < p.dependencies.len() ==> backed(r, (#[trigger] p.dependencies[j]).1)
}

/// Every edge of the snapshot leads to a package that has an entry or is
/// still to get one.
pub open spec fn closed(r: ResolverView) -> bool {
    &&& forall|i: int|
        0 <= i < r.snapshot.specifiers.len() ==> backed(r, (#[trigger] r.snapshot.specifiers[i]).1)
    &&& forall|i: int|
        0 <= i < r.snapshot.packages.len() ==> dependencies_backed(
            r,
            #[trigger] r.snapshot.packages[i],
        )
}

/// Every package that is still to be entered has a proper name.
pub open spec fn work_named(r: ResolverView) -> bool {
    forall|k: int|
        0 <= k < r.pending.len() ==> ((#[trigger] r.pending[k]) matches PendingView::Package(id)
            ==> is_package_name(id.name))
}

/// What holds of a resolver between steps.
pub open spec fn resolver_inv(r: ResolverView) -> bool {
    &&& well_named(r.snapshot)
    &&& consistent(r.snapshot)
    &&& closed(r)
    &&& work_named(r)
    &&& is_snapshot(r.origin)
}

/// A resolution that started over is as sound as one that begins.
pub proof fn lemma_start_over(r: ResolverView)
    requires
        resolver_inv(r),
    ensures
        resolver_inv(started_over(r)),
        started_over(r).pending.len() == r.asked.len(),
{
    let n = started_over(r);
    assert forall|i: int| 0 <= i < n.snapshot.packages.len() implies dependencies_backed(
        n,
        #[trigger] n.snapshot.packages[i],
    ) by {
        assert(dependencies_present(n.snapshot, n.snapshot.packages[i]));
    }
}

/// What is taken is a package of the name asked for, properly named. Where
/// the best match for a requirement was wanted, the package answers the
/// request; where a version was wanted, it is at that version.
pub proof fn lemma_edge(r: ResolverView, name: Seq<char>, w: Wanted, optional: bool)
    requires
        outcome_for(r, name, w, optional) is Edge,
    ensures
        is_package_name(name),
        outcome_for(r, name, w, optional)->Edge_0.name == name,
        outcome_for(r, name, w, optional)->Edge_0.version == version_for(r, name, w).version,
        w matches Wanted::Best(req) ==> is_package_req(PackageReqView { name, req })
            && answers_request(
            PackageReqView { name, req },
            outcome_for(r, name, w, optional)->Edge_0,
        ),
        w matches Wanted::Exactly(v) ==> outcome_for(r, name, w, optional)->Edge_0.version == v,
        optional ==> allows(version_for(r, name, w).constraints, r.platform),
{
    let k = info_at(r.infos, name).unwrap();
    let i = chosen(r.infos[k], w).unwrap();
    match w {
        Wanted::Best(req) => {
            assert(is_best_match(r.infos[k], req, i));
            assert(answers(r.infos[k], req, r.infos[k].versions[i].version));
        },
        Wanted::Exactly(v) => {
            assert(is_listed_at(r.infos[k], v, i));
        },
    }
}

/// Every dependency that is taken resolves.
pub proof fn lemma_taken(r: ResolverView, deps: Seq<DependencyView>)
    ensures
        forall|j: int|
            0 <= j < taken(r, deps).len() ==> outcome_of(r, #[trigger] taken(r, deps)[j]) is Edge,
        taken(r, deps).len() <= deps.len(),
    decreases deps.len(),
{
    if deps.len() > 0 {
        lemma_taken(r, deps.drop_last());
    }
}

/// A resolver with no work left holds a snapshot.
pub proof fn lemma_done(r: ResolverView)
    requires
        resolver_inv(r),
        r.pending.len() == 0,
    ensures
        is_snapshot(r.snapshot),
{
    let s = r.snapshot;
    assert forall|i: int| 0 <= i < s.specifiers.len() implies has_package(
        s,
        (#[trigger] s.specifiers[i]).1,
    ) by {
        assert(backed(r, s.specifiers[i].1));
    }
    assert forall|i: int| 0 <= i < s.packages.len() implies dependencies_present(
        s,
        #[trigger] s.packages[i],
    ) by {
        assert(dependencies_backed(r, s.packages[i]));
        assert forall|j: int| 0 <= j < s.packages[i].dependencies.len() implies has_package(
            s,
            (#[trigger] s.packages[i].dependencies[j]).1,
        ) by {
            assert(backed(r, s.packages[i].dependencies[j].1));
        }
    }
}

/// What is known, and what can be learnt, changes nothing in what is
/// resolved: whatever is handed over or reported, what holds of the resolver
/// holds on.
pub proof fn lemma_knowledge(r: ResolverView, n: ResolverView)
    requires
        resolver_inv(r),
        n.snapshot == r.snapshot,
        n.pending == r.pending,
        n.origin == r.origin,
    ensures
        resolver_inv(n),
{
    assert forall|id: PackageIdView| backed(r, id) implies backed(n, id) by {
        if !has_package(r.snapshot, id) {
            let k = choose|k: int|
                0 <= k < r.pending.len() && #[trigger] r.pending[k] == PendingView::Package(id);
            assert(n.pending[k] == PendingView::Package(id));
        }
    }
    lemma_backed_closed(r, n);
}

/// Where every package that was backed still is, and the snapshot is the
/// same, every edge still leads to a backed package.
proof fn lemma_backed_closed(r: ResolverView, n: ResolverView)
    requires
        closed(r),
        n.snapshot == r.snapshot,
        forall|id: PackageIdView| backed(r, id) ==> backed(n, id),
    ensures
        closed(n),
{
    assert forall|i: int| 0 <= i < n.snapshot.packages.len() implies dependencies_backed(
        n,
        #[trigger] n.snapshot.packages[i],
    ) by {
        assert(dependencies_backed(r, r.snapshot.packages[i]));
    }
}

/// One more request of the user changes nothing in what is resolved.
pub proof fn lemma_request(r: ResolverView, q: PackageReqView)
    requires
        resolver_inv(r),
    ensures
        resolver_inv(
            ResolverView {
                pending: r.pending.push(PendingView::Request(q)),
                asked: r.asked.push(q),
                ..r
            },
        ),
{
    let n = ResolverView {
        pending: r.pending.push(PendingView::Request(q)),
        asked: r.asked.push(q),
        ..r
    };
    assert forall|id: PackageIdView| backed(r, id) implies backed(n, id) by {
        if !has_package(r.snapshot, id) {
            let k = choose|k: int|
                0 <= k < r.pending.len() && #[trigger] r.pending[k] == PendingView::Package(id);
            assert(n.pending[k] == PendingView::Package(id));
        }
    }
    lemma_backed_closed(r, n);
    assert forall|k: int| 0 <= k < n.pending.len() implies ((#[trigger] n.pending[k]) matches PendingView::Package(
        id,
    ) ==> is_package_name(id.name)) by {
        if k < r.pending.len() {
            assert(n.pending[k] == r.pending[k]);
        }
    }
}

/// A step keeps what holds of a resolver: the snapshot stays well named and
/// consistent, and every edge leads to a package that has an entry or is
/// still to get one. A step that does not advance changes nothing, and a
/// step changes nothing in what is known.
pub proof fn lemma_step(r: ResolverView)
    requires
        resolver_inv(r),
    ensures
        resolver_inv(step_of(r).0),
        step_of(r).0.infos == r.infos,
        step_of(r).0.fresh == r.fresh,
        step_of(r).0.missing == r.missing,
        step_of(r).0.offline == r.offline,
        step_of(r).0.platform == r.platform,
        step_of(r).0.origin == r.origin,
        step_of(r).0.asked == r.asked,
        step_of(r).0.fresh_only == r.fresh_only,
        !(step_of(r).1 is Advanced) ==> step_of(r).0 == r,
        step_of(r).1 is Done <==> r.pending.len() == 0,
{
    let n = step_of(r).0;
    if r.pending.len() > 0 && step_of(r).1 is Advanced {
        let last = r.pending.len() - 1;
        let work = r.pending[last];
        let done_already = match work {
            PendingView::Request(q) => has_specifier(r.snapshot, q),
            PendingView::Package(id) => has_package(r.snapshot, id),
        };
        if done_already {
            assert(n.snapshot == r.snapshot);
            assert forall|x: PackageIdView| backed(r, x) implies backed(n, x) by {
                if !has_package(r.snapshot, x) {
                    let k = choose|k: int|
                        0 <= k < r.pending.len() && #[trigger] r.pending[k] == PendingView::Package(
                            x,
                        );
                    if k < last {
                        assert(n.pending[k] == PendingView::Package(x));
                    }
                }
            }
            lemma_backed_closed(r, n);
            assert forall|k: int| 0 <= k < n.pending.len() implies ((#[trigger] n.pending[k]) matches PendingView::Package(
                id,
            ) ==> is_package_name(id.name)) by {
                assert(n.pending[k] == r.pending[k]);
            }
        } else {
            let (name, w, recorded) = match work {
                PendingView::Request(q) => (q.name, Wanted::Best(q.req), Some(q)),
                PendingView::Package(id) => (id.name, Wanted::Exactly(id.version), None),
            };
            lemma_edge(r, name, w, false);
            let id = outcome_for(r, name, w, false)->Edge_0;
            if work is Package {
                assert(id == work->Package_0);
            }
            let deps = version_for(r, name, w).dependencies;
            let t = taken(r, deps);
            lemma_taken(r, deps);
            let entering = !has_package(r.snapshot, id);
            assert(has_package(n.snapshot, id)) by {
                if entering {
                    assert(n.snapshot.packages[r.snapshot.packages.len() as int].id == id);
                } else {
                    let i = choose|i: int|
                        0 <= i < r.snapshot.packages.len() && (#[trigger] r.snapshot.packages[i]).id
                            == id;
                    assert(n.snapshot.packages[i].id == id);
                }
            }
            assert forall|x: PackageIdView| backed(r, x) implies backed(n, x) by {
                if has_package(r.snapshot, x) {
                    let i = choose|i: int|
                        0 <= i < r.snapshot.packages.len() && (#[trigger] r.snapshot.packages[i]).id
                            == x;
                    assert(n.snapshot.packages[i].id == x);
                } else {
                    let k = choose|k: int|
                        0 <= k < r.pending.len() && #[trigger] r.pending[k] == PendingView::Package(
                            x,
                        );
                    if k < last {
                        assert(n.pending[k] == PendingView::Package(x));
                    } else {
                        assert(x == id);
                    }
                }
            }
            assert forall|i: int| 0 <= i < n.snapshot.packages.len() implies dependencies_backed(
                n,
                #[trigger] n.snapshot.packages[i],
            ) && package_well_named(n.snapshot.packages[i]) by {
                let p = n.snapshot.packages[i];
                if i < r.snapshot.packages.len() {
                    assert(p == r.snapshot.packages[i]);
                    assert(dependencies_backed(r, p));
                    assert(package_well_named(p));
                } else {
                    assert(entering);
                    assert forall|j: int| 0 <= j < p.dependencies.len() implies backed(
                        n,
                        (#[trigger] p.dependencies[j]).1,
                    ) && is_package_name(p.dependencies[j].1.name) by {
                        lemma_edge(r, t[j].req.name, Wanted::Best(t[j].req.req), t[j].optional);
                        let k = last + j;
                        assert(n.pending[k] == PendingView::Package(p.dependencies[j].1));
                    }
                }
            }
            assert forall|i: int| 0 <= i < n.snapshot.specifiers.len() implies backed(
                n,
                (#[trigger] n.snapshot.specifiers[i]).1,
            ) && is_package_req(n.snapshot.specifiers[i].0) && is_package_name(
                n.snapshot.specifiers[i].1.name,
            ) && answers_request(n.snapshot.specifiers[i].0, n.snapshot.specifiers[i].1) by {
                if i < r.snapshot.specifiers.len() {
                    assert(n.snapshot.specifiers[i] == r.snapshot.specifiers[i]);
                    assert(backed(r, r.snapshot.specifiers[i].1));
                } else {
                    assert(n.snapshot.specifiers[i] == (recorded.unwrap(), id));
                }
            }
            assert forall|k: int| 0 <= k < n.pending.len() implies ((#[trigger] n.pending[k]) matches PendingView::Package(
                x,
            ) ==> is_package_name(x.name)) by {
                if k < last {
                    assert(n.pending[k] == r.pending[k]);
                } else {
                    assert(entering);
                    let j = k - last;
                    lemma_edge(r, t[j].req.name, Wanted::Best(t[j].req.req), t[j].optional);
                }
            }
        }
    }
}

/// A step gives no package a second entry: a package is entered only where
/// the snapshot does not have it.
pub proof fn lemma_step_keeps_unique(r: ResolverView)
    requires
        unique_packages(r.snapshot),
    ensures
        unique_packages(step_of(r).0.snapshot),
{
    let n = step_of(r).0.snapshot;
    if n.packages.len() > r.snapshot.packages.len() {
        let last = r.snapshot.packages.len() as int;
        assert(n.packages =~= r.snapshot.packages.push(n.packages[last]));
        let id = n.packages[last].id;
        assert(!has_package(r.snapshot, id));
        assert forall|i: int, j: int| 0 <= i < j < n.packages.len() implies (
        #[trigger] n.packages[i]).id != (#[trigger] n.packages[j]).id by {
            assert(n.packages[i] == r.snapshot.packages[i]);
            if j < last {
                assert(n.packages[j] == r.snapshot.packages[j]);
            }
        }
    } else {
        assert(n.packages =~= r.snapshot.packages);
    }
}

/// An optional dependency is taken only where the version it resolves to is
/// for the machine: of the variants of a package for different machines,
/// none that is for another machine becomes an edge or work to do.
pub proof fn lemma_optional_suits_machine(r: ResolverView, d: DependencyView)
    requires
        d.optional,
        outcome_of(r, d) is Edge,
    ensures
        allows(version_for(r, d.req.name, Wanted::Best(d.req.req)).constraints, r.platform),
{
}

/// The dependencies that are taken are exactly those that resolve.
pub proof fn lemma_taken_are_those_that_resolve(r: ResolverView, deps: Seq<DependencyView>, k: int)
    requires
        0 <= k < deps.len(),
    ensures
        outcome_of(r, deps[k]) is Edge <==> taken(r, deps).contains(deps[k]),
    decreases deps.len(),
{
    lemma_taken(r, deps);
    if taken(r, deps).contains(deps[k]) {
        let j = choose|j: int| 0 <= j < taken(r, deps).len() && taken(r, deps)[j] == deps[k];
        assert(outcome_of(r, taken(r, deps)[j]) is Edge);
    }
    let shorter = deps.drop_last();
    if k < deps.len() - 1 {
        lemma_taken_are_those_that_resolve(r, shorter, k);
        assert(shorter[k] == deps[k]);
        if outcome_of(r, deps[k]) is Edge {
            let j = choose|j: int| 0 <= j < taken(r, shorter).len() && taken(r, shorter)[j] == deps[k];
            assert(taken(r, deps)[j] == deps[k]);
        }
    } else {
        if outcome_of(r, deps[k]) is Edge {
            assert(taken(r, deps)[taken(r, shorter).len() as int] == deps[k]);
        }
    }
}

/// A question that a step asks is one that an answer can settle: a step
/// asks for a package only while nothing is known of it, and asks for fresh
/// information only while more can be learnt of the package. Before a start
/// over it asks for fresh information only of a package of which something
/// is known; after it, it asks for nothing else.
pub proof fn lemma_questions(r: ResolverView, name: Seq<char>)
    ensures
        step_of(r).1 == StepView::NeedInfo(name) ==> info_at(r.infos, name) is None
            && !r.fresh_only && !r.missing.contains(name) && !r.offline.contains(name),
        step_of(r).1 == StepView::NeedFresh(name) ==> !r.missing.contains(name)
            && !r.offline.contains(name) && (if info_at(r.infos, name) is Some {
            !r.fresh.contains(name)
        } else {
            r.fresh_only
        }),
{
    if r.pending.len() > 0 {
        let work = r.pending.last();
        let done_already = match work {
            PendingView::Request(q) => has_specifier(r.snapshot, q),
            PendingView::Package(id) => has_package(r.snapshot, id),
        };
        if !done_already {
            let (own_name, w) = match work {
                PendingView::Request(q) => (q.name, Wanted::Best(q.req)),
                PendingView::Package(id) => (id.name, Wanted::Exactly(id.version)),
            };
            let own = outcome_for(r, own_name, w, false);
            if own is Edge {
                lemma_edge(r, own_name, w, false);
                let id = match work {
                    PendingView::Request(_) => own->Edge_0,
                    PendingView::Package(id) => id,
                };
                if !has_package(r.snapshot, id) {
                    let deps = version_for(r, own_name, w).dependencies;
                    if first_blocker(r, deps) is Some {
                        let b = first_blocker(r, deps).unwrap();
                        assert(is_first_blocker(r, deps, b));
                    }
                }
            }
        }
    }
}

/// Fresh information repairs what a stale cache lacks: once what the
/// registry holds of a package was handed over, the package counts as
/// fresh, what is known of it is what was handed over, and no step asks for
/// it again.
pub proof fn lemma_fresh_settles(r: ResolverView, info: PackageInfoView)
    ensures
        settled(provided(r, info, true), info.name),
        info_at(provided(r, info, true).infos, info.name) is Some,
        provided(r, info, true).infos[info_at(
            provided(r, info, true).infos,
            info.name,
        ).unwrap()] == info,
        step_of(provided(r, info, true)).1 != StepView::NeedInfo(info.name),
        step_of(provided(r, info, true)).1 != StepView::NeedFresh(info.name),
{
    let n = provided(r, info, true);
    assert(n == provided_to(r, info, true));
    assert(n.fresh[r.fresh.len() as int] == info.name);
    match info_at(r.infos, info.name) {
        None => {
            let k = r.infos.len() as int;
            assert forall|j: int| 0 <= j < k implies (#[trigger] n.infos[j]).name != info.name by {
                assert(n.infos[j] == r.infos[j]);
                if r.infos[j].name == info.name {
                    lemma_known(r.infos, info.name, j);
                }
            }
            assert(is_info_at(n.infos, info.name, k));
            lemma_info_at(n.infos, info.name, k);
        },
        Some(k) => {
            assert(is_info_at(r.infos, info.name, k));
            assert forall|j: int| 0 <= j < k implies (#[trigger] n.infos[j]).name != info.name by {
                assert(n.infos[j] == r.infos[j]);
            }
            assert(is_info_at(n.infos, info.name, k));
            lemma_info_at(n.infos, info.name, k);
        },
    }
    lemma_questions(n, info.name);
}

/// Where an entry has the name, something is known of the package.
proof fn lemma_known(infos: Seq<PackageInfoView>, name: Seq<char>, j: int)
    requires
        0 <= j < infos.len(),
        infos[j].name == name,
    ensures
        info_at(infos, name) is Some,
    decreases j,
{
    if exists|k: int| 0 <= k < j && (#[trigger] infos[k]).name == name {
        let k = choose|k: int| 0 <= k < j && (#[trigger] infos[k]).name == name;
        lemma_known(infos, name, k);
    } else {
        assert(is_info_at(infos, name, j));
    }
}

/// The state after `n` steps.
pub open spec fn after_steps(r: ResolverView, n: nat) -> ResolverView
    decreases n,
{
    if n == 0 {
        r
    } else {
        after_steps(step_of(r).0, (n - 1) as nat)
    }
}

/// All work that is left is requests that the snapshot records.
pub open spec fn all_recorded(r: ResolverView) -> bool {
    forall|k: int|
        0 <= k < r.pending.len() ==> ((#[trigger] r.pending[k]) matches PendingView::Request(q)
            && has_specifier(r.snapshot, q))
}

/// Requests that the snapshot records resolve from the snapshot alone: one
/// step for each takes them all up, asks for nothing, fails on nothing, and
/// leaves the snapshot as it was. So a snapshot that was read back from its
/// lockfile answers the requests it was made for with the same snapshot.
pub proof fn lemma_recorded_requests_change_nothing(r: ResolverView)
    requires
        all_recorded(r),
    ensures
        after_steps(r, r.pending.len()).snapshot == r.snapshot,
        after_steps(r, r.pending.len()).pending.len() == 0,
        r.pending.len() > 0 ==> step_of(r).1 is Advanced,
    decreases r.pending.len(),
{
    if r.pending.len() > 0 {
        let n = step_of(r).0;
        assert(r.pending[r.pending.len() - 1] is Request);
        assert(n.pending == r.pending.drop_last());
        assert forall|k: int| 0 <= k < n.pending.len() implies ((#[trigger] n.pending[k]) matches PendingView::Request(
            q,
        ) && has_specifier(n.snapshot, q)) by {
            assert(n.pending[k] == r.pending[k]);
        }
        lemma_recorded_requests_change_nothing(n);
    }
}

/// A resolution in progress.
pub struct Resolver {
    snapshot: Snapshot,
    pending: Vec<Pending>,
    infos: Vec<PackageInfo>,
    fresh: Vec<String>,
    missing: Vec<String>,
    offline: Vec<String>,
    platform: Platform,
    origin: Snapshot,
    asked: Vec<PackageReq>,
    fresh_only: bool,
}

impl View for Resolver {
    type V = ResolverView;

    closed spec fn view(&self) -> ResolverView {
        ResolverView {
            snapshot: self.snapshot@,
            pending: self.pending.deep_view(),
            infos: self.infos.deep_view(),
            fresh: self.fresh.deep_view(),
            missing: self.missing.deep_view(),
            offline: self.offline.deep_view(),
            platform: self.platform@,
            origin: self.origin@,
            asked: self.asked.deep_view(),
            fresh_only: self.fresh_only,
        }
    }
}

/// What becomes of a wish, with the places of the package and version that
/// are taken.
enum Found {
    Edge(usize, usize),
    Skip,
    NeedInfo,
    NeedFresh,
    NotFound,
    NoVersion,
}

/// How the version of a package is picked.
enum Want<'a> {
    Best(&'a VersionReq),
    Exactly(Version),
}

impl<'a> Want<'a> {
    spec fn wanted(self) -> Wanted {
        match self {
            Want::Best(req) => Wanted::Best(req@),
            Want::Exactly(v) => Wanted::Exactly(v),
        }
    }
}

/// There is at most one first blocker.
proof fn lemma_first_blocker(r: ResolverView, deps: Seq<DependencyView>, k: int)
    requires
        is_first_blocker(r, deps, k),
    ensures
        first_blocker(r, deps) == Some(k),
{
    let m = choose|m: int| is_first_blocker(r, deps, m);
    if m < k {
        assert(!blocks(outcome_of(r, deps[m])));
    }
    if k < m {
        assert(!blocks(outcome_of(r, deps[k])));
    }
}

/// Where no dependency blocks, there is no first blocker.
proof fn lemma_no_blocker(r: ResolverView, deps: Seq<DependencyView>)
    requires
        forall|j: int| 0 <= j < deps.len() ==> !blocks(outcome_of(r, #[trigger] deps[j])),
    ensures
        first_blocker(r, deps) is None,
{
    if exists|k: int| is_first_blocker(r, deps, k) {
        let k = choose|k: int| is_first_blocker(r, deps, k);
        assert(!blocks(outcome_of(r, deps[k])));
    }
}

impl Resolver {
    /// A resolution that begins with the snapshot, for the machine.
    pub fn new(snapshot: Snapshot, platform: Platform) -> (r: Resolver)
        ensures
            r@ == (ResolverView {
                snapshot: snapshot@,
                pending: Seq::empty(),
                infos: Seq::empty(),
                fresh: Seq::empty(),
                missing: Seq::empty(),
                offline: Seq::empty(),
                platform: platform@,
                origin: snapshot@,
                asked: Seq::empty(),
                fresh_only: false,
            }),
            is_snapshot(snapshot@) ==> resolver_inv(r@),
    {
        let origin = snapshot.clone();
        let r = Resolver {
            snapshot,
            pending: Vec::new(),
            infos: Vec::new(),
            fresh: Vec::new(),
            missing: Vec::new(),
            offline: Vec::new(),
            platform,
            origin,
            asked: Vec::new(),
            fresh_only: false,
        };
        proof {
            assert(r@.pending =~= Seq::empty());
            assert(r@.infos =~= Seq::empty());
            assert(r@.fresh =~= Seq::empty());
            assert(r@.missing =~= Seq::empty());
            assert(r@.offline =~= Seq::empty());
            assert(r@.asked =~= Seq::empty());
            if is_snapshot(snapshot@) {
                assert forall|i: int| 0 <= i < r@.snapshot.packages.len() implies dependencies_backed(
                    r@,
                    #[trigger] r@.snapshot.packages[i],
                ) by {
                    assert(dependencies_present(r@.snapshot, r@.snapshot.packages[i]));
                }
            }
        }
        r
    }

    /// What is resolved so far.
    pub fn snapshot(&self) -> (s: &Snapshot)
        ensures
            s@ == self@.snapshot,
    {
        &self.snapshot
    }

    /// Ends the resolution and hands out what is resolved. After a step that
    /// came to `Done` it is a snapshot.
    pub fn into_snapshot(self) -> (s: Snapshot)
        ensures
            s@ == self@.snapshot,
            resolver_inv(self@) && self@.pending.len() == 0 ==> is_snapshot(s@),
    {
        proof {
            if resolver_inv(self@) && self@.pending.len() == 0 {
                lemma_done(self@);
            }
        }
        self.snapshot
    }

    /// Whether the resolution was started over.
    pub fn started_over(&self) -> (b: bool)
        ensures
            b == self@.fresh_only,
    {
        self.fresh_only
    }

    /// How many pieces of work are left.
    pub fn pending_len(&self) -> (n: usize)
        ensures
            n == self@.pending.len(),
    {
        self.pending.len()
    }

    /// Takes a request of the user, to be resolved before those taken
    /// earlier.
    pub fn request(&mut self, req: PackageReq)
        ensures
            final(self)@ == (ResolverView {
                pending: old(self)@.pending.push(PendingView::Request(req@)),
                asked: old(self)@.asked.push(req@),
                ..old(self)@
            }),
            resolver_inv(old(self)@) ==> resolver_inv(final(self)@),
    {
        proof {
            if resolver_inv(self@) {
                lemma_request(self@, req@);
            }
        }
        self.asked.push(req.clone());
        self.pending.push(Pending::Request(req));
        assert(self@.pending =~= old(self)@.pending.push(PendingView::Request(req@)));
        assert(self@.asked =~= old(self)@.asked.push(req@));
    }

    /// Starts the resolution over, so that only what the registry holds
    /// now counts: what was resolved in this run and what was known is
    /// dropped, and the requests of the user are all to do again. This is
    /// the answer to `NeedFresh` where the network may be used.
    pub fn start_over(&mut self)
        ensures
            final(self)@ == started_over(old(self)@),
            resolver_inv(old(self)@) ==> resolver_inv(final(self)@),
    {
        proof {
            if resolver_inv(self@) {
                lemma_start_over(self@);
            }
        }
        let mut pending: Vec<Pending> = Vec::new();
        let mut k: usize = 0;
        while k < self.asked.len()
            invariant
                k <= self.asked@.len(),
                pending@.len() == k,
                forall|m: int|
                    0 <= m < k ==> (#[trigger] pending@[m])@ == PendingView::Request(
                        self.asked@[m]@,
                    ),
            decreases self.asked.len() - k,
        {
            pending.push(Pending::Request(self.asked[k].clone()));
            k += 1;
        }
        assert(pending.deep_view() =~= started_over(self@).pending);
        self.snapshot = self.origin.clone();
        self.pending = pending;
        self.infos = Vec::new();
        self.fresh = Vec::new();
        self.fresh_only = true;
        assert(self@.infos =~= Seq::empty());
        assert(self@.fresh =~= Seq::empty());
    }

    /// Takes what is known of a package. `fresh` says that it came from the
    /// registry in this run: it then takes the place of what was known of
    /// the package. What came from the cache is taken only where nothing
    /// was known.
    pub fn provide(&mut self, info: PackageInfo, fresh: bool)
        ensures
            final(self)@ == provided(old(self)@, info@, fresh),
            resolver_inv(old(self)@) ==> resolver_inv(final(self)@),
    {
        proof {
            if resolver_inv(self@) {
                lemma_knowledge(self@, provided(self@, info@, fresh));
            }
        }
        if self.fresh_only && !fresh {
            return ;
        }
        let ghost before = self.infos.deep_view();
        let ghost fresh_before = self.fresh.deep_view();
        match find_info(&self.infos, &info.name) {
            None => {
                if fresh {
                    self.fresh.push(info.name.clone());
                    assert(self.fresh.deep_view() =~= fresh_before.push(info@.name));
                }
                self.infos.push(info);
                assert(self.infos.deep_view() =~= before.push(info@));
            },
            Some(k) => {
                if fresh {
                    self.fresh.push(info.name.clone());
                    assert(self.fresh.deep_view() =~= fresh_before.push(info@.name));
                    self.infos[k] = info;
                    assert(self.infos.deep_view() =~= before.update(k as int, info@));
                }
            },
        }
    }

    /// Takes note that the registry does not know a package.
    pub fn mark_missing(&mut self, name: String)
        ensures
            final(self)@ == (ResolverView {
                missing: old(self)@.missing.push(name@),
                ..old(self)@
            }),
            resolver_inv(old(self)@) ==> resolver_inv(final(self)@),
    {
        self.missing.push(name);
        proof {
            assert(self@.missing =~= old(self)@.missing.push(name@));
            if resolver_inv(old(self)@) {
                lemma_knowledge(old(self)@, self@);
            }
        }
    }

    /// Takes note that no more can be learnt of a package, as the network is
    /// not to be used: what the cache holds of it, if anything, is all there
    /// is.
    pub fn mark_offline(&mut self, name: String)
        ensures
            final(self)@ == (ResolverView {
                offline: old(self)@.offline.push(name@),
                ..old(self)@
            }),
            resolver_inv(old(self)@) ==> resolver_inv(final(self)@),
    {
        self.offline.push(name);
        proof {
            assert(self@.offline =~= old(self)@.offline.push(name@));
            if resolver_inv(old(self)@) {
                lemma_knowledge(old(self)@, self@);
            }
        }
    }

    fn found(&self, name: &String, want: &Want, optional: bool) -> (f: Found)
        ensures
            match f {
                Found::Edge(k, i) => {
                    &&& info_at(self@.infos, name@) == Some(k as int)
                    &&& chosen(self@.infos[k as int], want.wanted()) == Some(i as int)
                    &&& k < self.infos@.len()
                    &&& i < self.infos@[k as int].versions@.len()
                    &&& outcome_for(self@, name@, want.wanted(), optional) == Outcome::Edge(
                        PackageIdView {
                            name: name@,
                            version: self@.infos[k as int].versions[i as int].version,
                        },
                    )
                },
                Found::Skip => outcome_for(self@, name@, want.wanted(), optional) is Skip,
                Found::NeedInfo => outcome_for(self@, name@, want.wanted(), optional) is NeedInfo,
                Found::NeedFresh => outcome_for(self@, name@, want.wanted(), optional) is NeedFresh,
                Found::NotFound => outcome_for(self@, name@, want.wanted(), optional) is NotFound,
                Found::NoVersion => outcome_for(self@, name@, want.wanted(), optional) is NoVersion,
            },
    {
        if !is_name(name.as_str()) {
            return if optional {
                Found::Skip
            } else {
                Found::NotFound
            };
        }
        let missing = holds_text(&self.missing, name);
        let offline = holds_text(&self.offline, name);
        match find_info(&self.infos, name) {
            None => if missing {
                if optional {
                    Found::Skip
                } else {
                    Found::NotFound
                }
            } else if offline {
                if optional {
                    Found::Skip
                } else {
                    Found::NoVersion
                }
            } else if self.fresh_only {
                Found::NeedFresh
            } else {
                Found::NeedInfo
            },
            Some(k) => {
                assert(self@.infos[k as int] == self.infos@[k as int]@);
                let place = match want {
                    Want::Best(req) => self.infos[k].best_match(req),
                    Want::Exactly(v) => self.infos[k].position_of(v),
                };
                match place {
                    None => if missing || offline || holds_text(&self.fresh, name) {
                        if optional {
                            Found::Skip
                        } else {
                            Found::NoVersion
                        }
                    } else {
                        Found::NeedFresh
                    },
                    Some(i) => {
                        assert(self@.infos[k as int].versions[i as int]
                            == self.infos@[k as int].versions@[i as int]@);
                        if optional && !self.infos[k].versions[i].constraints.allow(
                            &self.platform,
                        ) {
                            Found::Skip
                        } else {
                            Found::Edge(k, i)
                        }
                    },
                }
            },
        }
    }

    fn blocked(f: &Found, name: &String, wanted: String) -> (step: Step)
        requires
            !(f is Edge) && !(f is Skip),
        ensures
            step@ == blocked_step(
                match f {
                    Found::NeedInfo => Outcome::NeedInfo,
                    Found::NeedFresh => Outcome::NeedFresh,
                    Found::NotFound => Outcome::NotFound,
                    _ => Outcome::NoVersion,
                },
                name@,
                wanted@,
            ),
    {
        match f {
            Found::NeedInfo => Step::NeedInfo(name.clone()),
            Found::NeedFresh => Step::NeedFresh(name.clone()),
            Found::NotFound => Step::Failed(ResolveError::PackageNotFound { name: name.clone() }),
            _ => Step::Failed(ResolveError::VersionNotFound { name: name.clone(), req: wanted }),
        }
    }

    /// Enters the package at the version listed at place `i` of what is
    /// known at place `k`, or finishes the work where the snapshot has it.
    #[verifier::loop_isolation(false)]
    fn enter(&mut self, k: usize, i: usize, id: PackageId, recorded: Option<PackageReq>) -> (step:
        Step)
        requires
            old(self)@.pending.len() > 0,
            k < old(self).infos@.len(),
            i < old(self).infos@[k as int].versions@.len(),
        ensures
            (final(self)@, step@) == entered(
                old(self)@,
                id@,
                old(self)@.infos[k as int].versions[i as int],
                recorded.deep_view(),
            ),
    {
        let ghost r = self@;
        let ghost version = r.infos[k as int].versions[i as int];
        assert(r.infos[k as int] == self.infos@[k as int]@);
        assert(version == self.infos@[k as int].versions@[i as int]@);
        if self.snapshot.contains(&id) {
            self.pending.pop();
            match recorded {
                Some(q) => {
                    let ghost before = self.snapshot.specifiers.deep_view();
                    self.snapshot.specifiers.push((q, id));
                    assert(self.snapshot.specifiers.deep_view() =~= before.push((q@, id@)));
                },
                None => {},
            }
            assert(self@.pending =~= r.pending.drop_last());
            return Step::Advanced;
        }
        let mut edges: Vec<(String, PackageId)> = Vec::new();
        let mut work: Vec<Pending> = Vec::new();
        let ghost deps = version.dependencies;
        let count = self.infos[k].versions[i].dependencies.len();
        assert(deps == self.infos@[k as int].versions@[i as int].dependencies.deep_view());
        let mut j: usize = 0;
        assert(deps.take(0) =~= Seq::empty());
        assert(edges.deep_view() =~= edges_of(r, deps.take(0)));
        assert(work.deep_view() =~= work_of(r, deps.take(0)));
        while j < count
            invariant
                j <= count == deps.len(),
                r == self@,
                k < self.infos@.len(),
                i < self.infos@[k as int].versions@.len(),
                deps == self.infos@[k as int].versions@[i as int].dependencies.deep_view(),
                forall|m: int| 0 <= m < j ==> !blocks(outcome_of(r, #[trigger] deps[m])),
                edges.deep_view() == edges_of(r, deps.take(j as int)),
                work.deep_view() == work_of(r, deps.take(j as int)),
            decreases count - j,
        {
            let dep = &self.infos[k].versions[i].dependencies[j];
            assert(deps[j as int] == dep@);
            let f = self.found(&dep.req.name, &Want::Best(&dep.req.req), dep.optional);
            proof {
                let now = deps.take(j + 1);
                assert(now.drop_last() =~= deps.take(j as int));
                assert(now.last() == deps[j as int]);
            }
            match f {
                Found::Edge(dk, di) => {
                    assert(r.infos[dk as int] == self.infos@[dk as int]@);
                    assert(r.infos[dk as int].versions[di as int]
                        == self.infos@[dk as int].versions@[di as int]@);
                    let version = self.infos[dk].versions[di].version;
                    let ghost edges_before = edges.deep_view();
                    let ghost work_before = work.deep_view();
                    edges.push(
                        (dep.req.name.clone(), PackageId { name: dep.req.name.clone(), version }),
                    );
                    let target = PackageId { name: dep.req.name.clone(), version };
                    work.push(Pending::Package(target));
                    proof {
                        let t = taken(r, deps.take(j as int));
                        assert(taken(r, deps.take(j + 1)) == t.push(deps[j as int]));
                        assert(edges.deep_view() =~= edges_before.push(edge_of(r, deps[j as int])));
                        assert(edges.deep_view() =~= edges_of(r, deps.take(j + 1)));
                        assert(work.deep_view() =~= work_before.push(
                            PendingView::Package(outcome_of(r, deps[j as int])->Edge_0),
                        ));
                        assert(work.deep_view() =~= work_of(r, deps.take(j + 1)));
                    }
                },
                Found::Skip => {
                    assert(taken(r, deps.take(j + 1)) == taken(r, deps.take(j as int)));
                },
                _ => {
                    proof {
                        lemma_first_blocker(r, deps, j as int);
                    }
                    return Self::blocked(&f, &dep.req.name, String::from_str(dep.req.req.text()));
                },
            }
            j += 1;
        }
        proof {
            assert(deps.take(j as int) =~= deps);
            lemma_no_blocker(r, deps);
        }
        let package = SnapshotPackage {
            id: PackageId { name: id.name.clone(), version: id.version },
            integrity: self.infos[k].versions[i].integrity.clone(),
            dependencies: edges,
        };
        self.pending.pop();
        let ghost popped = self.pending.deep_view();
        assert(popped =~= r.pending.drop_last());
        let ghost added = work.deep_view();
        self.pending.append(&mut work);
        assert(self.pending.deep_view() =~= popped + added);
        let ghost packages_before = self.snapshot.packages.deep_view();
        self.snapshot.packages.push(package);
        assert(self.snapshot.packages.deep_view() =~= packages_before.push(package@));
        match recorded {
            Some(q) => {
                let ghost before = self.snapshot.specifiers.deep_view();
                self.snapshot.specifiers.push((q, id));
                assert(self.snapshot.specifiers.deep_view() =~= before.push((q@, id@)));
            },
            None => {},
        }
        Step::Advanced
    }

    /// Takes up the last piece of work.
    pub fn step(&mut self) -> (step: Step)
        ensures
            (final(self)@, step@) == step_of(old(self)@),
            resolver_inv(old(self)@) ==> resolver_inv(final(self)@),
    {
        proof {
            if resolver_inv(self@) {
                lemma_step(self@);
            }
        }
        let ghost r = self@;
        let n = self.pending.len();
        if n == 0 {
            return Step::Done;
        }
        assert(r.pending.last() == self.pending@[n - 1]@);
        match &self.pending[n - 1] {
            Pending::Request(q) => {
                let req = q.clone();
                if self.snapshot.resolution(&req).is_some() {
                    self.pending.pop();
                    assert(self@.pending =~= r.pending.drop_last());
                    return Step::Advanced;
                }
                assert(!has_specifier(r.snapshot, req@));
                let own = self.found(&req.name, &Want::Best(&req.req), false);
                match own {
                    Found::Edge(k, i) => {
                        assert(r.infos[k as int] == self.infos@[k as int]@);
                        assert(r.infos[k as int].versions[i as int]
                            == self.infos@[k as int].versions@[i as int]@);
                        let id = PackageId {
                            name: req.name.clone(),
                            version: self.infos[k].versions[i].version,
                        };
                        self.enter(k, i, id, Some(req))
                    },
                    _ => Self::blocked(&own, &req.name, String::from_str(req.req.text())),
                }
            },
            Pending::Package(id) => {
                let id = id.clone();
                if self.snapshot.contains(&id) {
                    self.pending.pop();
                    assert(self@.pending =~= r.pending.drop_last());
                    return Step::Advanced;
                }
                let own = self.found(&id.name, &Want::Exactly(id.version), false);
                match own {
                    Found::Edge(k, i) => {
                        proof {
                            lemma_edge(r, id@.name, Wanted::Exactly(id@.version), false);
                        }
                        self.enter(k, i, id, None)
                    },
                    _ => Self::blocked(&own, &id.name, id.version.to_text()),
                }
            },
        }
    }
}

} // verus!

//! What the settings of a run allow: when the network may be used, what is
//! fetched anew, whether a project gets a `node_modules` directory, and
//! whether packages of the registry may be used at all.
use vstd::prelude::*;
use vstd::string::*;
use crate::error::{ResolveError, ResolveErrorView};
use crate::package::{
    id_text, is_package_name, is_package_req, PackageId, PackageIdView, PackageReq, PackageReqView,
};
use crate::flight::unavailable;
use crate::registry::{
    first_unlisted, is_first_unlisted, is_unlisted, PackageInfo, PackageInfoView,
};
use crate::snapshot::{
    answers_request, dependencies_present, has_package, is_snapshot, Snapshot, SnapshotPackageView,
    SnapshotView,
};
use crate::text::holds_text;
use crate::version::version_text;
use crate::specifier::{npm_reference_of, parse_npm, SpecifierKind};

verus! {

/// What is to be fetched anew.
pub enum Reload {
    /// Nothing.
    Nothing,
    /// Everything.
    Everything,
    /// The packages of these names.
    Packages(Vec<String>),
}

pub enum ReloadView {
    Nothing,
    Everything,
    Packages(Seq<Seq<char>>),
}

impl View for Reload {
    type V = ReloadView;

    open spec fn view(&self) -> ReloadView {
        match self {
            Reload::Nothing => ReloadView::Nothing,
            Reload::Everything => ReloadView::Everything,
            Reload::Packages(names) => ReloadView::Packages(names.deep_view()),
        }
    }
}

/// Whether the package of the name is fetched anew.
pub open spec fn reloads(reload: ReloadView, name: Seq<char>) -> bool {
    match reload {
        ReloadView::Nothing => false,
        ReloadView::Everything => true,
        ReloadView::Packages(names) => names.contains(name),
    }
}

/// Whether a value of the reload flag asks for all packages of the registry:
/// `npm:` alone.
pub open spec fn reloads_all_packages(value: Seq<char>) -> bool {
    value == "npm:"@
}

/// The names of the packages that the values of the reload flag name, in
/// their order: each value that is an `npm:` specifier names its package,
/// any other value none.
pub open spec fn reloaded_names(values: Seq<Seq<char>>) -> Seq<Seq<char>>
    decreases values.len(),
{
    if values.len() == 0 {
        Seq::empty()
    } else {
        let before = reloaded_names(values.drop_last());
        match npm_reference_of(values.last()) {
            Some(reference) => before.push(reference.req.name),
            None => before,
        }
    }
}

/// What the reload flag asks for: without the flag nothing, with the flag
/// and no value everything, with a value `npm:` every package, else the
/// packages that the values name.
pub open spec fn reload_of(values: Option<Seq<Seq<char>>>) -> ReloadView {
    match values {
        None => ReloadView::Nothing,
        Some(values) => if values.len() == 0 || exists|i: int|
            0 <= i < values.len() && reloads_all_packages(#[trigger] values[i]) {
            ReloadView::Everything
        } else {
            ReloadView::Packages(reloaded_names(values))
        },
    }
}

/// What the reload flag asks for.
#[verifier::loop_isolation(false)]
pub fn reload_setting(values: Option<&Vec<String>>) -> (reload: Reload)
    ensures
        reload@ == reload_of(
            match values {
                Some(v) => Some(v.deep_view()),
                None => None,
            },
        ),
{
    let values = match values {
        None => {
            return Reload::Nothing;
        },
        Some(values) => values,
    };
    if values.len() == 0 {
        return Reload::Everything;
    }
    let ghost v = values.deep_view();
    let all = String::from_str("npm:");
    let mut names: Vec<String> = Vec::new();
    let mut i: usize = 0;
    assert(v.take(0) =~= Seq::empty());
    assert(names.deep_view() =~= reloaded_names(v.take(0)));
    while i < values.len()
        invariant
            i <= values@.len(),
            v == values.deep_view(),
            all@ == "npm:"@,
            names.deep_view() == reloaded_names(v.take(i as int)),
            forall|k: int| 0 <= k < i ==> !reloads_all_packages(#[trigger] v[k]),
        decreases values.len() - i,
    {
        assert(v[i as int] == values@[i as int]@);
        if values[i] == all {
            assert(reloads_all_packages(v[i as int]));
            return Reload::Everything;
        }
        proof {
            let now = v.take(i + 1);
            assert(now.drop_last() =~= v.take(i as int));
            assert(now.last() == v[i as int]);
        }
        match parse_npm(values[i].as_str()) {
            Some(reference) => {
                let ghost before = names.deep_view();
                names.push(reference.req.name);
                assert(names.deep_view() =~= before.push(reference@.req.name));
            },
            None => {},
        }
        i += 1;
    }
    assert(v.take(i as int) =~= v);
    Reload::Packages(names)
}

impl Reload {
    /// Whether the package of the name is fetched anew.
    #[verifier::loop_isolation(false)]
    pub fn applies_to(&self, name: &str) -> (b: bool)
        ensures
            b == reloads(self@, name@),
    {
        match self {
            Reload::Nothing => false,
            Reload::Everything => true,
            Reload::Packages(names) => {
                let wanted = String::from_str(name);
                let mut i: usize = 0;
                while i < names.len()
                    invariant
                        i <= names@.len(),
                        wanted@ == name@,
                        forall|k: int| 0 <= k < i ==> (#[trigger] names.deep_view()[k]) != name@,
                    decreases names.len() - i,
                {
                    assert(names.deep_view()[i as int] == names@[i as int]@);
                    if names[i] == wanted {
                        assert(names.deep_view()[i as int] == name@);
                        return true;
                    }
                    i += 1;
                }
                false
            },
        }
    }
}

/// Where what is known of a package is taken from.
#[derive(Debug, PartialEq, Eq, Structural, Clone, Copy)]
pub enum InfoSource {
    /// From the cache.
    Cache,
    /// From the registry, over the network.
    Registry,
    /// From nowhere: the cache does not hold it and the network is not to be
    /// used.
    Nowhere,
}

/// Where what is known of a package is taken from. With the cache alone to go
/// by, the registry is never asked. Otherwise what the cache holds is used
/// unless the package is to be fetched anew.
pub open spec fn info_source_of(cached: bool, reload: bool, cached_only: bool) -> InfoSource {
    if cached_only {
        if cached {
            InfoSource::Cache
        } else {
            InfoSource::Nowhere
        }
    } else if cached && !reload {
        InfoSource::Cache
    } else {
        InfoSource::Registry
    }
}

/// Where what is known of a package is taken from.
pub fn info_source(cached: bool, reload: bool, cached_only: bool) -> (source: InfoSource)
    ensures
        source == info_source_of(cached, reload, cached_only),
        cached_only ==> source != InfoSource::Registry,
{
    if cached_only {
        if cached {
            InfoSource::Cache
        } else {
            InfoSource::Nowhere
        }
    } else if cached && !reload {
        InfoSource::Cache
    } else {
        InfoSource::Registry
    }
}

/// What is done where what the cache holds of a package turned out stale.
#[derive(Debug, PartialEq, Eq, Structural, Clone, Copy)]
pub enum Recovery {
    /// The resolution starts over, with what the registry holds now.
    StartOver,
    /// Nothing: the network is not to be used, so what is wanted cannot be
    /// had.
    GiveUp,
}

/// What is done where what the cache holds of a package does not hold what
/// is wanted: with the network at hand the cache is put aside and the
/// resolution starts over; with the cache alone to go by nothing can be
/// done.
pub fn recovery(cached_only: bool) -> (r: Recovery)
    ensures
        r == (if cached_only {
            Recovery::GiveUp
        } else {
            Recovery::StartOver
        }),
        (r == Recovery::StartOver) == (info_source_of(false, true, cached_only)
            == InfoSource::Registry),
{
    if cached_only {
        Recovery::GiveUp
    } else {
        Recovery::StartOver
    }
}

/// How a question of a resolution is answered.
#[derive(Debug, PartialEq, Eq, Structural, Clone, Copy)]
pub enum Answer {
    /// With what the cache holds of the package.
    FromCache,
    /// With what the registry holds of the package now.
    FromRegistry,
    /// With the report that no more can be learnt of the package.
    Offline,
    /// With a start over: the cache is put aside.
    StartOver,
}

/// How the question for what is known of a package is answered: from where
/// the information of a package is taken.
pub open spec fn answer_of(cached: bool, reload: bool, cached_only: bool) -> Answer {
    match info_source_of(cached, reload, cached_only) {
        InfoSource::Cache => Answer::FromCache,
        InfoSource::Registry => Answer::FromRegistry,
        InfoSource::Nowhere => Answer::Offline,
    }
}

/// How the question for what is known of a package is answered.
pub fn answer(cached: bool, reload: bool, cached_only: bool) -> (a: Answer)
    ensures
        a == answer_of(cached, reload, cached_only),
        a != Answer::StartOver,
        cached_only ==> a != Answer::FromRegistry,
        a == Answer::FromCache ==> cached,
{
    match info_source(cached, reload, cached_only) {
        InfoSource::Cache => Answer::FromCache,
        InfoSource::Registry => Answer::FromRegistry,
        InfoSource::Nowhere => Answer::Offline,
    }
}

/// How the question for fresh information of a package is answered. With
/// the cache alone to go by no more can be learnt. Else the first such
/// question makes the resolution start over, and after that the registry
/// answers.
pub open spec fn fresh_answer_of(started_over: bool, cached_only: bool) -> Answer {
    if cached_only {
        Answer::Offline
    } else if started_over {
        Answer::FromRegistry
    } else {
        Answer::StartOver
    }
}

/// How the question for fresh information of a package is answered.
pub fn fresh_answer(started_over: bool, cached_only: bool) -> (a: Answer)
    ensures
        a == fresh_answer_of(started_over, cached_only),
        a != Answer::FromCache,
        cached_only ==> a == Answer::Offline,
{
    match recovery(cached_only) {
        Recovery::GiveUp => Answer::Offline,
        Recovery::StartOver => if started_over {
            Answer::FromRegistry
        } else {
            Answer::StartOver
        },
    }
}

/// The names of the packages, each once, in the order in which they first
/// occur.
pub open spec fn names_of(packages: Seq<SnapshotPackageView>) -> Seq<Seq<char>>
    decreases packages.len(),
{
    if packages.len() == 0 {
        Seq::empty()
    } else {
        let before = names_of(packages.drop_last());
        if before.contains(packages.last().id.name) {
            before
        } else {
            before.push(packages.last().id.name)
        }
    }
}

/// The place of the first package of the snapshot whose version what is
/// known of the package does not list, if there is one.
pub open spec fn stale_at(s: SnapshotView, infos: Seq<PackageInfoView>) -> Option<int> {
    if exists|i: int| is_first_unlisted(s, infos, i) {
        Some(choose|i: int| is_first_unlisted(s, infos, i))
    } else {
        None
    }
}

/// What is done about the versions that a lockfile vouches for, given what
/// the cache holds. Where the cache lists each of them, nothing. Where it
/// does not list one and the network may be used, the packages of the
/// lockfile are asked of the registry anew. With the cache alone to go by
/// the first such version cannot be had: the failure names the package and
/// the version.
pub open spec fn locked_check_of(s: SnapshotView, cached: Seq<PackageInfoView>, cached_only: bool) -> Result<
    Seq<Seq<char>>,
    ResolveErrorView,
> {
    match stale_at(s, cached) {
        None => Ok(Seq::empty()),
        Some(i) => if cached_only {
            Err(
                ResolveErrorView::VersionNotFound {
                    name: s.packages[i].id.name,
                    req: version_text(s.packages[i].id.version),
                },
            )
        } else {
            Ok(names_of(s.packages))
        },
    }
}

/// The names of the packages hold the name of each package.
pub proof fn lemma_names_of(packages: Seq<SnapshotPackageView>, i: int)
    requires
        0 <= i < packages.len(),
    ensures
        names_of(packages).contains(packages[i].id.name),
    decreases packages.len(),
{
    let before = names_of(packages.drop_last());
    if i == packages.len() - 1 {
        if !before.contains(packages.last().id.name) {
            assert(before.push(packages.last().id.name).last() == packages.last().id.name);
        }
    } else {
        lemma_names_of(packages.drop_last(), i);
        let k = choose|k: int| 0 <= k < before.len() && before[k] == packages[i].id.name;
        assert(names_of(packages)[k] == packages[i].id.name);
    }
}

/// A version that a lockfile vouches for and that the cache does not list:
/// with the cache alone to go by the failure names the package and the
/// version, and nothing is asked of the registry; with the network at hand
/// the package is asked of the registry anew.
pub proof fn lemma_locked_version_not_cached(s: SnapshotView, cached: Seq<PackageInfoView>, i: int)
    requires
        is_first_unlisted(s, cached, i),
    ensures
        locked_check_of(s, cached, true) == Err::<Seq<Seq<char>>, ResolveErrorView>(
            ResolveErrorView::VersionNotFound {
                name: s.packages[i].id.name,
                req: version_text(s.packages[i].id.version),
            },
        ),
        locked_check_of(s, cached, false) == Ok::<Seq<Seq<char>>, ResolveErrorView>(
            names_of(s.packages),
        ),
        names_of(s.packages).contains(s.packages[i].id.name),
{
    let c = choose|c: int| is_first_unlisted(s, cached, c);
    if c < i {
        assert(!is_unlisted(cached, s.packages[c].id));
    }
    if i < c {
        assert(!is_unlisted(cached, s.packages[i].id));
    }
    lemma_names_of(s.packages, i);
}

fn package_names(snapshot: &Snapshot) -> (names: Vec<String>)
    ensures
        names.deep_view() == names_of(snapshot@.packages),
{
    let ghost p = snapshot@.packages;
    let mut names: Vec<String> = Vec::new();
    let mut i: usize = 0;
    assert(p.take(0) =~= Seq::empty());
    assert(names.deep_view() =~= Seq::empty());
    while i < snapshot.packages.len()
        invariant
            i <= snapshot.packages@.len(),
            p == snapshot@.packages,
            names.deep_view() == names_of(p.take(i as int)),
        decreases snapshot.packages.len() - i,
    {
        assert(p[i as int] == snapshot.packages@[i as int]@);
        proof {
            let now = p.take(i + 1);
            assert(now.drop_last() =~= p.take(i as int));
            assert(now.last() == p[i as int]);
        }
        if !holds_text(&names, &snapshot.packages[i].id.name) {
            let ghost before = names.deep_view();
            let name = snapshot.packages[i].id.name.clone();
            names.push(name);
            assert(names.deep_view() =~= before.push(name@));
        }
        i += 1;
    }
    assert(p.take(i as int) =~= p);
    names
}

/// What is done about the versions that a lockfile vouches for, given what
/// the cache holds: the names of the packages to ask the registry for anew,
/// or the failure.
pub fn check_locked(snapshot: &Snapshot, cached: &Vec<PackageInfo>, cached_only: bool) -> (r: Result<
    Vec<String>,
    ResolveError,
>)
    ensures
        match r {
            Ok(names) => locked_check_of(snapshot@, cached.deep_view(), cached_only) == Ok::<
                Seq<Seq<char>>,
                ResolveErrorView,
            >(names.deep_view()),
            Err(e) => locked_check_of(snapshot@, cached.deep_view(), cached_only) == Err::<
                Seq<Seq<char>>,
                ResolveErrorView,
            >(e@),
        },
        cached_only ==> (r matches Ok(names) ==> names@.len() == 0),
{
    let ghost s = snapshot@;
    let ghost known = cached.deep_view();
    match first_unlisted(snapshot, cached) {
        None => {
            let names: Vec<String> = Vec::new();
            proof {
                assert forall|i: int| !is_first_unlisted(s, known, i) by {
                    if 0 <= i < s.packages.len() {
                        assert(!is_unlisted(known, s.packages[i].id));
                    }
                }
                assert(names.deep_view() =~= Seq::empty());
            }
            Ok(names)
        },
        Some(i) => {
            proof {
                lemma_locked_version_not_cached(s, known, i as int);
                assert(s.packages[i as int] == snapshot.packages@[i as int]@);
            }
            match recovery(cached_only) {
                Recovery::GiveUp => Err(unavailable(&snapshot.packages[i].id)),
                Recovery::StartOver => Ok(package_names(snapshot)),
            }
        },
    }
}

/// Whether a project gets a `node_modules` directory: what the flag says,
/// else what the configuration says, else yes where dependencies are
/// vendored, by flag or by configuration; else it is left open.
pub open spec fn node_modules_dir_of(
    flag: Option<bool>,
    config: Option<bool>,
    vendor_flag: Option<bool>,
    vendor_config: Option<bool>,
) -> Option<bool> {
    match flag {
        Some(b) => Some(b),
        None => match config {
            Some(b) => Some(b),
            None => {
                let vendor = match vendor_flag {
                    Some(b) => b,
                    None => vendor_config == Some(true),
                };
                if vendor {
                    Some(true)
                } else {
                    None
                }
            },
        },
    }
}

/// Whether a project gets a `node_modules` directory.
pub fn node_modules_dir(
    flag: Option<bool>,
    config: Option<bool>,
    vendor_flag: Option<bool>,
    vendor_config: Option<bool>,
) -> (r: Option<bool>)
    ensures
        r == node_modules_dir_of(flag, config, vendor_flag, vendor_config),
{
    match (flag, config) {
        (Some(b), _) => Some(b),
        (None, Some(b)) => Some(b),
        (None, None) => {
            let vendor = match (vendor_flag, vendor_config) {
                (Some(b), _) => b,
                (None, Some(b)) => b,
                (None, None) => false,
            };
            if vendor {
                Some(true)
            } else {
                None
            }
        },
    }
}

/// Whether a specifier of the kind may be resolved: one for a package of the
/// registry may not where such packages are switched off.
pub fn check_allowed(kind: SpecifierKind, no_npm: bool) -> (r: Result<(), ResolveError>)
    ensures
        r is Err <==> kind == SpecifierKind::Npm && no_npm,
        r matches Err(e) ==> e@ == ResolveErrorView::NoNpmAllowed,
{
    match kind {
        SpecifierKind::Npm => if no_npm {
            Err(ResolveError::NoNpmAllowed)
        } else {
            Ok(())
        },
        _ => Ok(()),
    }
}

/// Whether the contents that were fetched for a package are the contents
/// that the lockfile vouches for: their hashes are the same text.
pub fn check_integrity(id: &PackageId, locked: &str, actual: &str) -> (r: Result<(), ResolveError>)
    ensures
        r is Ok <==> locked@ == actual@,
        r matches Err(e) ==> e@ == (ResolveErrorView::IntegrityMismatch { id: id_text(id@) }),
{
    if String::from_str(locked) == String::from_str(actual) {
        Ok(())
    } else {
        Err(ResolveError::IntegrityMismatch { id: id.to_text() })
    }
}

/// With the cache alone to go by the registry is never asked, whatever the
/// cache holds and whatever is to be fetched anew; what the cache does not
/// hold is then had from nowhere.
pub proof fn lemma_cached_only_stays_offline(cached: bool, reload: bool)
    ensures
        info_source_of(cached, reload, true) != InfoSource::Registry,
        !cached ==> info_source_of(cached, reload, true) == InfoSource::Nowhere,
        info_source_of(false, reload, false) == InfoSource::Registry,
{
}

/// The decisions that are kept when packages are fetched anew: those for
/// requests of packages that are not, in their order.
pub open spec fn kept_decisions(
    specifiers: Seq<(PackageReqView, PackageIdView)>,
    reload: ReloadView,
) -> Seq<(PackageReqView, PackageIdView)>
    decreases specifiers.len(),
{
    if specifiers.len() == 0 {
        Seq::empty()
    } else {
        let before = kept_decisions(specifiers.drop_last(), reload);
        if reloads(reload, specifiers.last().0.name) {
            before
        } else {
            before.push(specifiers.last())
        }
    }
}

/// Every decision that is kept is one that was made.
pub proof fn lemma_kept_decisions(
    specifiers: Seq<(PackageReqView, PackageIdView)>,
    reload: ReloadView,
)
    ensures
        forall|i: int|
            0 <= i < kept_decisions(specifiers, reload).len() ==> specifiers.contains(
                #[trigger] kept_decisions(specifiers, reload)[i],
            ),
    decreases specifiers.len(),
{
    if specifiers.len() > 0 {
        let shorter = specifiers.drop_last();
        lemma_kept_decisions(shorter, reload);
        let kept = kept_decisions(specifiers, reload);
        assert forall|i: int| 0 <= i < kept.len() implies specifiers.contains(
            #[trigger] kept[i],
        ) by {
            if i < kept_decisions(shorter, reload).len() {
                let x = kept_decisions(shorter, reload)[i];
                assert(shorter.contains(x));
                let k = choose|k: int| 0 <= k < shorter.len() && shorter[k] == x;
                assert(specifiers[k] == x);
            } else {
                assert(specifiers[specifiers.len() - 1] == kept[i]);
            }
        }
    }
}

/// A snapshot from which decisions were dropped is a snapshot still.
pub proof fn lemma_forget_keeps_snapshot(s: SnapshotView, reload: ReloadView)
    requires
        is_snapshot(s),
    ensures
        is_snapshot(
            SnapshotView { specifiers: kept_decisions(s.specifiers, reload), packages: s.packages },
        ),
{
    let n = SnapshotView { specifiers: kept_decisions(s.specifiers, reload), packages: s.packages };
    lemma_kept_decisions(s.specifiers, reload);
    assert forall|i: int| 0 <= i < n.specifiers.len() implies is_package_req(
        (#[trigger] n.specifiers[i]).0,
    ) && is_package_name(n.specifiers[i].1.name)
        && answers_request(n.specifiers[i].0, n.specifiers[i].1)
        && has_package(n, n.specifiers[i].1) by {
        let x = n.specifiers[i];
        assert(s.specifiers.contains(x));
        let k = choose|k: int| 0 <= k < s.specifiers.len() && s.specifiers[k] == x;
        assert(has_package(s, s.specifiers[k].1));
        let p = choose|p: int| 0 <= p < s.packages.len() && (#[trigger] s.packages[p]).id == x.1;
        assert(n.packages[p].id == x.1);
    }
    assert forall|i: int| 0 <= i < n.packages.len() implies dependencies_present(
        n,
        #[trigger] n.packages[i],
    ) by {
        assert(dependencies_present(s, s.packages[i]));
        assert forall|j: int|
            0 <= j < n.packages[i].dependencies.len() implies has_package(
            n,
            (#[trigger] n.packages[i].dependencies[j]).1,
        ) by {
            let t = s.packages[i].dependencies[j].1;
            assert(has_package(s, t));
            let p = choose|p: int| 0 <= p < s.packages.len() && (#[trigger] s.packages[p]).id == t;
            assert(n.packages[p].id == t);
        }
    }
}

/// Drops from the snapshot what was decided for requests of packages that
/// are fetched anew, so that they are resolved again. The packages stay.
pub fn forget_decisions(snapshot: Snapshot, reload: &Reload) -> (out: Snapshot)
    ensures
        out@ == (SnapshotView {
            specifiers: kept_decisions(snapshot@.specifiers, reload@),
            packages: snapshot@.packages,
        }),
        is_snapshot(snapshot@) ==> is_snapshot(out@),
{
    proof {
        if is_snapshot(snapshot@) {
            lemma_forget_keeps_snapshot(snapshot@, reload@);
        }
    }
    let Snapshot { specifiers, packages } = snapshot;
    let ghost all = specifiers.deep_view();
    let mut kept: Vec<(PackageReq, PackageId)> = Vec::new();
    let mut i: usize = 0;
    assert(all.take(0) =~= Seq::empty());
    assert(kept.deep_view() =~= kept_decisions(all.take(0), reload@));
    while i < specifiers.len()
        invariant
            i <= specifiers@.len(),
            all == specifiers.deep_view(),
            kept.deep_view() == kept_decisions(all.take(i as int), reload@),
        decreases specifiers.len() - i,
    {
        assert(all[i as int] == (specifiers@[i as int].0@, specifiers@[i as int].1@));
        proof {
            let now = all.take(i + 1);
            assert(now.drop_last() =~= all.take(i as int));
            assert(now.last() == all[i as int]);
        }
        if !reload.applies_to(specifiers[i].0.name.as_str()) {
            let ghost before = kept.deep_view();
            kept.push((specifiers[i].0.clone(), specifiers[i].1.clone()));
            assert(kept.deep_view() =~= before.push(all[i as int]));
        }
        i += 1;
    }
    assert(all.take(i as int) =~= all);
    Snapshot { specifiers: kept, packages }
}

} // verus!

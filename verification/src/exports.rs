//! The `exports` of a package: which file a subpath leads to, under the
//! conditions that hold for the one who imports.
use vstd::prelude::*;
use vstd::string::*;
use crate::error::{ResolveError, ResolveErrorView};
use crate::text::{
    chars_of, ends_with, first_index, first_index_in, has_prefix, has_suffix_from, matches_at,
    occurs_in, contains_in, starts_with, substring,
};

verus! {

/// What `exports`, or a part of it, says.
pub enum Exports {
    /// A file of the package; a `*` in it stands for what the `*` of the
    /// subpath pattern matched.
    Direct(String),
    /// Nothing is exported here, and no later alternative is tried.
    Excluded,
    /// Alternatives by condition, tried in order.
    Conditional(Vec<Branch>),
    /// Targets by subpath or subpath pattern.
    Subpaths(Vec<Branch>),
}

/// One entry of `exports`: a condition or a subpath, and what stands under
/// it.
pub struct Branch {
    pub key: String,
    pub node: Exports,
}

pub enum ExportsView {
    Direct(Seq<char>),
    Excluded,
    Conditional(Seq<BranchView>),
    Subpaths(Seq<BranchView>),
}

pub struct BranchView {
    pub key: Seq<char>,
    pub node: ExportsView,
}

impl View for Branch {
    type V = BranchView;

    open spec fn view(&self) -> BranchView {
        BranchView { key: self.key@, node: self.node@ }
    }
}

impl View for Exports {
    type V = ExportsView;

    open spec fn view(&self) -> ExportsView
        decreases self,
    {
        match self {
            Exports::Direct(path) => ExportsView::Direct(path@),
            Exports::Excluded => ExportsView::Excluded,
            Exports::Conditional(branches) => ExportsView::Conditional(
                Seq::new(
                    branches@.len(),
                    |i: int|
                        if 0 <= i < branches@.len() {
                            BranchView { key: branches@[i].key@, node: branches@[i].node@ }
                        } else {
                            arbitrary()
                        },
                ),
            ),
            Exports::Subpaths(branches) => ExportsView::Subpaths(
                Seq::new(
                    branches@.len(),
                    |i: int|
                        if 0 <= i < branches@.len() {
                            BranchView { key: branches@[i].key@, node: branches@[i].node@ }
                        } else {
                            arbitrary()
                        },
                ),
            ),
        }
    }
}

/// What a part of `exports` comes to.
pub enum Target {
    /// This file of the package.
    Path(String),
    /// Nothing is exported, and nothing else is to be tried.
    Excluded,
    /// Nothing here holds for the one who imports.
    NoMatch,
}

pub enum TargetView {
    Path(Seq<char>),
    Excluded,
    NoMatch,
}

impl View for Target {
    type V = TargetView;

    open spec fn view(&self) -> TargetView {
        match self {
            Target::Path(path) => TargetView::Path(path@),
            Target::Excluded => TargetView::Excluded,
            Target::NoMatch => TargetView::NoMatch,
        }
    }
}

/// The target with every `*` replaced by what the pattern matched.
pub open spec fn substitute(target: Seq<char>, matched: Seq<char>) -> Seq<char>
    decreases target.len(),
{
    if target.len() == 0 {
        Seq::empty()
    } else {
        substitute(target.drop_last(), matched) + (if target.last() == '*' {
            matched
        } else {
            seq![target.last()]
        })
    }
}

/// A condition holds if the one who imports names it; `default` always holds.
pub open spec fn condition_holds(conditions: Seq<Seq<char>>, key: Seq<char>) -> bool {
    key == "default"@ || conditions.contains(key)
}

/// What a part of `exports` comes to. Of alternatives by condition, the first
/// whose condition holds and that comes to something counts. A map of
/// subpaths below the top comes to nothing.
pub open spec fn target_of(node: ExportsView, conditions: Seq<Seq<char>>, matched: Seq<char>) -> TargetView
    decreases node, 0int,
{
    match node {
        ExportsView::Direct(path) => TargetView::Path(substitute(path, matched)),
        ExportsView::Excluded => TargetView::Excluded,
        ExportsView::Conditional(branches) => branches_target(branches, conditions, matched, 0),
        ExportsView::Subpaths(_) => TargetView::NoMatch,
    }
}

/// What the alternatives from place `from` on come to.
pub open spec fn branches_target(
    branches: Seq<BranchView>,
    conditions: Seq<Seq<char>>,
    matched: Seq<char>,
    from: int,
) -> TargetView
    decreases branches, branches.len() - from,
{
    if from < 0 || from >= branches.len() {
        TargetView::NoMatch
    } else {
        let here = if condition_holds(conditions, branches[from].key) {
            target_of(branches[from].node, conditions, matched)
        } else {
            TargetView::NoMatch
        };
        if here is NoMatch {
            branches_target(branches, conditions, matched, from + 1)
        } else {
            here
        }
    }
}

/// Where the `*` of a key stands, or the length of the key.
pub open spec fn star_of(key: Seq<char>) -> int {
    first_index(key, '*')
}

/// A key with exactly one `*` matches a subpath that is at least as long,
/// begins with what stands before the `*` and ends with what stands behind
/// it.
pub open spec fn pattern_matches(key: Seq<char>, subpath: Seq<char>) -> bool {
    let star = star_of(key);
    &&& star < key.len()
    &&& !occurs_in(key, '*', star + 1, key.len() as int)
    &&& subpath.len() >= key.len()
    &&& starts_with(subpath, key.take(star))
    &&& ends_with(subpath, key.skip(star + 1))
}

/// What the `*` of a key that matches stands for.
pub open spec fn matched_part(key: Seq<char>, subpath: Seq<char>) -> Seq<char> {
    let star = star_of(key);
    subpath.subrange(star, subpath.len() - (key.len() - star - 1))
}

/// Of two patterns the one with more before its `*` is the closer one, and of
/// two with as much, the longer one.
pub open spec fn closer(a: Seq<char>, b: Seq<char>) -> bool {
    star_of(a) > star_of(b) || (star_of(a) == star_of(b) && a.len() > b.len())
}

/// The entry at place `i` is the pattern to take for the subpath: none that
/// matches is closer, and of those as close it comes first.
pub open spec fn is_best_pattern(branches: Seq<BranchView>, subpath: Seq<char>, i: int) -> bool {
    &&& 0 <= i < branches.len()
    &&& pattern_matches(branches[i].key, subpath)
    &&& forall|j: int|
        0 <= j < branches.len() && pattern_matches((#[trigger] branches[j]).key, subpath)
            ==> !closer(branches[j].key, branches[i].key)
    &&& forall|j: int|
        0 <= j < i && pattern_matches((#[trigger] branches[j]).key, subpath) ==> closer(
            branches[i].key,
            branches[j].key,
        )
}

/// The entry at place `i` is the first under the key.
pub open spec fn is_entry_at(branches: Seq<BranchView>, key: Seq<char>, i: int) -> bool {
    &&& 0 <= i < branches.len()
    &&& branches[i].key == key
    &&& forall|j: int| 0 <= j < i ==> (#[trigger] branches[j]).key != key
}

/// A subpath without `*` is listed if an entry has it as key.
pub open spec fn is_listed(branches: Seq<BranchView>, subpath: Seq<char>) -> bool {
    !subpath.contains('*') && exists|i: int| is_entry_at(branches, subpath, i)
}

/// Whether some pattern among the entries matches the subpath.
pub open spec fn some_pattern_matches(branches: Seq<BranchView>, subpath: Seq<char>) -> bool {
    exists|i: int| 0 <= i < branches.len() && pattern_matches((#[trigger] branches[i]).key, subpath)
}

/// What a map of subpaths comes to for a subpath: the entry listed under the
/// subpath, else the closest pattern that matches it.
pub open spec fn subpaths_target(
    branches: Seq<BranchView>,
    subpath: Seq<char>,
    conditions: Seq<Seq<char>>,
) -> TargetView {
    if is_listed(branches, subpath) {
        let i = choose|i: int| is_entry_at(branches, subpath, i);
        target_of(branches[i].node, conditions, Seq::empty())
    } else if exists|i: int| is_best_pattern(branches, subpath, i) {
        let i = choose|i: int| is_best_pattern(branches, subpath, i);
        target_of(branches[i].node, conditions, matched_part(branches[i].key, subpath))
    } else {
        TargetView::NoMatch
    }
}

/// What `exports` comes to for a subpath. `exports` that is no map of
/// subpaths speaks of the package itself, the subpath `.`, alone.
pub open spec fn exports_target(
    exports: ExportsView,
    subpath: Seq<char>,
    conditions: Seq<Seq<char>>,
) -> TargetView {
    match exports {
        ExportsView::Subpaths(branches) => subpaths_target(branches, subpath, conditions),
        _ => if subpath == seq!['.'] {
            target_of(exports, conditions, Seq::empty())
        } else {
            TargetView::NoMatch
        },
    }
}

/// The file that `exports` leads the subpath to, as a path within the
/// package that begins with `./`; or that the subpath is not exported; or
/// that `exports` leads it out of the package.
pub open spec fn exports_resolution(
    package_path: Seq<char>,
    exports: ExportsView,
    subpath: Seq<char>,
    conditions: Seq<Seq<char>>,
) -> Result<Seq<char>, ResolveErrorView> {
    match exports_target(exports, subpath, conditions) {
        TargetView::Path(path) => if starts_with(path, seq!['.', '/']) {
            Ok(path)
        } else {
            Err(ResolveErrorView::InvalidExportsTarget { package_path, target: path })
        },
        _ => Err(ResolveErrorView::SubpathNotExported { package_path, subpath }),
    }
}

/// A subpath that `exports` neither lists nor matches by a pattern is not
/// exported: whatever the conditions, and whatever files the package holds,
/// the answer names the subpath and the package.
pub proof fn lemma_unlisted_not_exported(
    package_path: Seq<char>,
    branches: Seq<BranchView>,
    subpath: Seq<char>,
    conditions: Seq<Seq<char>>,
)
    requires
        forall|i: int| 0 <= i < branches.len() ==> (#[trigger] branches[i]).key != subpath,
        !some_pattern_matches(branches, subpath),
    ensures
        exports_resolution(package_path, ExportsView::Subpaths(branches), subpath, conditions)
            == Err::<Seq<char>, ResolveErrorView>(
            ResolveErrorView::SubpathNotExported { package_path, subpath },
        ),
{
    if exists|i: int| is_entry_at(branches, subpath, i) {
        let i = choose|i: int| is_entry_at(branches, subpath, i);
        assert(branches[i].key != subpath);
    }
    if exists|i: int| is_best_pattern(branches, subpath, i) {
        let i = choose|i: int| is_best_pattern(branches, subpath, i);
        assert(pattern_matches(branches[i].key, subpath));
    }
}

/// `exports` that is no map of subpaths exports nothing but the package
/// itself.
pub proof fn lemma_only_root_exported(
    package_path: Seq<char>,
    exports: ExportsView,
    subpath: Seq<char>,
    conditions: Seq<Seq<char>>,
)
    requires
        !(exports is Subpaths),
        subpath != seq!['.'],
    ensures
        exports_resolution(package_path, exports, subpath, conditions) == Err::<
            Seq<char>,
            ResolveErrorView,
        >(ResolveErrorView::SubpathNotExported { package_path, subpath }),
{
}

/// The target with every `*` replaced by what the pattern matched.
pub fn substitute_text(target: &str, matched: &str) -> (out: String)
    ensures
        out@ == substitute(target@, matched@),
{
    let chars = chars_of(target);
    let mut out = String::new();
    let mut i: usize = 0;
    assert(target@.take(0) =~= Seq::empty());
    while i < chars.len()
        invariant
            i <= chars@.len(),
            chars@ == target@,
            out@ == substitute(target@.take(i as int), matched@),
        decreases chars.len() - i,
    {
        proof {
            let now = target@.take(i + 1);
            assert(now.drop_last() =~= target@.take(i as int));
            assert(now.last() == target@[i as int]);
        }
        if chars[i] == '*' {
            out.append(matched);
        } else {
            out.append(target.substring_char(i, i + 1));
            assert(target@.subrange(i as int, i + 1) =~= seq![target@[i as int]]);
        }
        i += 1;
    }
    assert(target@.take(i as int) =~= target@);
    out
}

/// Whether the condition holds for the one who imports.
pub fn condition_active(conditions: &Vec<String>, key: &String) -> (b: bool)
    ensures
        b == condition_holds(conditions.deep_view(), key@),
{
    let default = String::from_str("default");
    if *key == default {
        return true;
    }
    let mut i: usize = 0;
    while i < conditions.len()
        invariant
            i <= conditions@.len(),
            forall|k: int| 0 <= k < i ==> (#[trigger] conditions.deep_view()[k]) != key@,
        decreases conditions.len() - i,
    {
        assert(conditions.deep_view()[i as int] == conditions@[i as int]@);
        if conditions[i] == *key {
            return true;
        }
        i += 1;
    }
    false
}

/// The views of the entries of a part of `exports`.
pub open spec fn branch_views(branches: Seq<Branch>) -> Seq<BranchView> {
    Seq::new(
        branches.len(),
        |i: int|
            if 0 <= i < branches.len() {
                BranchView { key: branches[i].key@, node: branches[i].node@ }
            } else {
                arbitrary()
            },
    )
}

impl Exports {
    /// What this part of `exports` comes to for one who imports under the
    /// conditions, where the subpath pattern matched `matched`.
    pub fn target(&self, conditions: &Vec<String>, matched: &str) -> (t: Target)
        ensures
            t@ == target_of(self@, conditions.deep_view(), matched@),
        decreases self,
    {
        match self {
            Exports::Direct(path) => Target::Path(substitute_text(path.as_str(), matched)),
            Exports::Excluded => Target::Excluded,
            Exports::Subpaths(_) => Target::NoMatch,
            Exports::Conditional(branches) => {
                let ghost views = branch_views(branches@);
                assert(self@ == ExportsView::Conditional(views)) by {
                    assert(self@->Conditional_0 =~= views);
                }
                let mut i: usize = 0;
                while i < branches.len()
                    invariant
                        i <= branches@.len(),
                        views == branch_views(branches@),
                        self@ == ExportsView::Conditional(views),
                        *self == Exports::Conditional(*branches),
                        branches_target(views, conditions.deep_view(), matched@, 0)
                            == branches_target(views, conditions.deep_view(), matched@, i as int),
                    decreases branches@.len() - i,
                {
                    assert(views[i as int] == branches@[i as int]@);
                    if condition_active(conditions, &branches[i].key) {
                        let t = branches[i].node.target(conditions, matched);
                        match t {
                            Target::NoMatch => {},
                            _ => {
                                return t;
                            },
                        }
                    }
                    i += 1;
                }
                Target::NoMatch
            },
        }
    }
}

/// Where the first entry under the key stands, if there is one.
pub fn find_entry(branches: &Vec<Branch>, key: &String) -> (r: Option<usize>)
    ensures
        match r {
            Some(i) => is_entry_at(branch_views(branches@), key@, i as int),
            None => forall|j: int|
                0 <= j < branches@.len() ==> (#[trigger] branch_views(branches@)[j]).key != key@,
        },
{
    let ghost views = branch_views(branches@);
    let mut i: usize = 0;
    while i < branches.len()
        invariant
            i <= branches@.len(),
            views == branch_views(branches@),
            forall|j: int| 0 <= j < i ==> (#[trigger] views[j]).key != key@,
        decreases branches.len() - i,
    {
        assert(views[i as int] == branches@[i as int]@);
        if branches[i].key == *key {
            return Some(i);
        }
        i += 1;
    }
    None
}

/// Whether the key is a pattern that matches the subpath; with it, where the
/// `*` of the key stands.
fn pattern_match(key: &Vec<char>, subpath: &Vec<char>) -> (r: (bool, usize))
    ensures
        r.0 == pattern_matches(key@, subpath@),
        r.1 == star_of(key@),
{
    let n = key.len();
    assert(key@.subrange(0, n as int) =~= key@);
    let star = first_index_in(key, '*', 0, n);
    if star >= n {
        return (false, star);
    }
    if contains_in(key, '*', star + 1, n) || subpath.len() < n {
        return (false, star);
    }
    assert(subpath@.skip(0) =~= subpath@);
    assert(key@.take(star as int) =~= key@.subrange(0, star as int));
    let ok = matches_at(subpath, 0, key, 0, star) && has_suffix_from(subpath, key, star + 1);
    (ok, star)
}

/// Where the pattern to take for the subpath stands, if a pattern matches
/// it.
pub fn find_pattern(branches: &Vec<Branch>, subpath: &str) -> (r: Option<usize>)
    ensures
        match r {
            Some(i) => is_best_pattern(branch_views(branches@), subpath@, i as int),
            None => !some_pattern_matches(branch_views(branches@), subpath@),
        },
{
    let ghost views = branch_views(branches@);
    let wanted = chars_of(subpath);
    let mut best: Option<usize> = None;
    let mut best_star: usize = 0;
    let mut best_len: usize = 0;
    let mut j: usize = 0;
    while j < branches.len()
        invariant
            j <= branches@.len(),
            views == branch_views(branches@),
            wanted@ == subpath@,
            match best {
                Some(i) => {
                    &&& i < j
                    &&& pattern_matches(views[i as int].key, subpath@)
                    &&& best_star == star_of(views[i as int].key)
                    &&& best_len == views[i as int].key.len()
                    &&& forall|k: int|
                        0 <= k < j && pattern_matches((#[trigger] views[k]).key, subpath@)
                            ==> !closer(views[k].key, views[i as int].key)
                    &&& forall|k: int|
                        0 <= k < i && pattern_matches((#[trigger] views[k]).key, subpath@)
                            ==> closer(views[i as int].key, views[k].key)
                },
                None => forall|k: int|
                    0 <= k < j ==> !pattern_matches((#[trigger] views[k]).key, subpath@),
            },
        decreases branches.len() - j,
    {
        assert(views[j as int] == branches@[j as int]@);
        let key = chars_of(branches[j].key.as_str());
        let (ok, star) = pattern_match(&key, &wanted);
        if ok {
            let take = match best {
                Some(_) => star > best_star || (star == best_star && key.len() > best_len),
                None => true,
            };
            if take {
                best = Some(j);
                best_star = star;
                best_len = key.len();
            }
        }
        j += 1;
    }
    best
}

/// What the part of the subpath is that the `*` of the key stands for.
fn matched_text(key: &str, subpath: &str) -> (m: String)
    requires
        pattern_matches(key@, subpath@),
    ensures
        m@ == matched_part(key@, subpath@),
{
    let k = chars_of(key);
    let n = k.len();
    assert(k@.subrange(0, n as int) =~= k@);
    let star = first_index_in(&k, '*', 0, n);
    let len = subpath.unicode_len();
    substring(subpath, star, len - (n - star - 1))
}

/// What a map of subpaths comes to for a subpath.
pub fn subpaths(branches: &Vec<Branch>, subpath: &str, conditions: &Vec<String>) -> (t: Target)
    ensures
        t@ == subpaths_target(branch_views(branches@), subpath@, conditions.deep_view()),
{
    let wanted = String::from_str(subpath);
    let chars = chars_of(subpath);
    let ghost views = branch_views(branches@);
    let starred = contains_in(&chars, '*', 0, chars.len());
    proof {
        reveal_strlit("");
        assert(""@ =~= Seq::<char>::empty());
        if starred {
            let k = choose|k: int| 0 <= k < chars@.len() && chars@[k] == '*';
            assert(subpath@[k] == '*');
        }
        if subpath@.contains('*') {
            let k = choose|k: int| 0 <= k < subpath@.len() && subpath@[k] == '*';
            assert(0 <= k < chars@.len() && chars@[k] == '*');
        }
    }
    let listed = if starred {
        None
    } else {
        find_entry(branches, &wanted)
    };
    match listed {
        Some(i) => {
            proof {
                lemma_entry_at(views, subpath@, i as int);
            }
            assert(views[i as int] == branches@[i as int]@);
            branches[i].node.target(conditions, "")
        },
        None => {
            proof {
                if exists|i: int| is_entry_at(views, subpath@, i) {
                    let i = choose|i: int| is_entry_at(views, subpath@, i);
                    assert(starred);
                }
            }
            match find_pattern(branches, subpath) {
                Some(i) => {
                    proof {
                        lemma_best_pattern(views, subpath@, i as int);
                    }
                    assert(views[i as int] == branches@[i as int]@);
                    let matched = matched_text(branches[i].key.as_str(), subpath);
                    branches[i].node.target(conditions, matched.as_str())
                },
                None => {
                    proof {
                        if exists|i: int| is_best_pattern(views, subpath@, i) {
                            let i = choose|i: int| is_best_pattern(views, subpath@, i);
                            assert(pattern_matches(views[i].key, subpath@));
                        }
                    }
                    Target::NoMatch
                },
            }
        },
    }
}

/// The file that `exports` leads the subpath to, as a path within the
/// package that begins with `./`. The subpath is `.` for the package itself,
/// else it begins with `./`.
pub fn resolve_exports(
    package_path: &str,
    exports: &Exports,
    subpath: &str,
    conditions: &Vec<String>,
) -> (r: Result<String, ResolveError>)
    ensures
        match r {
            Ok(path) => exports_resolution(
                package_path@,
                exports@,
                subpath@,
                conditions.deep_view(),
            ) == Ok::<Seq<char>, ResolveErrorView>(path@),
            Err(e) => exports_resolution(package_path@, exports@, subpath@, conditions.deep_view())
                == Err::<Seq<char>, ResolveErrorView>(e@),
        },
{
    let wanted = String::from_str(subpath);
    let target = match exports {
        Exports::Subpaths(branches) => {
            assert(exports@ == ExportsView::Subpaths(branch_views(branches@))) by {
                assert(exports@->Subpaths_0 =~= branch_views(branches@));
            }
            subpaths(branches, subpath, conditions)
        },
        _ => {
            let root = String::from_str(".");
            proof {
                reveal_strlit(".");
                assert("."@ =~= seq!['.']);
                reveal_strlit("");
                assert(""@ =~= Seq::<char>::empty());
            }
            if wanted == root {
                exports.target(conditions, "")
            } else {
                Target::NoMatch
            }
        },
    };
    match target {
        Target::Path(path) => {
            let dot_slash = chars_of("./");
            proof {
                reveal_strlit("./");
                assert(dot_slash@ =~= seq!['.', '/']);
            }
            let p = chars_of(path.as_str());
            if has_prefix(&p, &dot_slash) {
                Ok(path)
            } else {
                Err(
                    ResolveError::InvalidExportsTarget {
                        package_path: String::from_str(package_path),
                        target: path,
                    },
                )
            }
        },
        _ => Err(
            ResolveError::SubpathNotExported {
                package_path: String::from_str(package_path),
                subpath: wanted,
            },
        ),
    }
}

/// What the `imports` of a package lead an alias to: a file of the package,
/// as a path that begins with `./`, or the specifier of another package. An
/// alias begins with `#`; `imports` is a map, of aliases and alias patterns.
pub open spec fn imports_resolution(
    package_path: Seq<char>,
    imports: ExportsView,
    alias: Seq<char>,
    conditions: Seq<Seq<char>>,
) -> Result<Seq<char>, ResolveErrorView> {
    let target = match imports {
        ExportsView::Subpaths(branches) => if starts_with(alias, seq!['#']) {
            subpaths_target(branches, alias, conditions)
        } else {
            TargetView::NoMatch
        },
        _ => TargetView::NoMatch,
    };
    match target {
        TargetView::Path(path) => Ok(path),
        _ => Err(ResolveErrorView::ImportNotDefined { package_path, alias }),
    }
}

/// What the `imports` of a package lead an alias to.
pub fn resolve_imports(
    package_path: &str,
    imports: &Exports,
    alias: &str,
    conditions: &Vec<String>,
) -> (r: Result<String, ResolveError>)
    ensures
        match r {
            Ok(path) => imports_resolution(package_path@, imports@, alias@, conditions.deep_view())
                == Ok::<Seq<char>, ResolveErrorView>(path@),
            Err(e) => imports_resolution(package_path@, imports@, alias@, conditions.deep_view())
                == Err::<Seq<char>, ResolveErrorView>(e@),
        },
{
    let target = match imports {
        Exports::Subpaths(branches) => {
            assert(imports@ == ExportsView::Subpaths(branch_views(branches@))) by {
                assert(imports@->Subpaths_0 =~= branch_views(branches@));
            }
            let hash = chars_of("#");
            proof {
                reveal_strlit("#");
                assert(hash@ =~= seq!['#']);
            }
            let a = chars_of(alias);
            if has_prefix(&a, &hash) {
                subpaths(branches, alias, conditions)
            } else {
                Target::NoMatch
            }
        },
        _ => Target::NoMatch,
    };
    match target {
        Target::Path(path) => Ok(path),
        _ => Err(
            ResolveError::ImportNotDefined {
                package_path: String::from_str(package_path),
                alias: String::from_str(alias),
            },
        ),
    }
}

/// How a module is reached.
#[derive(Debug, PartialEq, Eq, Structural, Clone, Copy)]
pub enum ResolutionMode {
    /// By `import`.
    Import,
    /// By `require`.
    Require,
}

/// The conditions that hold for one who reaches a module: `deno`, `node` and
/// `import` for an import, `require` and `node` for a require.
pub open spec fn conditions_of(mode: ResolutionMode) -> Seq<Seq<char>> {
    match mode {
        ResolutionMode::Import => seq!["deno"@, "node"@, "import"@],
        ResolutionMode::Require => seq!["require"@, "node"@],
    }
}

/// The conditions that hold for one who reaches a module.
pub fn conditions_for(mode: ResolutionMode) -> (conditions: Vec<String>)
    ensures
        conditions.deep_view() == conditions_of(mode),
{
    let mut conditions: Vec<String> = Vec::new();
    match mode {
        ResolutionMode::Import => {
            conditions.push(String::from_str("deno"));
            conditions.push(String::from_str("node"));
            conditions.push(String::from_str("import"));
        },
        ResolutionMode::Require => {
            conditions.push(String::from_str("require"));
            conditions.push(String::from_str("node"));
        },
    }
    assert(conditions.deep_view() =~~= conditions_of(mode));
    conditions
}

/// The first entry under a key stands at one place.
proof fn lemma_entry_at(branches: Seq<BranchView>, key: Seq<char>, i: int)
    requires
        is_entry_at(branches, key, i),
    ensures
        (choose|j: int| is_entry_at(branches, key, j)) == i,
{
    let j = choose|j: int| is_entry_at(branches, key, j);
    if j < i {
        assert(branches[j].key != key);
    }
    if i < j {
        assert(branches[i].key != key);
    }
}

/// The pattern to take stands at one place.
proof fn lemma_best_pattern(branches: Seq<BranchView>, subpath: Seq<char>, i: int)
    requires
        is_best_pattern(branches, subpath, i),
    ensures
        (choose|j: int| is_best_pattern(branches, subpath, j)) == i,
{
    let j = choose|j: int| is_best_pattern(branches, subpath, j);
    if j < i {
        assert(closer(branches[i].key, branches[j].key));
        assert(!closer(branches[i].key, branches[j].key));
    }
    if i < j {
        assert(closer(branches[j].key, branches[i].key));
        assert(!closer(branches[j].key, branches[i].key));
    }
}

/// A part of `exports` or `imports` as a `package.json` writes it.
pub enum Written {
    /// A text.
    Text(String),
    /// `null`.
    Null,
    /// A list of fallbacks.
    List(Vec<Written>),
    /// An object: keys with what stands under them, in their order.
    Object(Vec<Member>),
    /// Anything else.
    Other,
}

/// A key of an object with what stands under it.
pub struct Member {
    pub key: String,
    pub value: Written,
}

/// Whether a key names a subpath or an alias rather than a condition: it
/// begins with `.` or with `#`.
pub open spec fn is_path_key(key: Seq<char>) -> bool {
    key.len() > 0 && (key[0] == '.' || key[0] == '#')
}

/// Whether one of the keys names a subpath or an alias.
pub open spec fn has_path_key(members: Seq<Member>) -> bool {
    exists|i: int| 0 <= i < members.len() && is_path_key((#[trigger] members[i]).key@)
}

/// What the members of an object say, one entry for each, in their order.
pub open spec fn branches_of(members: Seq<Member>) -> Seq<BranchView>
    decreases members,
{
    Seq::new(
        members.len(),
        |i: int|
            if 0 <= i < members.len() {
                BranchView { key: members[i].key@, node: form_of(members[i].value) }
            } else {
                arbitrary()
            },
    )
}

/// What a written part of `exports` says. A text is a file. `null` exports
/// nothing. Of a list of fallbacks the first counts, and an empty list
/// exports nothing. An object is a map of subpaths where one of its keys
/// begins with `.` or `#`, and alternatives by condition else. Anything
/// else exports nothing.
pub open spec fn form_of(w: Written) -> ExportsView
    decreases w,
{
    match w {
        Written::Text(path) => ExportsView::Direct(path@),
        Written::List(list) => if list@.len() > 0 {
            form_of(list@[0])
        } else {
            ExportsView::Excluded
        },
        Written::Object(members) => if has_path_key(members@) {
            ExportsView::Subpaths(branches_of(members@))
        } else {
            ExportsView::Conditional(branches_of(members@))
        },
        _ => ExportsView::Excluded,
    }
}

fn path_key(key: &String) -> (b: bool)
    ensures
        b == is_path_key(key@),
{
    let chars = chars_of(key.as_str());
    chars.len() > 0 && (chars[0] == '.' || chars[0] == '#')
}

/// What a written part of `exports` says.
pub fn exports_from(w: &Written) -> (e: Exports)
    ensures
        e@ == form_of(*w),
    decreases w,
{
    match w {
        Written::Text(path) => Exports::Direct(path.clone()),
        Written::List(list) => if list.len() > 0 {
            exports_from(&list[0])
        } else {
            Exports::Excluded
        },
        Written::Object(members) => {
            let mut branches: Vec<Branch> = Vec::new();
            let mut keyed = false;
            let mut i: usize = 0;
            while i < members.len()
                invariant
                    i <= members@.len(),
                    decreases_to!(*w => *members),
                    branches@.len() == i,
                    forall|k: int|
                        0 <= k < i ==> (#[trigger] branches@[k])@ == branches_of(members@)[k],
                    keyed == (exists|k: int|
                        0 <= k < i && is_path_key((#[trigger] members@[k]).key@)),
                decreases members@.len() - i,
            {
                if path_key(&members[i].key) {
                    keyed = true;
                }
                let member = &members[i];
                assert(decreases_to!(*members => members@[i as int]));
                assert(decreases_to!(members@[i as int] => member.value));
                let node = exports_from(&member.value);
                branches.push(Branch { key: members[i].key.clone(), node });
                i += 1;
            }
            assert(branch_views(branches@) =~= branches_of(members@));
            if keyed {
                let e = Exports::Subpaths(branches);
                assert(e@ == ExportsView::Subpaths(branch_views(branches@))) by {
                    assert(e@->Subpaths_0 =~= branch_views(branches@));
                }
                e
            } else {
                let e = Exports::Conditional(branches);
                assert(e@ == ExportsView::Conditional(branch_views(branches@))) by {
                    assert(e@->Conditional_0 =~= branch_views(branches@));
                }
                e
            }
        },
        _ => Exports::Excluded,
    }
}

} // verus!

//! Copies of a package. Where the peer dependencies of one package resolve
//! differently for different dependents, each resolution gets a copy of the
//! package of its own: the first the package's directory itself, the others
//! directories marked `_1`, `_2` and so on.
use vstd::prelude::*;
use vstd::string::*;
use crate::package::{PackageId, PackageIdView};
use crate::snapshot::{Snapshot, SnapshotPackageView, SnapshotView};

verus! {

/// A use of a package: the package, and the packages that its peer
/// dependencies, and theirs in turn, resolve to for the one who uses it.
pub struct Use {
    pub id: PackageId,
    pub peers: Vec<PackageId>,
}

pub struct UseView {
    pub id: PackageIdView,
    pub peers: Seq<PackageIdView>,
}

impl View for Use {
    type V = UseView;

    open spec fn view(&self) -> UseView {
        UseView { id: self.id@, peers: self.peers.deep_view() }
    }
}

impl DeepView for Use {
    type V = UseView;

    open spec fn deep_view(&self) -> UseView {
        self@
    }
}

/// The use at place `i` is the first of its package with its peers.
pub open spec fn is_first_use(uses: Seq<UseView>, i: int) -> bool {
    forall|k: int| 0 <= k < i ==> #[trigger] uses[k] != uses[i]
}

/// Where the first use stands that is the same as the one at place `i`.
pub open spec fn first_use(uses: Seq<UseView>, i: int) -> int
    decreases i,
{
    if i <= 0 {
        0
    } else if exists|k: int| 0 <= k < i && #[trigger] uses[k] == uses[i] {
        first_use(uses, choose|k: int| 0 <= k < i && #[trigger] uses[k] == uses[i])
    } else {
        i
    }
}

/// How many copies of the package are begun before place `k`: the first uses
/// of the package among the uses before `k`.
pub open spec fn copies_before(uses: Seq<UseView>, id: PackageIdView, k: int) -> nat
    decreases k,
{
    if k <= 0 {
        0
    } else {
        copies_before(uses, id, k - 1) + (if uses[k - 1].id == id && is_first_use(uses, k - 1) {
            1nat
        } else {
            0nat
        })
    }
}

/// The copy that the use at place `i` gets: as many copies of its package as
/// are begun before the first use that is the same.
pub open spec fn copy_of(uses: Seq<UseView>, i: int) -> nat {
    copies_before(uses, uses[i].id, first_use(uses, i))
}

/// The first use that is the same as a use is the same, stands at or before
/// it, and is a first use.
pub proof fn lemma_first_use(uses: Seq<UseView>, i: int)
    requires
        0 <= i < uses.len(),
    ensures
        0 <= first_use(uses, i) <= i,
        uses[first_use(uses, i)] == uses[i],
        is_first_use(uses, first_use(uses, i)),
    decreases i,
{
    if i > 0 && exists|k: int| 0 <= k < i && #[trigger] uses[k] == uses[i] {
        let k = choose|k: int| 0 <= k < i && #[trigger] uses[k] == uses[i];
        lemma_first_use(uses, k);
    }
}

/// A first use is its own first use.
pub proof fn lemma_first_use_of_first(uses: Seq<UseView>, i: int)
    requires
        0 <= i < uses.len(),
        is_first_use(uses, i),
    ensures
        first_use(uses, i) == i,
{
    if i > 0 && exists|k: int| 0 <= k < i && #[trigger] uses[k] == uses[i] {
        let k = choose|k: int| 0 <= k < i && #[trigger] uses[k] == uses[i];
        assert(uses[k] != uses[i]);
    }
}

/// Uses that are the same have the same first use.
pub proof fn lemma_same_first(uses: Seq<UseView>, i: int, j: int)
    requires
        0 <= i < uses.len(),
        0 <= j < uses.len(),
        uses[i] == uses[j],
    ensures
        first_use(uses, i) == first_use(uses, j),
{
    lemma_first_use(uses, i);
    lemma_first_use(uses, j);
    let a = first_use(uses, i);
    let b = first_use(uses, j);
    if a < b {
        assert(uses[a] != uses[b]);
    }
    if b < a {
        assert(uses[b] != uses[a]);
    }
}

/// The count of copies begun does not fall, and rises past every first use of
/// the package.
pub proof fn lemma_copies_grow(uses: Seq<UseView>, id: PackageIdView, a: int, b: int)
    requires
        0 <= a <= b,
    ensures
        copies_before(uses, id, a) <= copies_before(uses, id, b),
        a < b && uses[a].id == id && is_first_use(uses, a) ==> copies_before(uses, id, a)
            < copies_before(uses, id, b),
    decreases b - a,
{
    if a < b {
        lemma_copies_grow(uses, id, a, b - 1);
    }
}

/// Two uses of one package share a copy exactly if their peers resolve to
/// the same packages.
pub proof fn lemma_share_copy(uses: Seq<UseView>, i: int, j: int)
    requires
        0 <= i < uses.len(),
        0 <= j < uses.len(),
        uses[i].id == uses[j].id,
    ensures
        copy_of(uses, i) == copy_of(uses, j) <==> uses[i].peers == uses[j].peers,
{
    lemma_first_use(uses, i);
    lemma_first_use(uses, j);
    let a = first_use(uses, i);
    let b = first_use(uses, j);
    let id = uses[i].id;
    if uses[i].peers == uses[j].peers {
        assert(uses[i] == uses[j]);
        lemma_same_first(uses, i, j);
    } else {
        assert(uses[a] != uses[b]);
        if a < b {
            lemma_copies_grow(uses, id, a, b);
        } else {
            lemma_copies_grow(uses, id, b, a);
        }
    }
}

fn same_peers(a: &Vec<PackageId>, b: &Vec<PackageId>) -> (same: bool)
    ensures
        same == (a.deep_view() == b.deep_view()),
{
    if a.len() != b.len() {
        assert(a.deep_view().len() != b.deep_view().len());
        return false;
    }
    let mut i: usize = 0;
    while i < a.len()
        invariant
            i <= a@.len() == b@.len(),
            forall|k: int| 0 <= k < i ==> a.deep_view()[k] == b.deep_view()[k],
        decreases a.len() - i,
    {
        assert(a.deep_view()[i as int] == a@[i as int]@);
        assert(b.deep_view()[i as int] == b@[i as int]@);
        if !a[i].same(&b[i]) {
            assert(a.deep_view()[i as int] != b.deep_view()[i as int]);
            return false;
        }
        i += 1;
    }
    assert(a.deep_view() =~= b.deep_view());
    true
}

fn same_use(a: &Use, b: &Use) -> (same: bool)
    ensures
        same == (a@ == b@),
{
    a.id.same(&b.id) && same_peers(&a.peers, &b.peers)
}

/// The copy that each use gets.
pub fn assign_copies(uses: &Vec<Use>) -> (copies: Vec<usize>)
    ensures
        copies@.len() == uses@.len(),
        forall|i: int| 0 <= i < uses@.len() ==> #[trigger] copies@[i] == copy_of(uses.deep_view(), i),
{
    let ghost u = uses.deep_view();
    let mut copies: Vec<usize> = Vec::new();
    let mut firsts: Vec<bool> = Vec::new();
    let mut i: usize = 0;
    while i < uses.len()
        invariant
            i <= uses@.len(),
            u == uses.deep_view(),
            copies@.len() == i,
            firsts@.len() == i,
            forall|k: int| 0 <= k < i ==> #[trigger] copies@[k] == copy_of(u, k),
            forall|k: int| 0 <= k < i ==> #[trigger] firsts@[k] == is_first_use(u, k),
        decreases uses.len() - i,
    {
        assert(u[i as int] == uses@[i as int]@);
        let mut earlier: Option<usize> = None;
        let mut k: usize = 0;
        while k < i && earlier.is_none()
            invariant
                k <= i < uses@.len(),
                u == uses.deep_view(),
                match earlier {
                    Some(e) => e < i && u[e as int] == u[i as int],
                    None => forall|m: int| 0 <= m < k ==> #[trigger] u[m] != u[i as int],
                },
            decreases i - k + (if earlier.is_none() {
                1int
            } else {
                0int
            }),
        {
            assert(u[k as int] == uses@[k as int]@);
            if same_use(&uses[k], &uses[i]) {
                earlier = Some(k);
            } else {
                k += 1;
            }
        }
        match earlier {
            Some(e) => {
                proof {
                    lemma_same_first(u, e as int, i as int);
                }
                let copy = copies[e];
                copies.push(copy);
                firsts.push(false);
                assert(!is_first_use(u, i as int)) by {
                    assert(u[e as int] == u[i as int]);
                }
            },
            None => {
                proof {
                    lemma_first_use_of_first(u, i as int);
                }
                let mut count: usize = 0;
                let mut m: usize = 0;
                while m < i
                    invariant
                        m <= i < uses@.len(),
                        u == uses.deep_view(),
                        firsts@.len() == i,
                        forall|k: int| 0 <= k < i ==> #[trigger] firsts@[k] == is_first_use(u, k),
                        count == copies_before(u, u[i as int].id, m as int),
                        count <= m,
                    decreases i - m,
                {
                    assert(u[m as int] == uses@[m as int]@);
                    if firsts[m] && uses[m].id.same(&uses[i].id) {
                        count += 1;
                    }
                    m += 1;
                }
                copies.push(count);
                firsts.push(true);
            },
        }
        i += 1;
    }
    copies
}

/// The dependency at place `j` of the package is the first of the name.
pub open spec fn is_dependency_at(p: SnapshotPackageView, name: Seq<char>, j: int) -> bool {
    &&& 0 <= j < p.dependencies.len()
    &&& p.dependencies[j].0 == name
    &&& forall|k: int| 0 <= k < j ==> (#[trigger] p.dependencies[k]).0 != name
}

/// Whether the package at place `m` of the snapshot has a dependency of the
/// name.
pub open spec fn provides(s: SnapshotView, m: usize, name: Seq<char>) -> bool {
    m < s.packages.len() && exists|j: int| is_dependency_at(s.packages[m as int], name, j)
}

/// What the package at place `m` resolves its dependency of the name to.
pub open spec fn provided(s: SnapshotView, m: usize, name: Seq<char>) -> PackageIdView {
    let p = s.packages[m as int];
    p.dependencies[choose|j: int| is_dependency_at(p, name, j)].1
}

/// The dependent at place `i` of the chain is the nearest that provides the
/// peer: it has a dependency of the name, and none behind it in the chain
/// has.
pub open spec fn is_nearest(s: SnapshotView, chain: Seq<usize>, name: Seq<char>, i: int) -> bool {
    &&& 0 <= i < chain.len()
    &&& provides(s, chain[i], name)
    &&& forall|k: int| i < k < chain.len() ==> !provides(s, #[trigger] chain[k], name)
}

/// What a peer dependency resolves to for a package that is reached along a
/// chain of dependents, the root first and the direct dependent last: what
/// the nearest dependent that has a dependency of the peer's name resolves
/// that dependency to. Where none has one, the chain resolves the peer to
/// nothing.
pub fn peer_resolution(snapshot: &Snapshot, chain: &Vec<usize>, name: &str) -> (r: Option<PackageId>)
    ensures
        match r {
            Some(id) => exists|i: int|
                is_nearest(snapshot@, chain@, name@, i) && id@ == provided(
                    snapshot@,
                    #[trigger] chain@[i],
                    name@,
                ),
            None => forall|k: int|
                0 <= k < chain@.len() ==> !provides(snapshot@, #[trigger] chain@[k], name@),
        },
{
    let wanted = String::from_str(name);
    let ghost s = snapshot@;
    let mut i: usize = chain.len();
    while i > 0
        invariant
            i <= chain@.len(),
            s == snapshot@,
            wanted@ == name@,
            forall|k: int| i <= k < chain@.len() ==> !provides(s, #[trigger] chain@[k], name@),
        decreases i,
    {
        i -= 1;
        let m = chain[i];
        if m < snapshot.packages.len() {
            assert(s.packages[m as int] == snapshot.packages@[m as int]@);
            let package = &snapshot.packages[m];
            let ghost p = s.packages[m as int];
            let mut j: usize = 0;
            let mut found: Option<PackageId> = None;
            while j < package.dependencies.len() && found.is_none()
                invariant
                    j <= package.dependencies@.len(),
                    p == package@,
                    wanted@ == name@,
                    match found {
                        Some(id) => exists|at: int|
                            is_dependency_at(p, name@, at) && id@ == p.dependencies[at].1,
                        None => forall|k: int| 0 <= k < j ==> (#[trigger] p.dependencies[k]).0 != name@,
                    },
                decreases package.dependencies.len() - j + (if found.is_none() {
                    1int
                } else {
                    0int
                }),
            {
                assert(p.dependencies[j as int] == (
                    package.dependencies@[j as int].0@,
                    package.dependencies@[j as int].1@,
                ));
                if package.dependencies[j].0 == wanted {
                    found = Some(package.dependencies[j].1.clone());
                    assert(is_dependency_at(p, name@, j as int));
                } else {
                    j += 1;
                }
            }
            match found {
                Some(id) => {
                    proof {
                        let at = choose|at: int|
                            is_dependency_at(p, name@, at) && id@ == p.dependencies[at].1;
                        let chosen = choose|c: int| is_dependency_at(p, name@, c);
                        if chosen < at {
                            assert(p.dependencies[chosen].0 != name@);
                        }
                        if at < chosen {
                            assert(p.dependencies[at].0 != name@);
                        }
                        assert(provides(s, m, name@));
                        assert(is_nearest(s, chain@, name@, i as int));
                    }
                    return Some(id);
                },
                None => {
                    proof {
                        if provides(s, m, name@) {
                            let c = choose|c: int| is_dependency_at(p, name@, c);
                            assert(p.dependencies[c].0 != name@);
                        }
                    }
                },
            }
        }
    }
    None
}

} // verus!

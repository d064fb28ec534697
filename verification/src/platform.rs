//! Which packages may be installed on which machine: the `os` and `cpu`
//! lists of a package against the machine at hand.
use vstd::prelude::*;
use vstd::string::*;
use crate::text::chars_of;

verus! {

/// The machine that packages are installed for.
pub struct Platform {
    pub os: String,
    pub cpu: String,
}

pub struct PlatformView {
    pub os: Seq<char>,
    pub cpu: Seq<char>,
}

impl View for Platform {
    type V = PlatformView;

    open spec fn view(&self) -> PlatformView {
        PlatformView { os: self.os@, cpu: self.cpu@ }
    }
}

/// What a package asks of the machine it is installed on.
pub struct Constraints {
    pub os: Vec<String>,
    pub cpu: Vec<String>,
}

pub struct ConstraintsView {
    pub os: Seq<Seq<char>>,
    pub cpu: Seq<Seq<char>>,
}

impl View for Constraints {
    type V = ConstraintsView;

    open spec fn view(&self) -> ConstraintsView {
        ConstraintsView { os: self.os.deep_view(), cpu: self.cpu.deep_view() }
    }
}

impl DeepView for Constraints {
    type V = ConstraintsView;

    open spec fn deep_view(&self) -> ConstraintsView {
        self@
    }
}

/// An entry that begins with `!` excludes what follows the `!`.
pub open spec fn is_exclusion(entry: Seq<char>) -> bool {
    entry.len() >= 1 && entry[0] == '!'
}

/// A list allows a value unless it excludes it; a list that holds anything
/// but exclusions allows only what it names.
pub open spec fn list_allows(list: Seq<Seq<char>>, value: Seq<char>) -> bool {
    &&& !list.contains(seq!['!'] + value)
    &&& (list.contains(value) || forall|i: int|
        0 <= i < list.len() ==> is_exclusion(#[trigger] list[i]))
}

/// A package may be installed where both of its lists allow the machine.
pub open spec fn allows(c: ConstraintsView, p: PlatformView) -> bool {
    list_allows(c.os, p.os) && list_allows(c.cpu, p.cpu)
}

fn exclusion(entry: &String) -> (b: bool)
    ensures
        b == is_exclusion(entry@),
{
    let chars = chars_of(entry.as_str());
    chars.len() >= 1 && chars[0] == '!'
}

/// Whether the list allows the value.
pub fn list_allows_value(list: &Vec<String>, value: &String) -> (b: bool)
    ensures
        b == list_allows(list.deep_view(), value@),
{
    let mut excluded = String::from_str("!");
    excluded.append(value.as_str());
    proof {
        reveal_strlit("!");
        assert(excluded@ =~= seq!['!'] + value@);
    }
    let ghost l = list.deep_view();
    let mut named = false;
    let mut only_exclusions = true;
    let mut i: usize = 0;
    while i < list.len()
        invariant
            i <= list@.len(),
            l == list.deep_view(),
            excluded@ == seq!['!'] + value@,
            !l.take(i as int).contains(excluded@),
            named == l.take(i as int).contains(value@),
            only_exclusions == (forall|k: int| 0 <= k < i ==> is_exclusion(#[trigger] l[k])),
        decreases list.len() - i,
    {
        let entry = &list[i];
        assert(l[i as int] == entry@);
        proof {
            let before = l.take(i as int);
            let after = l.take(i + 1);
            assert(after =~= before.push(entry@));
            assert forall|x: Seq<char>| after.contains(x) == (before.contains(x) || x == entry@) by {
                if before.contains(x) {
                    let k = choose|k: int| 0 <= k < before.len() && before[k] == x;
                    assert(after[k] == x);
                }
                if x == entry@ {
                    assert(after[i as int] == x);
                }
                if after.contains(x) {
                    let k = choose|k: int| 0 <= k < after.len() && after[k] == x;
                    if k < i {
                        assert(before[k] == x);
                    }
                }
            }
        }
        if *entry == excluded {
            proof {
                assert(l[i as int] == excluded@);
                assert(l.contains(excluded@));
            }
            return false;
        }
        if *entry == *value {
            named = true;
        }
        if !exclusion(entry) {
            only_exclusions = false;
        }
        i += 1;
    }
    assert(l.take(i as int) =~= l);
    named || only_exclusions
}

impl Constraints {
    /// Whether a package with these constraints may be installed on the
    /// machine.
    pub fn allow(&self, platform: &Platform) -> (b: bool)
        ensures
            b == allows(self@, platform@),
    {
        list_allows_value(&self.os, &platform.os) && list_allows_value(&self.cpu, &platform.cpu)
    }
}

/// The places of the variants that may be installed: in rising order, each
/// allowed, none that is allowed left out.
pub open spec fn is_selection(
    variants: Seq<ConstraintsView>,
    platform: PlatformView,
    selected: Seq<usize>,
) -> bool {
    &&& forall|k: int|
        0 <= k < selected.len() ==> (#[trigger] selected[k]) < variants.len() && allows(
            variants[selected[k] as int],
            platform,
        )
    &&& forall|j: int, k: int| 0 <= j < k < selected.len() ==> selected[j] < selected[k]
    &&& forall|i: int|
        0 <= i < variants.len() && allows(#[trigger] variants[i], platform) ==> selected.contains(
            i as usize,
        )
}

/// Of the variants of a package, those that are installed on the machine:
/// exactly the ones that allow it. The others are skipped, which is no
/// failure.
pub fn select_variants(variants: &Vec<Constraints>, platform: &Platform) -> (selected: Vec<usize>)
    ensures
        is_selection(variants.deep_view(), platform@, selected@),
{
    let mut selected: Vec<usize> = Vec::new();
    let ghost v = variants.deep_view();
    let mut i: usize = 0;
    while i < variants.len()
        invariant
            i <= variants@.len(),
            v == variants.deep_view(),
            forall|k: int|
                0 <= k < selected@.len() ==> (#[trigger] selected@[k]) < i && allows(
                    v[selected@[k] as int],
                    platform@,
                ),
            forall|j: int, k: int| 0 <= j < k < selected@.len() ==> selected@[j] < selected@[k],
            forall|m: int|
                0 <= m < i && allows(#[trigger] v[m], platform@) ==> selected@.contains(m as usize),
        decreases variants.len() - i,
    {
        assert(v[i as int] == variants@[i as int]@);
        if variants[i].allow(platform) {
            let ghost before = selected@;
            selected.push(i);
            proof {
                assert forall|m: int|
                    0 <= m < i + 1 && allows(#[trigger] v[m], platform@) implies selected@.contains(
                    m as usize,
                ) by {
                    if m < i {
                        let k = choose|k: int| 0 <= k < before.len() && before[k] == m as usize;
                        assert(selected@[k] == m as usize);
                    } else {
                        assert(selected@[before.len() as int] == i);
                    }
                }
            }
        }
        i += 1;
    }
    selected
}

/// Where exactly one variant allows the machine, exactly that one is
/// installed: the selection holds its place and nothing else.
pub proof fn lemma_one_variant(
    variants: Seq<ConstraintsView>,
    platform: PlatformView,
    selected: Seq<usize>,
    only: int,
)
    requires
        is_selection(variants, platform, selected),
        0 <= only < variants.len(),
        allows(variants[only], platform),
        forall|i: int|
            0 <= i < variants.len() && i != only ==> !allows(#[trigger] variants[i], platform),
    ensures
        selected == seq![only as usize],
{
    assert(selected.contains(only as usize));
    assert forall|k: int| 0 <= k < selected.len() implies selected[k] == only as usize by {
        let i = selected[k] as int;
        assert(allows(variants[i], platform));
    }
    if selected.len() >= 2 {
        assert(selected[0] < selected[1]);
    }
    assert(selected =~= seq![only as usize]);
}

/// Where no variant allows the machine, none is installed.
pub proof fn lemma_no_variant(
    variants: Seq<ConstraintsView>,
    platform: PlatformView,
    selected: Seq<usize>,
)
    requires
        is_selection(variants, platform, selected),
        forall|i: int| 0 <= i < variants.len() ==> !allows(#[trigger] variants[i], platform),
    ensures
        selected.len() == 0,
{
    if selected.len() > 0 {
        let i = selected[0] as int;
        assert(allows(variants[i], platform));
    }
}

} // verus!

//! Helpers on strings, seen as sequences of characters.
use vstd::prelude::*;
use vstd::string::*;

verus! {

/// The characters of `s`, in order.
pub fn chars_of(s: &str) -> (v: Vec<char>)
    ensures
        v@ == s@,
{
    let mut v: Vec<char> = Vec::new();
    for c in it: s.chars()
        invariant
            v@ == it.seq().take(it.index()),
    {
        v.push(c);
    }
    v
}

/// The characters of `s` from position `from` up to, not including, `to`.
pub(crate) fn substring(s: &str, from: usize, to: usize) -> (r: String)
    requires
        from <= to <= s@.len(),
    ensures
        r@ == s@.subrange(from as int, to as int),
{
    String::from_str(s.substring_char(from, to))
}

/// Whether `c` occurs in `s` at a position in `from..to`.
pub open spec fn occurs_in(s: Seq<char>, c: char, from: int, to: int) -> bool {
    exists|j: int| from <= j < to && s[j] == c
}

/// The position of the first `c` in `v` at or after `from`, if there is one.
pub(crate) fn find_char(v: &Vec<char>, c: char, from: usize) -> (r: Option<usize>)
    ensures
        match r {
            Some(i) => from <= i < v@.len() && v@[i as int] == c && !occurs_in(
                v@,
                c,
                from as int,
                i as int,
            ),
            None => !occurs_in(v@, c, from as int, v@.len() as int),
        },
{
    let mut i: usize = from;
    while i < v.len()
        invariant
            from <= i,
            !occurs_in(v@, c, from as int, i as int),
        decreases v.len() - i,
    {
        if v[i] == c {
            return Some(i);
        }
        i += 1;
    }
    None
}

/// The position of the first `c` in `v` at or after `from`, or the length of
/// `v` if there is none.
pub(crate) fn find_from(v: &Vec<char>, c: char, from: usize) -> (i: usize)
    requires
        from <= v@.len(),
    ensures
        from <= i <= v@.len(),
        !occurs_in(v@, c, from as int, i as int),
        i < v@.len() ==> v@[i as int] == c,
{
    match find_char(v, c, from) {
        Some(i) => i,
        None => v.len(),
    }
}

/// The position of the first `c` in `chars[from..to]`, or `to`.
pub(crate) fn find_in(chars: &Vec<char>, c: char, from: usize, to: usize) -> (i: usize)
    requires
        from <= to <= chars@.len(),
    ensures
        from <= i <= to,
        !occurs_in(chars@, c, from as int, i as int),
        i < to ==> chars@[i as int] == c,
{
    let i = find_from(chars, c, from);
    if i < to {
        i
    } else {
        assert(!occurs_in(chars@, c, from as int, to as int)) by {
            if occurs_in(chars@, c, from as int, to as int) {
                let j = choose|j: int| from <= j < to && chars@[j] == c;
                assert(from <= j < i && chars@[j] == c);
            }
        }
        to
    }
}

/// A character occurs in a stretch of a part of a text exactly if it occurs
/// in the same stretch of the whole.
pub proof fn lemma_occurs_in_part(full: Seq<char>, c: char, from: int, to: int, a: int, b: int)
    requires
        0 <= from <= a <= b <= to <= full.len(),
    ensures
        occurs_in(full.subrange(from, to), c, a - from, b - from) == occurs_in(full, c, a, b),
{
    let s = full.subrange(from, to);
    if occurs_in(s, c, a - from, b - from) {
        let j = choose|j: int| a - from <= j < b - from && s[j] == c;
        assert(a <= j + from < b && full[j + from] == c);
    }
    if occurs_in(full, c, a, b) {
        let j = choose|j: int| a <= j < b && full[j] == c;
        assert(a - from <= j - from < b - from && s[j - from] == c);
    }
}

/// Whether `c` occurs in `chars[from..to]`.
pub(crate) fn contains_in(chars: &Vec<char>, c: char, from: usize, to: usize) -> (b: bool)
    requires
        from <= to <= chars@.len(),
    ensures
        b == occurs_in(chars@, c, from as int, to as int),
{
    let i = find_in(chars, c, from, to);
    if i < to {
        assert(from <= i < to && chars@[i as int] == c);
    }
    i < to
}

/// The position of the first `c` in `s`, or the length of `s` if there is none.
pub open spec fn first_index(s: Seq<char>, c: char) -> int
    decreases s.len(),
{
    if s.len() == 0 {
        0
    } else if s[0] == c {
        0
    } else {
        1 + first_index(s.drop_first(), c)
    }
}

/// `first_index` is the one position before which `c` does not occur and at
/// which it does, or the length.
pub proof fn lemma_first_index(s: Seq<char>, c: char, i: int)
    requires
        0 <= i <= s.len(),
        !occurs_in(s, c, 0, i),
        i < s.len() ==> s[i] == c,
    ensures
        first_index(s, c) == i,
    decreases s.len(),
{
    if s.len() == 0 {
    } else if i == 0 {
    } else {
        assert(s[0] != c) by {
            if s[0] == c {
                assert(0 <= 0 < i && s[0] == c);
            }
        }
        let t = s.drop_first();
        assert(!occurs_in(t, c, 0, i - 1)) by {
            if occurs_in(t, c, 0, i - 1) {
                let j = choose|j: int| 0 <= j < i - 1 && t[j] == c;
                assert(0 <= j + 1 < i && s[j + 1] == c);
            }
        }
        lemma_first_index(t, c, i - 1);
    }
}

/// The position of the first `c` in `chars[from..to]`, or `to`, as
/// `first_index` counts it within that part.
pub(crate) fn first_index_in(chars: &Vec<char>, c: char, from: usize, to: usize) -> (i: usize)
    requires
        from <= to <= chars@.len(),
    ensures
        from <= i <= to,
        i - from == first_index(chars@.subrange(from as int, to as int), c),
        i < to ==> chars@[i as int] == c,
{
    let i = find_in(chars, c, from, to);
    proof {
        lemma_occurs_in_part(chars@, c, from as int, to as int, from as int, i as int);
        lemma_first_index(chars@.subrange(from as int, to as int), c, i - from);
    }
    i
}

/// The pieces of `s` between occurrences of `sep`: one more piece than there
/// are separators, so an empty text has the one empty piece.
pub open spec fn split_seq(s: Seq<char>, sep: char) -> Seq<Seq<char>>
    decreases s.len(),
{
    if s.len() == 0 {
        seq![Seq::<char>::empty()]
    } else {
        let before = split_seq(s.drop_last(), sep);
        if s.last() == sep {
            before.push(Seq::<char>::empty())
        } else {
            before.update(before.len() - 1, before.last().push(s.last()))
        }
    }
}

/// The pieces of a text are never none.
pub proof fn lemma_split_nonempty(s: Seq<char>, sep: char)
    ensures
        split_seq(s, sep).len() >= 1,
    decreases s.len(),
{
    if s.len() > 0 {
        lemma_split_nonempty(s.drop_last(), sep);
    }
}

/// Splits `s` at every `sep`.
pub fn split(s: &str, sep: char) -> (parts: Vec<String>)
    ensures
        parts.deep_view() == split_seq(s@, sep),
{
    let chars = chars_of(s);
    let mut parts: Vec<String> = Vec::new();
    let mut start: usize = 0;
    let mut i: usize = 0;
    proof {
        assert(s@.take(0).len() == 0);
        assert(parts.deep_view().push(s@.subrange(0, 0)) =~~= seq![Seq::<char>::empty()]);
    }
    while i < chars.len()
        invariant
            chars@ == s@,
            start <= i <= chars@.len(),
            split_seq(s@.take(i as int), sep) == parts.deep_view().push(
                s@.subrange(start as int, i as int),
            ),
        decreases chars.len() - i,
    {
        proof {
            let t = s@.take(i as int + 1);
            assert(t.drop_last() == s@.take(i as int));
            assert(t.last() == s@[i as int]);
            lemma_split_nonempty(s@.take(i as int), sep);
        }
        if chars[i] == sep {
            let piece = substring(s, start, i);
            let ghost before = parts.deep_view();
            parts.push(piece);
            start = i + 1;
            proof {
                assert(parts.deep_view() =~~= before.push(piece@));
                assert(s@.subrange(start as int, i as int + 1) =~= Seq::<char>::empty());
            }
        } else {
            proof {
                let cur = s@.subrange(start as int, i as int);
                let p = parts.deep_view().push(cur);
                assert(cur.push(s@[i as int]) =~= s@.subrange(start as int, i as int + 1));
                assert(p.update(p.len() - 1, p.last().push(s@[i as int]))
                    =~~= parts.deep_view().push(s@.subrange(start as int, i as int + 1)));
            }
        }
        i += 1;
    }
    let piece = substring(s, start, i);
    let ghost before = parts.deep_view();
    parts.push(piece);
    proof {
        assert(parts.deep_view() =~~= before.push(piece@));
        assert(s@.take(i as int) =~= s@);
    }
    parts
}

/// Whether `s` begins with `prefix`.
pub open spec fn starts_with(s: Seq<char>, prefix: Seq<char>) -> bool {
    prefix.len() <= s.len() && s.take(prefix.len() as int) == prefix
}

/// Whether `s` ends with `suffix`.
pub open spec fn ends_with(s: Seq<char>, suffix: Seq<char>) -> bool {
    suffix.len() <= s.len() && s.skip(s.len() - suffix.len()) == suffix
}

/// Whether `s[at..]` begins with `part[from..to]`.
pub(crate) fn matches_at(s: &Vec<char>, at: usize, part: &Vec<char>, from: usize, to: usize) -> (b: bool)
    requires
        from <= to <= part@.len(),
        at <= s@.len(),
    ensures
        b == starts_with(s@.skip(at as int), part@.subrange(from as int, to as int)),
{
    let n = to - from;
    if s.len() - at < n {
        return false;
    }
    let ghost rest = s@.skip(at as int);
    let ghost wanted = part@.subrange(from as int, to as int);
    let mut i: usize = 0;
    while i < n
        invariant
            i <= n == to - from,
            from <= to <= part@.len(),
            at + n <= s@.len() <= usize::MAX,
            rest == s@.skip(at as int),
            wanted == part@.subrange(from as int, to as int),
            forall|k: int| 0 <= k < i ==> rest[k] == wanted[k],
        decreases n - i,
    {
        if s[at + i] != part[from + i] {
            assert(rest.take(n as int)[i as int] != wanted[i as int]);
            return false;
        }
        i += 1;
    }
    assert(rest.take(n as int) =~= wanted);
    true
}

/// Whether `s` begins with `prefix`.
pub(crate) fn has_prefix(s: &Vec<char>, prefix: &Vec<char>) -> (b: bool)
    ensures
        b == starts_with(s@, prefix@),
{
    assert(s@.skip(0) =~= s@);
    assert(prefix@.subrange(0, prefix@.len() as int) =~= prefix@);
    matches_at(s, 0, prefix, 0, prefix.len())
}

/// Whether `s` ends with `suffix[from..]`.
pub(crate) fn has_suffix_from(s: &Vec<char>, suffix: &Vec<char>, from: usize) -> (b: bool)
    requires
        from <= suffix@.len(),
    ensures
        b == ends_with(s@, suffix@.skip(from as int)),
{
    let n = suffix.len() - from;
    if s.len() < n {
        return false;
    }
    assert(suffix@.skip(from as int) =~= suffix@.subrange(from as int, suffix@.len() as int));
    assert(s@.skip(s@.len() - n).take(n as int) =~= s@.skip(s@.len() - n));
    matches_at(s, s.len() - n, suffix, from, suffix.len())
}

/// Whether the list holds the text.
pub fn holds_text(list: &Vec<String>, text: &String) -> (b: bool)
    ensures
        b == list.deep_view().contains(text@),
{
    let mut i: usize = 0;
    while i < list.len()
        invariant
            i <= list@.len(),
            forall|k: int| 0 <= k < i ==> (#[trigger] list.deep_view()[k]) != text@,
        decreases list.len() - i,
    {
        assert(list.deep_view()[i as int] == list@[i as int]@);
        if list[i] == *text {
            return true;
        }
        i += 1;
    }
    false
}

} // verus!

//! Paths with `/` between their segments, brought into the form in which a
//! file is named once: from the root, without `.`, `..` and empty segments.
use vstd::prelude::*;
use vstd::string::*;
use crate::text::{split, split_seq};

verus! {

/// Whether a segment names nothing: the empty one, and `.`.
pub open spec fn is_idle(segment: Seq<char>) -> bool {
    segment.len() == 0 || segment == seq!['.']
}

/// Whether a segment is `..`, which leads to the directory above.
pub open spec fn is_up(segment: Seq<char>) -> bool {
    segment == seq!['.', '.']
}

/// The segments that are left when each `..` takes the segment before it
/// with it, and idle segments are dropped. Above the root there is nothing:
/// a `..` with no segment before it is dropped.
pub open spec fn folded(segments: Seq<Seq<char>>) -> Seq<Seq<char>>
    decreases segments.len(),
{
    if segments.len() == 0 {
        Seq::empty()
    } else {
        let before = folded(segments.drop_last());
        let last = segments.last();
        if is_idle(last) {
            before
        } else if is_up(last) {
            if before.len() > 0 {
                before.drop_last()
            } else {
                before
            }
        } else {
            before.push(last)
        }
    }
}

/// The segments written one behind the other, a `/` before each.
pub open spec fn written(segments: Seq<Seq<char>>) -> Seq<char>
    decreases segments.len(),
{
    if segments.len() == 0 {
        Seq::empty()
    } else {
        written(segments.drop_last()) + seq!['/'] + segments.last()
    }
}

/// The path of the segments from the root: `/` for none.
pub open spec fn path_of(segments: Seq<Seq<char>>) -> Seq<char> {
    if segments.len() == 0 {
        seq!['/']
    } else {
        written(segments)
    }
}

/// The path in its one form.
pub open spec fn normal_form(path: Seq<char>) -> Seq<char> {
    path_of(folded(split_seq(path, '/')))
}

/// The path that `relative` leads to from the directory `dir`: the one form
/// of `dir`, a `/`, and `relative`. A `relative` that begins with `/` leads
/// from the root.
pub open spec fn joined(dir: Seq<char>, relative: Seq<char>) -> Seq<char> {
    if relative.len() > 0 && relative[0] == '/' {
        normal_form(relative)
    } else {
        normal_form(dir + seq!['/'] + relative)
    }
}

fn idle(segment: &String) -> (b: bool)
    ensures
        b == is_idle(segment@),
{
    proof {
        reveal_strlit(".");
        reveal_strlit("");
        assert("."@ =~= seq!['.']);
        assert(""@ =~= Seq::<char>::empty());
    }
    let b = *segment == String::from_str("") || *segment == String::from_str(".");
    proof {
        if segment@.len() == 0 {
            assert(segment@ =~= Seq::<char>::empty());
        }
    }
    b
}

fn up(segment: &String) -> (b: bool)
    ensures
        b == is_up(segment@),
{
    proof {
        reveal_strlit("..");
        assert(".."@ =~= seq!['.', '.']);
    }
    *segment == String::from_str("..")
}

/// The path in its one form.
pub fn normalize(path: &str) -> (out: String)
    ensures
        out@ == normal_form(path@),
{
    let segments = split(path, '/');
    let ghost all = segments.deep_view();
    let mut kept: Vec<String> = Vec::new();
    let mut i: usize = 0;
    assert(all.take(0) =~= Seq::empty());
    assert(kept.deep_view() =~= folded(all.take(0)));
    while i < segments.len()
        invariant
            i <= segments@.len(),
            all == segments.deep_view(),
            kept.deep_view() == folded(all.take(i as int)),
        decreases segments.len() - i,
    {
        assert(all[i as int] == segments@[i as int]@);
        proof {
            let now = all.take(i + 1);
            assert(now.drop_last() =~= all.take(i as int));
            assert(now.last() == all[i as int]);
        }
        let ghost before = kept.deep_view();
        if idle(&segments[i]) {
        } else if up(&segments[i]) {
            if kept.len() > 0 {
                kept.pop();
                assert(kept.deep_view() =~= before.drop_last());
            }
        } else {
            kept.push(segments[i].clone());
            assert(kept.deep_view() =~= before.push(all[i as int]));
        }
        i += 1;
    }
    assert(all.take(i as int) =~= all);
    let ghost parts = kept.deep_view();
    if kept.len() == 0 {
        proof {
            reveal_strlit("/");
            assert("/"@ =~= seq!['/']);
        }
        return String::from_str("/");
    }
    let mut out = String::new();
    let mut k: usize = 0;
    assert(parts.take(0) =~= Seq::empty());
    while k < kept.len()
        invariant
            k <= kept@.len(),
            parts == kept.deep_view(),
            out@ == written(parts.take(k as int)),
        decreases kept.len() - k,
    {
        assert(parts[k as int] == kept@[k as int]@);
        proof {
            let now = parts.take(k + 1);
            assert(now.drop_last() =~= parts.take(k as int));
            assert(now.last() == parts[k as int]);
            reveal_strlit("/");
            assert("/"@ =~= seq!['/']);
        }
        out.append("/");
        out.append(kept[k].as_str());
        k += 1;
    }
    assert(parts.take(k as int) =~= parts);
    out
}

/// The path that `relative` leads to from the directory `dir`.
pub fn join(dir: &str, relative: &str) -> (out: String)
    ensures
        out@ == joined(dir@, relative@),
{
    let lead = relative.unicode_len() > 0 && relative.get_char(0) == '/';
    if lead {
        normalize(relative)
    } else {
        let mut whole = String::from_str(dir);
        whole.append("/");
        whole.append(relative);
        proof {
            reveal_strlit("/");
            assert("/"@ =~= seq!['/']);
        }
        normalize(whole.as_str())
    }
}

/// The directory that holds the file or directory of a path: where `..`
/// leads from it.
pub fn directory(path: &str) -> (out: String)
    ensures
        out@ == joined(path@, ".."@),
{
    join(path, "..")
}

} // verus!

//! Versions of packages: three numbers, ordered from the left.
use vstd::prelude::*;
use vstd::string::*;
use crate::decimal::{append_decimal, decimal_text, is_digit, lemma_decimal_text, parse_decimal};
use crate::text::{chars_of, find_in, lemma_occurs_in_part, occurs_in};

verus! {

/// A version `major.minor.patch`.
#[derive(Debug, PartialEq, Eq, Structural, Clone, Copy, Hash)]
pub struct Version {
    pub major: u64,
    pub minor: u64,
    pub patch: u64,
}

impl View for Version {
    type V = Version;

    open spec fn view(&self) -> Version {
        *self
    }
}

impl DeepView for Version {
    type V = Version;

    open spec fn deep_view(&self) -> Version {
        *self
    }
}

/// The text `major.minor.patch`, each number in decimal digits.
pub open spec fn version_text(v: Version) -> Seq<char> {
    decimal_text(v.major as nat) + seq!['.'] + decimal_text(v.minor as nat) + seq!['.']
        + decimal_text(v.patch as nat)
}

impl Version {
    /// `self` comes before `other`: at the first number in which they differ,
    /// `self` has the smaller one.
    pub open spec fn lt(self, other: Version) -> bool {
        ||| self.major < other.major
        ||| (self.major == other.major && self.minor < other.minor)
        ||| (self.major == other.major && self.minor == other.minor && self.patch < other.patch)
    }

    pub open spec fn le(self, other: Version) -> bool {
        self.lt(other) || self == other
    }

    pub fn new(major: u64, minor: u64, patch: u64) -> (v: Version)
        ensures
            v == (Version { major, minor, patch }),
    {
        Version { major, minor, patch }
    }

    /// Whether `self` comes before `other`.
    pub fn is_before(&self, other: &Version) -> (b: bool)
        ensures
            b == self.lt(*other),
    {
        if self.major != other.major {
            self.major < other.major
        } else if self.minor != other.minor {
            self.minor < other.minor
        } else {
            self.patch < other.patch
        }
    }

    /// Whether `self` comes before `other` or is `other`.
    pub fn is_at_most(&self, other: &Version) -> (b: bool)
        ensures
            b == self.le(*other),
    {
        !other.is_before(self)
    }

    /// Writes the version at the end of `out`.
    pub fn append_to(&self, out: &mut String)
        ensures
            final(out)@ == old(out)@ + version_text(*self),
    {
        append_decimal(out, self.major);
        out.append(".");
        append_decimal(out, self.minor);
        out.append(".");
        append_decimal(out, self.patch);
        proof {
            reveal_strlit(".");
            assert("."@ =~= seq!['.']);
            assert(final(out)@ =~= old(out)@ + version_text(*self));
        }
    }

    /// The text `major.minor.patch`.
    pub fn to_text(&self) -> (text: String)
        ensures
            text@ == version_text(*self),
    {
        let mut text = String::new();
        self.append_to(&mut text);
        assert(Seq::<char>::empty() + version_text(*self) =~= version_text(*self));
        text
    }

    /// Reads a version from its text. Only the text that `to_text` writes is
    /// accepted: three numbers without sign or leading zeros, two dots.
    pub fn parse(s: &str) -> (r: Option<Version>)
        ensures
            match r {
                Some(v) => version_text(v) == s@,
                None => forall|v: Version| #[trigger] version_text(v) != s@,
            },
    {
        let chars = chars_of(s);
        assert(chars@.subrange(0, chars@.len() as int) =~= s@);
        parse_version_in(&chars, 0, chars.len())
    }
}

/// The order of versions is total: of two different versions one comes before
/// the other, and never both.
pub proof fn lemma_version_order(a: Version, b: Version)
    ensures
        a.lt(b) || b.lt(a) || a == b,
        !(a.lt(b) && b.lt(a)),
        !a.lt(a),
{
}

/// What comes before something that comes before a third comes before the
/// third.
pub proof fn lemma_version_order_transitive(a: Version, b: Version, c: Version)
    requires
        a.le(b),
        b.le(c),
    ensures
        a.le(c),
        a.lt(b) || b.lt(c) ==> a.lt(c),
{
}

/// Where the numbers and dots of a version's text stand.
pub proof fn lemma_version_text_shape(v: Version)
    ensures
        ({
            let a = decimal_text(v.major as nat);
            let b = decimal_text(v.minor as nat);
            let c = decimal_text(v.patch as nat);
            let la = a.len() as int;
            let lb = b.len() as int;
            let t = version_text(v);
            &&& t.len() == la + lb + c.len() + 2
            &&& la >= 1 && lb >= 1 && c.len() >= 1
            &&& t.subrange(0, la) == a
            &&& t[la] == '.'
            &&& t.subrange(la + 1, la + 1 + lb) == b
            &&& t[la + 1 + lb] == '.'
            &&& t.subrange(la + lb + 2, t.len() as int) == c
            &&& !occurs_in(t, '.', 0, la)
            &&& !occurs_in(t, '.', la + 1, la + 1 + lb)
            &&& !occurs_in(t, '.', la + lb + 2, t.len() as int)
        }),
{
    let a = decimal_text(v.major as nat);
    let b = decimal_text(v.minor as nat);
    let c = decimal_text(v.patch as nat);
    let la = a.len() as int;
    let lb = b.len() as int;
    let t = version_text(v);
    lemma_decimal_text(v.major as nat);
    lemma_decimal_text(v.minor as nat);
    lemma_decimal_text(v.patch as nat);
    assert(t.subrange(0, la) =~= a);
    assert(t.subrange(la + 1, la + 1 + lb) =~= b);
    assert(t.subrange(la + lb + 2, t.len() as int) =~= c);
    assert(!occurs_in(t, '.', 0, la)) by {
        assert forall|j: int| 0 <= j < la implies t[j] != '.' by {
            assert(t[j] == a[j] && is_digit(a[j]));
        }
    }
    assert(!occurs_in(t, '.', la + 1, la + 1 + lb)) by {
        assert forall|j: int| la + 1 <= j < la + 1 + lb implies t[j] != '.' by {
            assert(t[j] == b[j - la - 1] && is_digit(b[j - la - 1]));
        }
    }
    assert(!occurs_in(t, '.', la + lb + 2, t.len() as int)) by {
        assert forall|j: int| la + lb + 2 <= j < t.len() implies t[j] != '.' by {
            assert(t[j] == c[j - la - lb - 2] && is_digit(c[j - la - lb - 2]));
        }
    }
}

/// In the text of a version the first two dots part the three numbers.
pub proof fn lemma_version_text_parts(v: Version, s: Seq<char>, p1: int, p2: int)
    requires
        version_text(v) == s,
        0 <= p1 <= s.len(),
        !occurs_in(s, '.', 0, p1),
        p1 < s.len() ==> s[p1] == '.',
        p1 < s.len() ==> p1 < p2 <= s.len() && !occurs_in(s, '.', p1 + 1, p2) && (p2 < s.len()
            ==> s[p2] == '.'),
    ensures
        p1 < p2 < s.len(),
        s.subrange(0, p1) == decimal_text(v.major as nat),
        s.subrange(p1 + 1, p2) == decimal_text(v.minor as nat),
        s.subrange(p2 + 1, s.len() as int) == decimal_text(v.patch as nat),
{
    lemma_version_text_shape(v);
    let a = decimal_text(v.major as nat);
    let b = decimal_text(v.minor as nat);
    let q1 = a.len() as int;
    let q2 = q1 + 1 + b.len();
    assert(s[q1] == '.');
    assert(p1 == q1) by {
        if q1 < p1 {
            assert(0 <= q1 < p1 && s[q1] == '.');
        }
        if p1 < q1 {
            assert(0 <= p1 < q1 && s[p1] == '.');
        }
    }
    assert(s[q2] == '.');
    assert(p2 == q2) by {
        if q2 < p2 {
            assert(p1 + 1 <= q2 < p2 && s[q2] == '.');
        }
        if p2 < q2 {
            assert(q1 + 1 <= p2 < q2 && s[p2] == '.');
        }
    }
}

/// Two versions with one text are one version.
pub proof fn lemma_version_text_injective(v: Version, w: Version)
    requires
        version_text(v) == version_text(w),
    ensures
        v == w,
{
    lemma_version_text_shape(v);
    let a = decimal_text(v.major as nat);
    let b = decimal_text(v.minor as nat);
    let la = a.len() as int;
    lemma_version_text_parts(w, version_text(v), la, la + 1 + b.len());
    lemma_decimal_text(v.major as nat);
    lemma_decimal_text(v.minor as nat);
    lemma_decimal_text(v.patch as nat);
    lemma_decimal_text(w.major as nat);
    lemma_decimal_text(w.minor as nat);
    lemma_decimal_text(w.patch as nat);
}

/// Reads a version from `chars[from..to]`.
pub(crate) fn parse_version_in(chars: &Vec<char>, from: usize, to: usize) -> (r: Option<Version>)
    requires
        from <= to <= chars@.len(),
    ensures
        match r {
            Some(v) => version_text(v) == chars@.subrange(from as int, to as int),
            None => forall|v: Version| #[trigger]
                version_text(v) != chars@.subrange(from as int, to as int),
        },
{
    let ghost s = chars@.subrange(from as int, to as int);
    let d1 = find_in(chars, '.', from, to);
    let d2 = if d1 < to {
        find_in(chars, '.', d1 + 1, to)
    } else {
        to
    };
    proof {
        lemma_occurs_in_part(chars@, '.', from as int, to as int, from as int, d1 as int);
        if d1 < to {
            lemma_occurs_in_part(chars@, '.', from as int, to as int, d1 as int + 1, d2 as int);
        }
    }
    if d1 >= to || d2 >= to {
        assert forall|v: Version| #[trigger] version_text(v) != s by {
            if version_text(v) == s {
                lemma_version_text_parts(v, s, d1 - from, d2 - from);
            }
        }
        return None;
    }
    let major = parse_decimal(chars, from, d1);
    let minor = parse_decimal(chars, d1 + 1, d2);
    let patch = parse_decimal(chars, d2 + 1, to);
    proof {
        assert(s.subrange(0, d1 - from) =~= chars@.subrange(from as int, d1 as int));
        assert(s.subrange(d1 - from + 1, d2 - from) =~= chars@.subrange(
            d1 as int + 1,
            d2 as int,
        ));
        assert(s.subrange(d2 - from + 1, s.len() as int) =~= chars@.subrange(
            d2 as int + 1,
            to as int,
        ));
    }
    match (major, minor, patch) {
        (Some(major), Some(minor), Some(patch)) => {
            let v = Version { major, minor, patch };
            proof {
                assert(s[d1 - from] == '.' && s[d2 - from] == '.');
                assert(version_text(v) =~= s);
            }
            Some(v)
        },
        _ => {
            assert forall|v: Version| #[trigger] version_text(v) != s by {
                if version_text(v) == s {
                    lemma_version_text_parts(v, s, d1 - from, d2 - from);
                }
            }
            None
        },
    }
}

} // verus!

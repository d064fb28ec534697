//! Numbers written in decimal digits, without sign and without leading zeros.
use vstd::prelude::*;
use vstd::string::*;
use crate::text::chars_of;

verus! {

pub open spec fn is_digit(c: char) -> bool {
    '0' <= c && c <= '9'
}

/// The digit that stands for `d`, where `d < 10`.
pub open spec fn digit_char(d: nat) -> char {
    (d + 48) as char
}

pub open spec fn digit_value(c: char) -> nat {
    (c as nat - 48) as nat
}

/// The decimal digits of `n`: the shortest text whose value is `n`.
pub open spec fn decimal_text(n: nat) -> Seq<char>
    decreases n,
{
    if n < 10 {
        seq![digit_char(n)]
    } else {
        decimal_text(n / 10).push(digit_char(n % 10))
    }
}

/// The number that a text of digits stands for.
pub open spec fn decimal_value(s: Seq<char>) -> nat
    decreases s.len(),
{
    if s.len() == 0 {
        0
    } else {
        decimal_value(s.drop_last()) * 10 + digit_value(s.last())
    }
}

pub open spec fn all_digits(s: Seq<char>) -> bool {
    forall|i: int| 0 <= i < s.len() ==> is_digit(#[trigger] s[i])
}

/// Digits, at least one, and no zero in front of another digit.
pub open spec fn is_canonical(s: Seq<char>) -> bool {
    &&& s.len() >= 1
    &&& all_digits(s)
    &&& (s.len() > 1 ==> s[0] != '0')
}

/// The text of a number is canonical and stands for that number.
pub proof fn lemma_decimal_text(n: nat)
    ensures
        is_canonical(decimal_text(n)),
        decimal_value(decimal_text(n)) == n,
        n == 0 <==> decimal_text(n) == seq!['0'],
    decreases n,
{
    if n < 10 {
        let s = decimal_text(n);
        assert(s.drop_last() =~= Seq::<char>::empty());
        assert(decimal_value(s.drop_last()) == 0);
        assert(s[0] == digit_char(n));
        if n != 0 {
            assert(s[0] != '0');
        }
    } else {
        lemma_decimal_text(n / 10);
        let p = decimal_text(n / 10);
        let s = p.push(digit_char(n % 10));
        assert(s.drop_last() =~= p);
        assert(s[0] == p[0]);
        assert(p != seq!['0']);
        assert(p[0] != '0') by {
            if p.len() == 1 {
                assert(p =~= seq![p[0]]);
            }
        }
        assert(s.len() >= 2);
        assert(s != seq!['0']);
    }
}

/// A canonical text is the text of its value: no two texts stand for one
/// number.
pub proof fn lemma_canonical_text(s: Seq<char>)
    requires
        is_canonical(s),
    ensures
        decimal_text(decimal_value(s)) == s,
    decreases s.len(),
{
    if s.len() == 1 {
        assert(s.drop_last() =~= Seq::<char>::empty());
        assert(decimal_value(s.drop_last()) == 0);
        assert(is_digit(s[0]));
        assert(decimal_text(decimal_value(s)) =~= s);
    } else {
        let p = s.drop_last();
        assert(is_digit(s.last()));
        assert(is_canonical(p)) by {
            assert forall|i: int| 0 <= i < p.len() implies is_digit(#[trigger] p[i]) by {
                assert(p[i] == s[i]);
            }
            assert(p[0] == s[0]);
        }
        lemma_canonical_text(p);
        lemma_value_positive(p);
        let v = decimal_value(p);
        let d = digit_value(s.last());
        assert((v * 10 + d) / 10 == v && (v * 10 + d) % 10 == d) by (nonlinear_arith)
            requires
                d < 10,
        ;
        assert(decimal_text(decimal_value(s)) =~= s);
    }
}

/// A canonical text of several digits stands for ten or more; one that does
/// not begin with zero stands for more than zero.
pub proof fn lemma_value_positive(s: Seq<char>)
    requires
        s.len() >= 1,
        all_digits(s),
        s[0] != '0',
    ensures
        decimal_value(s) >= 1,
        s.len() >= 2 ==> decimal_value(s) >= 10,
    decreases s.len(),
{
    assert(is_digit(s[0]));
    if s.len() == 1 {
        assert(s.drop_last() =~= Seq::<char>::empty());
        assert(decimal_value(s.drop_last()) == 0);
    } else {
        let p = s.drop_last();
        assert forall|i: int| 0 <= i < p.len() implies is_digit(#[trigger] p[i]) by {
            assert(p[i] == s[i]);
        }
        assert(p[0] == s[0]);
        lemma_value_positive(p);
    }
}

/// The value of the first digits of a text is no more than the value of all.
pub proof fn lemma_value_prefix(s: Seq<char>, k: int)
    requires
        0 <= k <= s.len(),
    ensures
        decimal_value(s.take(k)) <= decimal_value(s),
    decreases s.len() - k,
{
    if k == s.len() {
        assert(s.take(k) =~= s);
    } else {
        lemma_value_prefix(s, k + 1);
        let t = s.take(k + 1);
        assert(t.drop_last() =~= s.take(k));
    }
}

/// Reads the number written in `chars[from..to]`.
pub(crate) fn parse_decimal(chars: &Vec<char>, from: usize, to: usize) -> (r: Option<u64>)
    requires
        from <= to <= chars@.len(),
    ensures
        match r {
            Some(n) => decimal_text(n as nat) == chars@.subrange(from as int, to as int),
            None => forall|n: nat|
                n <= u64::MAX ==> #[trigger] decimal_text(n) != chars@.subrange(
                    from as int,
                    to as int,
                ),
        },
{
    let ghost s = chars@.subrange(from as int, to as int);
    if from == to {
        assert forall|n: nat| n <= u64::MAX implies #[trigger] decimal_text(n) != s by {
            lemma_decimal_text(n);
        }
        return None;
    }
    if chars[from] == '0' && to - from > 1 {
        assert forall|n: nat| n <= u64::MAX implies #[trigger] decimal_text(n) != s by {
            lemma_decimal_text(n);
            assert(s[0] == '0');
        }
        return None;
    }
    let mut value: u64 = 0;
    let mut i: usize = from;
    assert(s.take(0) =~= Seq::<char>::empty());
    while i < to
        invariant
            from <= i <= to <= chars@.len(),
            s == chars@.subrange(from as int, to as int),
            all_digits(s.take(i - from)),
            value == decimal_value(s.take(i - from)),
        decreases to - i,
    {
        let c = chars[i];
        assert(c == s[i - from]);
        if !(c >= '0' && c <= '9') {
            assert forall|n: nat| n <= u64::MAX implies #[trigger] decimal_text(n) != s by {
                lemma_decimal_text(n);
                assert(!is_digit(s[i - from]));
            }
            return None;
        }
        let d: u64 = (c as u32 - 48) as u64;
        proof {
            let t = s.take(i - from + 1);
            assert(t.drop_last() =~= s.take(i - from));
            assert(t.last() == c);
            assert forall|j: int| 0 <= j < t.len() implies is_digit(#[trigger] t[j]) by {
                if j < i - from {
                    assert(s.take(i - from)[j] == t[j]);
                }
            }
            lemma_value_prefix(s, i - from + 1);
        }
        if value > (u64::MAX - d) / 10 {
            assert forall|n: nat| n <= u64::MAX implies #[trigger] decimal_text(n) != s by {
                lemma_decimal_text(n);
            }
            return None;
        }
        value = value * 10 + d;
        i += 1;
    }
    proof {
        assert(s.take(to - from) =~= s);
        assert(s[0] == chars@[from as int]);
        lemma_canonical_text(s);
    }
    Some(value)
}

/// The number below 2^64 that `s` is the canonical text of, if there is one.
pub open spec fn number_of(s: Seq<char>) -> Option<u64> {
    if is_canonical(s) && decimal_value(s) <= u64::MAX {
        Some(decimal_value(s) as u64)
    } else {
        None
    }
}

/// Reading is the inverse of writing.
pub proof fn lemma_number_of_text(n: u64)
    ensures
        number_of(decimal_text(n as nat)) == Some(n),
{
    lemma_decimal_text(n as nat);
}

/// Reads the number written in `chars[from..to]`.
pub(crate) fn parse_number(chars: &Vec<char>, from: usize, to: usize) -> (r: Option<u64>)
    requires
        from <= to <= chars@.len(),
    ensures
        r == number_of(chars@.subrange(from as int, to as int)),
        r matches Some(n) ==> decimal_text(n as nat) == chars@.subrange(from as int, to as int),
{
    let r = parse_decimal(chars, from, to);
    proof {
        let s = chars@.subrange(from as int, to as int);
        match r {
            Some(n) => {
                lemma_decimal_text(n as nat);
            },
            None => {
                if is_canonical(s) && decimal_value(s) <= u64::MAX {
                    lemma_canonical_text(s);
                    assert(decimal_text(decimal_value(s)) == s);
                }
            },
        }
    }
    r
}

/// Reads a number from its text. Only the text that `append_decimal` writes
/// is accepted: digits, no sign, no zero in front of another digit, and a
/// value below 2^64.
pub fn parse_u64(s: &str) -> (r: Option<u64>)
    ensures
        r == number_of(s@),
        r matches Some(n) ==> decimal_text(n as nat) == s@,
{
    let chars = chars_of(s);
    assert(chars@.subrange(0, chars@.len() as int) =~= s@);
    parse_number(&chars, 0, chars.len())
}

/// The one-character text of a digit.
fn digit_str(d: u64) -> (r: &'static str)
    requires
        d < 10,
    ensures
        r@ == seq![digit_char(d as nat)],
{
    proof {
        reveal_strlit("0");
        reveal_strlit("1");
        reveal_strlit("2");
        reveal_strlit("3");
        reveal_strlit("4");
        reveal_strlit("5");
        reveal_strlit("6");
        reveal_strlit("7");
        reveal_strlit("8");
        reveal_strlit("9");
    }
    let r = if d == 0 {
        "0"
    } else if d == 1 {
        "1"
    } else if d == 2 {
        "2"
    } else if d == 3 {
        "3"
    } else if d == 4 {
        "4"
    } else if d == 5 {
        "5"
    } else if d == 6 {
        "6"
    } else if d == 7 {
        "7"
    } else if d == 8 {
        "8"
    } else {
        "9"
    };
    assert(r@ =~= seq![digit_char(d as nat)]);
    r
}

/// Writes `n` in decimal digits at the end of `out`.
pub fn append_decimal(out: &mut String, n: u64)
    ensures
        final(out)@ == old(out)@ + decimal_text(n as nat),
    decreases n,
{
    if n >= 10 {
        append_decimal(out, n / 10);
    }
    out.append(digit_str(n % 10));
    proof {
        if n >= 10 {
            assert(old(out)@ + decimal_text(n as nat / 10) + seq![digit_char(n as nat % 10)]
                =~= old(out)@ + decimal_text(n as nat));
        }
    }
}

} // verus!

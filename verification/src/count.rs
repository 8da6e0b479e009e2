//! Parsing the repetition count: a signed decimal integer that must fit
//! in `i32`, written as an optional `+` or `-` sign followed by one or
//! more ASCII digits.

use vstd::prelude::*;

verus! {

pub open spec fn is_ascii_digit(c: char) -> bool {
    48 <= c as int <= 57
}

pub open spec fn digit_value(c: char) -> int {
    c as int - 48
}

pub open spec fn all_digits(s: Seq<char>) -> bool {
    forall|i: int| 0 <= i < s.len() ==> is_ascii_digit(#[trigger] s[i])
}

/// The value of a run of decimal digits, most significant first.
pub open spec fn digits_value(s: Seq<char>) -> int
    decreases s.len(),
{
    if s.len() == 0 {
        0
    } else {
        digits_value(s.drop_last()) * 10 + digit_value(s.last())
    }
}

/// A well-formed signed decimal literal: an optional single `+` or `-`
/// sign, then at least one digit and nothing else.
pub open spec fn int_literal_ok(s: Seq<char>) -> bool {
    if s.len() == 0 {
        false
    } else if s[0] == '+' || s[0] == '-' {
        s.len() >= 2 && all_digits(s.skip(1))
    } else {
        all_digits(s)
    }
}

/// The mathematical value a well-formed literal denotes.
pub open spec fn int_literal_value(s: Seq<char>) -> int {
    if s.len() > 0 && s[0] == '-' {
        -digits_value(s.skip(1))
    } else if s.len() > 0 && s[0] == '+' {
        digits_value(s.skip(1))
    } else {
        digits_value(s)
    }
}

/// The literals that denote a repetition count: well formed and within
/// the range of `i32`.
pub open spec fn parses_as_i32(s: Seq<char>) -> bool {
    int_literal_ok(s) && i32::MIN <= int_literal_value(s) <= i32::MAX
}

proof fn lemma_digits_value_nonneg(s: Seq<char>)
    requires
        all_digits(s),
    ensures
        digits_value(s) >= 0,
    decreases s.len(),
{
    if s.len() > 0 {
        assert(all_digits(s.drop_last())) by {
            assert(forall|i: int| 0 <= i < s.len() - 1 ==> s.drop_last()[i] == s[i]);
        }
        lemma_digits_value_nonneg(s.drop_last());
    }
}

/// Reading further digits can only keep or grow the denoted value.
proof fn lemma_digits_value_prefix_le(s: Seq<char>, p: int)
    requires
        all_digits(s),
        0 <= p <= s.len(),
    ensures
        digits_value(s.take(p)) <= digits_value(s),
    decreases s.len() - p,
{
    if p == s.len() {
        assert(s.take(p) =~= s);
    } else {
        assert(all_digits(s.take(p))) by {
            assert(forall|i: int| 0 <= i < p ==> s.take(p)[i] == s[i]);
        }
        lemma_digits_value_nonneg(s.take(p));
        assert(s.take(p + 1).drop_last() =~= s.take(p));
        assert(s.take(p + 1).last() == s[p]);
        lemma_digits_value_prefix_le(s, p + 1);
    }
}

/// Parse a repetition count. Returns the denoted value exactly when the
/// text is a well-formed signed decimal literal whose value fits in
/// `i32`; returns `None` on any other text.
pub fn parse_count(s: &str) -> (r: Option<i32>)
    ensures
        r is Some <==> parses_as_i32(s@),
        r matches Some(v) ==> v as int == int_literal_value(s@),
{
    let n = s.unicode_len();
    if n == 0 {
        return None;
    }
    let first = s.get_char(0);
    let neg = first == '-';
    let signed = neg || first == '+';
    let start: usize = if signed { 1 } else { 0 };
    if n == start {
        return None;
    }
    let ghost digits = s@.skip(start as int);
    let mut i: usize = start;
    while i < n
        invariant
            start <= i <= n,
            start < n,
            n == s@.len(),
            digits == s@.skip(start as int),
            neg == (s@[0] == '-'),
            signed == (neg || s@[0] == '+'),
            start as int == (if signed { 1int } else { 0int }),
            forall|j: int| start <= j < i ==> is_ascii_digit(#[trigger] s@[j]),
        decreases n - i,
    {
        let c = s.get_char(i);
        let u = c as u32;
        if u < 48 || u > 57 {
            proof {
                assert(digits[i - start] == s@[i as int]);
                assert(!all_digits(digits));
                if start == 1 {
                    assert(!int_literal_ok(s@));
                } else {
                    assert(digits =~= s@);
                    assert(!int_literal_ok(s@));
                }
            }
            return None;
        }
        i = i + 1;
    }
    proof {
        assert(all_digits(digits)) by {
            assert(forall|j: int| 0 <= j < digits.len() ==> digits[j] == s@[j + start]);
        }
        if start == 0 {
            assert(digits =~= s@);
        }
        assert(int_literal_ok(s@));
    }
    let mut acc: u64 = 0;
    let mut k: usize = start;
    proof {
        assert(digits.take(0) =~= Seq::<char>::empty());
    }
    while k < n
        invariant
            start <= k <= n,
            start < n,
            n == s@.len(),
            digits == s@.skip(start as int),
            neg == (s@[0] == '-'),
            signed == (neg || s@[0] == '+'),
            start as int == (if signed { 1int } else { 0int }),
            all_digits(digits),
            int_literal_ok(s@),
            acc <= 0x8000_0000,
            acc as int == digits_value(digits.take(k - start)),
        decreases n - k,
    {
        let c = s.get_char(k);
        let u = c as u32;
        proof {
            assert(digits[k - start] == s@[k as int]);
        }
        let d: u64 = (u - 48) as u64;
        acc = acc * 10 + d;
        k = k + 1;
        proof {
            let p = k - start;
            assert(digits.take(p).drop_last() =~= digits.take(p - 1));
            assert(digits.take(p).last() == digits[p - 1]);
        }
        if acc > 0x8000_0000 {
            proof {
                lemma_digits_value_prefix_le(digits, k - start);
                if neg {
                    assert(int_literal_value(s@) < i32::MIN);
                } else {
                    if start == 0 {
                        assert(digits =~= s@);
                    }
                    assert(int_literal_value(s@) > i32::MAX);
                }
            }
            return None;
        }
    }
    proof {
        assert(digits.take(n - start) =~= digits);
    }
    if neg {
        let v: i64 = -(acc as i64);
        proof {
            assert(int_literal_value(s@) == -(acc as int));
        }
        Some(v as i32)
    } else {
        if acc > 0x7FFF_FFFF {
            proof {
                assert(int_literal_value(s@) > i32::MAX);
            }
            return None;
        }
        proof {
            assert(int_literal_value(s@) == acc as int);
        }
        Some(acc as i32)
    }
}

} // verus!

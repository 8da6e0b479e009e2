//! Character-level text transforms: repetition, joining with a separator,
//! reversal, and backslash-escape interpretation.

use vstd::prelude::*;

verus! {

/// `s` concatenated with itself `n` times, contiguously.
pub open spec fn repeat_seq(s: Seq<char>, n: nat) -> Seq<char>
    decreases n,
{
    if n == 0 {
        Seq::empty()
    } else {
        repeat_seq(s, (n - 1) as nat) + s
    }
}

/// `n` copies of `s` joined by `sep`: the separator stands between each
/// consecutive pair of copies, never at the start or the end.
pub open spec fn join_copies(s: Seq<char>, sep: Seq<char>, n: nat) -> Seq<char>
    decreases n,
{
    if n == 0 {
        Seq::empty()
    } else if n == 1 {
        s
    } else {
        join_copies(s, sep, (n - 1) as nat) + sep + s
    }
}

/// The repeated text is exactly `n` times as long as its base.
pub proof fn lemma_repeat_len(s: Seq<char>, n: nat)
    ensures
        repeat_seq(s, n).len() == n * s.len(),
    decreases n,
{
    if n > 0 {
        lemma_repeat_len(s, (n - 1) as nat);
        assert((n - 1) * s.len() + s.len() == n * s.len()) by (nonlinear_arith);
    } else {
        assert(n * s.len() == 0) by (nonlinear_arith)
            requires n == 0;
    }
}

/// Joining `n >= 1` copies adds the separator exactly `n - 1` times:
/// there is no leading or trailing separator in the joined text.
pub proof fn lemma_join_len(s: Seq<char>, sep: Seq<char>, n: nat)
    requires
        n >= 1,
    ensures
        join_copies(s, sep, n).len() == n * s.len() + (n - 1) * sep.len(),
    decreases n,
{
    if n > 1 {
        lemma_join_len(s, sep, (n - 1) as nat);
        assert((n - 1) * s.len() + s.len() == n * s.len()) by (nonlinear_arith);
        assert((n - 2) * sep.len() + sep.len() == (n - 1) * sep.len()) by (nonlinear_arith);
    } else {
        assert(n * s.len() + (n - 1) * sep.len() == s.len()) by (nonlinear_arith)
            requires n == 1;
    }
}

/// Repeat `s` contiguously `n` times.
pub fn repeat_plain(s: &str, n: usize) -> (r: String)
    ensures
        r@ == repeat_seq(s@, n as nat),
{
    let mut r = String::new();
    let mut i: usize = 0;
    while i < n
        invariant
            i <= n,
            r@ == repeat_seq(s@, i as nat),
        decreases n - i,
    {
        r.append(s);
        i = i + 1;
    }
    r
}

/// Relies on `String::push` from std: appends exactly one character at
/// the end of the string.
#[verifier::external_body]
pub(crate) fn push_char(s: &mut String, c: char)
    ensures
        final(s)@ == old(s)@.push(c),
{
    s.push(c);
}

/// Join `n` copies of `s` with `sep` between each consecutive pair.
pub fn repeat_join(s: &str, sep: &str, n: usize) -> (r: String)
    ensures
        r@ == join_copies(s@, sep@, n as nat),
{
    if n == 0 {
        return String::new();
    }
    let mut r = String::from_str(s);
    let mut i: usize = 1;
    while i < n
        invariant
            1 <= i <= n,
            r@ == join_copies(s@, sep@, i as nat),
        decreases n - i,
    {
        r.append(sep);
        r.append(s);
        i = i + 1;
    }
    r
}

/// The characters that may follow a backslash to form an escape sequence.
pub open spec fn is_escape_code(c: char) -> bool {
    c == 'n' || c == 't' || c == '\\'
}

/// The literal character denoted by the escape sequence `\c`.
pub open spec fn escaped_char(c: char) -> char {
    if c == 'n' {
        '\n'
    } else if c == 't' {
        '\t'
    } else {
        '\\'
    }
}

/// Left-to-right escape interpretation: each backslash followed by `n`,
/// `t` or `\` collapses into the corresponding literal character; any
/// other backslash is kept as it is. A replacement consumes both
/// characters, so scanning resumes after the sequence and matches never
/// overlap.
pub open spec fn unescape(s: Seq<char>) -> Seq<char>
    decreases s.len(),
{
    if s.len() == 0 {
        Seq::empty()
    } else if s[0] == '\\' && s.len() >= 2 && is_escape_code(s[1]) {
        seq![escaped_char(s[1])] + unescape(s.skip(2))
    } else {
        seq![s[0]] + unescape(s.skip(1))
    }
}

pub open spec fn has_backslash(s: Seq<char>) -> bool {
    exists|i: int| 0 <= i < s.len() && s[i] == '\\'
}

/// On text without a backslash, escape interpretation changes nothing,
/// and is therefore idempotent there.
pub proof fn lemma_unescape_no_backslash(s: Seq<char>)
    requires
        !has_backslash(s),
    ensures
        unescape(s) == s,
        unescape(unescape(s)) == unescape(s),
    decreases s.len(),
{
    if s.len() == 0 {
        assert(unescape(s) =~= s);
    } else {
        assert(s[0] != '\\');
        assert(!has_backslash(s.skip(1))) by {
            if has_backslash(s.skip(1)) {
                let i = choose|i: int| 0 <= i < s.skip(1).len() && s.skip(1)[i] == '\\';
                assert(s[i + 1] == '\\');
            }
        }
        lemma_unescape_no_backslash(s.skip(1));
        assert(unescape(s) =~= s);
    }
}

/// Interpret the escape sequences `\n`, `\t` and `\\` in the string,
/// leaving every other character, including unpaired backslashes, as it
/// stands.
pub fn repl_esc_seq(r_str: &mut String)
    ensures
        final(r_str)@ == unescape(old(r_str)@),
{
    let src = r_str.clone();
    let s = src.as_str();
    let n = s.unicode_len();
    let mut out = String::new();
    let mut i: usize = 0;
    proof {
        assert(s@.skip(0) =~= s@);
        assert(out@ + unescape(s@) =~= unescape(s@));
    }
    while i < n
        invariant
            i <= n,
            n == s@.len(),
            s@ == old(r_str)@,
            out@ + unescape(s@.skip(i as int)) == unescape(s@),
        decreases n - i,
    {
        let c = s.get_char(i);
        proof {
            assert(s@.skip(i as int)[0] == s@[i as int]);
        }
        if c == '\\' && i + 1 < n {
            let d = s.get_char(i + 1);
            proof {
                assert(s@.skip(i as int)[1] == s@[i as int + 1]);
                assert(s@.skip(i as int).skip(2) =~= s@.skip(i as int + 2));
                assert(s@.skip(i as int).skip(1) =~= s@.skip(i as int + 1));
            }
            if d == 'n' {
                push_char(&mut out, '\n');
                i = i + 2;
            } else if d == 't' {
                push_char(&mut out, '\t');
                i = i + 2;
            } else if d == '\\' {
                push_char(&mut out, '\\');
                i = i + 2;
            } else {
                push_char(&mut out, '\\');
                i = i + 1;
            }
        } else {
            proof {
                assert(s@.skip(i as int).skip(1) =~= s@.skip(i as int + 1));
            }
            push_char(&mut out, c);
            i = i + 1;
        }
    }
    proof {
        assert(s@.skip(n as int) =~= Seq::<char>::empty());
    }
    *r_str = out;
}

/// Reversal undoes itself: reversing twice yields the original text.
pub proof fn lemma_reverse_involution(s: Seq<char>)
    ensures
        s.reverse().reverse() == s,
{
    assert(s.reverse().reverse() =~= s);
}

/// Reverse the string's character sequence (full scalar-value reversal,
/// not byte reversal).
pub fn reverse_string(string: &mut String)
    ensures
        final(string)@ == old(string)@.reverse(),
{
    let src = string.clone();
    let s = src.as_str();
    let n = s.unicode_len();
    let mut out = String::new();
    let mut i: usize = n;
    while i > 0
        invariant
            i <= n,
            n == s@.len(),
            s@ == old(string)@,
            out@ == s@.skip(i as int).reverse(),
        decreases i,
    {
        i = i - 1;
        let c = s.get_char(i);
        push_char(&mut out, c);
        proof {
            assert(out@ =~= s@.skip(i as int).reverse());
        }
    }
    proof {
        assert(s@.skip(0) =~= s@);
    }
    *string = out;
}

} // verus!

//! The option surface of the program, built on the getopts crate: the
//! fixed option table, parsing the argument list into plain values, and
//! the usage text.

use vstd::prelude::*;

use crate::cli::{word_views, CliError, ParsedArgs};
use crate::count::{all_digits, is_ascii_digit};

verus! {

#[verifier::external_type_specification]
#[verifier::external_body]
pub struct ExOptions(getopts::Options);

/// Relies on `getopts::Options::new`: a blank option table.
#[verifier::external_body]
fn new_options() -> (r: getopts::Options) {
    getopts::Options::new()
}

/// Relies on `getopts::Options::optflag`: registers an argument-less
/// option. Its name check panics unless the short name is at most one
/// ASCII character and the long name is empty or longer than one, and
/// parsing panics on a group with no name at all; the preconditions
/// keep all of that out.
#[verifier::external_body]
fn add_flag(opts: &mut getopts::Options, short: &str, long: &str, desc: &str)
    requires
        vstd::string::is_ascii(short),
        short@.len() <= 1,
        vstd::string::is_ascii(long),
        long@.len() != 1,
        short@.len() + long@.len() >= 1,
{
    opts.optflag(short, long, desc);
}

/// Relies on `getopts::Options::optopt`: registers an option that takes
/// one value. The same name rules hold as for `add_flag`.
#[verifier::external_body]
fn add_opt(opts: &mut getopts::Options, short: &str, long: &str, desc: &str, hint: &str)
    requires
        vstd::string::is_ascii(short),
        short@.len() <= 1,
        vstd::string::is_ascii(long),
        long@.len() != 1,
        short@.len() + long@.len() >= 1,
{
    opts.optopt(short, long, desc, hint);
}

/// Relies on `getopts::Options::usage`: the rendered help text is the
/// brief line, then a blank line, an `Options:` heading and one row for
/// each registered option — so it begins with the brief and is strictly
/// longer than it, whatever the table holds. The renderer's short-name
/// panic is unreachable for names the registrars above admit.
#[verifier::external_body]
fn usage_text(opts: &getopts::Options, brief: &str) -> (r: String)
    ensures
        r@.len() >= brief@.len() + 11,
        r@.subrange(0, brief@.len() as int) == brief@,
{
    opts.usage(brief)
}

/// The one-line usage synopsis of the program.
pub open spec fn usage_line_view() -> Seq<char> {
    "USAGE: rpt [-v] [-h] [-n] [-e] [-s <sep>] repetitions [string]"@
}

/// The one-line usage synopsis of the program.
pub fn usage_line() -> (s: String)
    ensures
        s@ == usage_line_view(),
{
    String::from_str("USAGE: rpt [-v] [-h] [-n] [-e] [-s <sep>] repetitions [string]")
}

/// The program's fixed option table: `-s <SEP>`, `-n`, `-v`, `-e` and
/// `-h`/`--help`. It feeds the usage renderer; parsing goes through
/// `parse_standard`, which builds the same table.
fn standard_options() -> getopts::Options {
    proof {
        reveal_strlit("s");
        reveal_strlit("");
        reveal_strlit("n");
        reveal_strlit("v");
        reveal_strlit("e");
        reveal_strlit("h");
        reveal_strlit("help");
    }
    let mut opts = new_options();
    add_opt(&mut opts, "s", "", "optional separator string", "SEP");
    add_flag(&mut opts, "n", "", "do not output the trailing newline");
    add_flag(&mut opts, "v", "", "print version info");
    add_flag(&mut opts, "e", "", "interpret some few escape sequences (\\\\,\\t,\\n)");
    add_flag(&mut opts, "h", "help", "print this help menu");
    opts
}

/// The full help text: the usage synopsis at its head, then the option
/// table as getopts renders it.
pub fn help_text() -> (h: String)
    ensures
        h@.len() > usage_line_view().len(),
        h@.subrange(0, usage_line_view().len() as int) == usage_line_view(),
{
    let opts = standard_options();
    let brief = usage_line();
    usage_text(&opts, brief.as_str())
}

/// A word of the shape `-<digits>`: a negative repetition count, which
/// the option parser would otherwise take for an option.
pub open spec fn is_neg_int_token(w: Seq<char>) -> bool {
    w.len() >= 2 && w[0] == '-' && all_digits(w.skip(1))
}

/// The argument-less short flags of the option table.
pub open spec fn is_plain_flag(c: char) -> bool {
    c == 'n' || c == 'v' || c == 'e' || c == 'h'
}

/// A word after which the option parser consumes the next word as the
/// separator value: `-s`, or a cluster of argument-less flags with `s`
/// as its last letter (as in `-ns`). With `s` anywhere earlier, the
/// rest of the cluster is the attached value and nothing further is
/// consumed.
pub open spec fn consumes_value(w: Seq<char>) -> bool {
    &&& w.len() >= 2
    &&& w[0] == '-'
    &&& w.last() == 's'
    &&& forall|i: int| 1 <= i < w.len() - 1 ==> is_plain_flag(#[trigger] w[i])
}

/// The argument list with `--` inserted before the first word that is a
/// negative count, so that the count and everything after it stay
/// positional. A word already equal to `--` ends the scan, and the word
/// right after one that consumes a separator value is skipped.
pub open spec fn shielded(ws: Seq<Seq<char>>) -> Seq<Seq<char>>
    decreases ws.len(),
{
    if ws.len() == 0 {
        ws
    } else if ws[0] == "--"@ {
        ws
    } else if is_neg_int_token(ws[0]) {
        seq!["--"@] + ws
    } else if consumes_value(ws[0]) && ws.len() >= 2 {
        seq![ws[0], ws[1]] + shielded(ws.skip(2))
    } else {
        seq![ws[0]] + shielded(ws.skip(1))
    }
}

fn is_negative_literal(w: &str) -> (r: bool)
    ensures
        r == is_neg_int_token(w@),
{
    let n = w.unicode_len();
    if n < 2 {
        return false;
    }
    if w.get_char(0) != '-' {
        return false;
    }
    let mut i: usize = 1;
    while i < n
        invariant
            1 <= i <= n,
            n == w@.len(),
            forall|j: int| 1 <= j < i ==> is_ascii_digit(#[trigger] w@[j]),
        decreases n - i,
    {
        let c = w.get_char(i);
        let u = c as u32;
        if u < 48 || u > 57 {
            proof {
                assert(w@.skip(1)[i - 1] == w@[i as int]);
            }
            return false;
        }
        i = i + 1;
    }
    proof {
        assert(all_digits(w@.skip(1))) by {
            assert(forall|j: int|
                0 <= j < w@.skip(1).len() ==> w@.skip(1)[j] == s_at(w@, j + 1));
        }
    }
    true
}

spec fn s_at(s: Seq<char>, i: int) -> char {
    s[i]
}

fn consumes_value_word(w: &str) -> (r: bool)
    ensures
        r == consumes_value(w@),
{
    let n = w.unicode_len();
    if n < 2 {
        return false;
    }
    if w.get_char(0) != '-' {
        return false;
    }
    if w.get_char(n - 1) != 's' {
        return false;
    }
    let mut i: usize = 1;
    while i < n - 1
        invariant
            1 <= i <= n - 1,
            n >= 2,
            n == w@.len(),
            forall|j: int| 1 <= j < i ==> is_plain_flag(#[trigger] w@[j]),
        decreases n - i,
    {
        let c = w.get_char(i);
        if !(c == 'n' || c == 'v' || c == 'e' || c == 'h') {
            proof {
                assert(!is_plain_flag(w@[i as int]));
            }
            return false;
        }
        i = i + 1;
    }
    true
}

fn extend_from(out: &mut Vec<String>, args: &Vec<String>, from: usize)
    requires
        from as int <= args@.len(),
    ensures
        final(out)@ == old(out)@ + args@.skip(from as int),
{
    let mut j: usize = from;
    proof {
        assert(out@ =~= old(out)@ + args@.subrange(from as int, from as int));
    }
    while j < args.len()
        invariant
            from <= j <= args@.len(),
            out@ == old(out)@ + args@.subrange(from as int, j as int),
        decreases args@.len() - j,
    {
        out.push(args[j].clone());
        proof {
            assert(args@.subrange(from as int, j as int + 1) =~= args@.subrange(
                from as int,
                j as int,
            ).push(args@[j as int]));
            assert(out@ =~= old(out)@ + args@.subrange(from as int, j as int + 1));
        }
        j = j + 1;
    }
    proof {
        assert(args@.subrange(from as int, args@.len() as int) =~= args@.skip(from as int));
    }
}

/// Insert `--` before the first word of the shape `-<digits>`, so that
/// a negative repetition count is read as a positional word and not as
/// an option.
pub fn shield_negative_count(args: &Vec<String>) -> (r: Vec<String>)
    ensures
        word_views(r@) == shielded(word_views(args@)),
{
    let n = args.len();
    let mut out: Vec<String> = Vec::new();
    let mut i: usize = 0;
    proof {
        assert(word_views(args@.skip(0)) =~= word_views(args@));
        assert(word_views(out@) + shielded(word_views(args@)) =~= shielded(word_views(args@)));
    }
    while i < n
        invariant
            i <= n,
            n == args@.len(),
            word_views(out@) + shielded(word_views(args@.skip(i as int))) == shielded(
                word_views(args@),
            ),
        decreases n - i,
    {
        let ghost rest = word_views(args@.skip(i as int));
        proof {
            assert(rest[0] == args@[i as int]@);
            assert(word_views(args@.skip(i as int + 1)) =~= rest.skip(1));
            if i + 2 <= n {
                assert(word_views(args@.skip(i as int + 2)) =~= rest.skip(2));
            }
        }
        let word = &args[i];
        if word.eq(&String::from_str("--")) {
            extend_from(&mut out, args, i);
            proof {
                assert(word_views(out@) =~= shielded(word_views(args@)));
            }
            return out;
        }
        if is_negative_literal(word.as_str()) {
            out.push(String::from_str("--"));
            extend_from(&mut out, args, i);
            proof {
                assert(word_views(out@) =~= shielded(word_views(args@)));
            }
            return out;
        }
        if consumes_value_word(word.as_str()) && i + 1 < n {
            out.push(args[i].clone());
            out.push(args[i + 1].clone());
            proof {
                assert(word_views(out@) + shielded(rest.skip(2)) =~= shielded(word_views(args@)));
            }
            i = i + 2;
        } else {
            out.push(args[i].clone());
            proof {
                assert(word_views(out@) + shielded(rest.skip(1)) =~= shielded(word_views(args@)));
            }
            i = i + 1;
        }
    }
    proof {
        assert(word_views(args@.skip(n as int)) =~= Seq::<Seq<char>>::empty());
        assert(word_views(out@) =~= shielded(word_views(args@)));
    }
    out
}

// What parsing a word list against the standard option table returns.
// The table is fixed and getopts reads nothing but its arguments, so
// the result is a function of the words alone.
pub uninterp spec fn std_parse_of(ws: Seq<Seq<char>>) -> Result<ParsedArgs, CliError>;

/// Relies on `getopts::Options::{new, optopt, optflag, parse}` and, on
/// the parse result, on `Matches::{opt_present, opt_str}` and the
/// public `free` field, and on the `Display` impl of `getopts::Fail`
/// through `ToString`. The table is the standard one, built here, so
/// every name queried is defined and no call panics, and the result
/// depends on the words alone: it is `std_parse_of` of them. A missing
/// argument can only be the separator's, the one option that takes a
/// value; an unrecognized option carries its name; every other failure
/// is carried as its rendered text.
#[verifier::external_body]
fn parse_standard(args: &Vec<String>) -> (r: Result<ParsedArgs, CliError>)
    ensures
        r == std_parse_of(word_views(args@)),
{
    let mut o = getopts::Options::new();
    o.optopt("s", "", "optional separator string", "SEP");
    o.optflag("n", "", "do not output the trailing newline");
    o.optflag("v", "", "print version info");
    o.optflag("e", "", "interpret some few escape sequences (\\\\,\\t,\\n)");
    o.optflag("h", "help", "print this help menu");
    match o.parse(args) {
        Err(getopts::Fail::ArgumentMissing(_)) => Err(CliError::SeparatorNeedsValue),
        Err(getopts::Fail::UnrecognizedOption(name)) => Err(CliError::UnknownOption(name)),
        Err(f) => Err(CliError::Other(f.to_string())),
        Ok(m) => Ok(ParsedArgs {
            help: m.opt_present("h"), version: m.opt_present("v"),
            no_newline: m.opt_present("n"), escape: m.opt_present("e"),
            separator: m.opt_str("s"), free: m.free }),
    }
}

/// Parse an argument list (without the program name) against the
/// standard option table into plain values, or the failure to report.
/// A word of the shape `-<digits>` is a negative repetition count, not
/// an option: the list is shielded before it is parsed, and the result
/// is exactly the standard parse of the shielded words.
pub fn parse_invocation(args: &Vec<String>) -> (r: Result<ParsedArgs, CliError>)
    ensures
        r == std_parse_of(shielded(word_views(args@))),
{
    let guarded = shield_negative_count(args);
    parse_standard(&guarded)
}

} // verus!

//! The decisions of a run: which input source to use, how to resolve a
//! line read from the stream, and how the final output text is composed
//! from the parsed options.

use vstd::prelude::*;

use crate::count::{int_literal_value, parse_count, parses_as_i32};
use crate::text::{join_copies, push_char, repeat_join, repeat_plain, repeat_seq, repl_esc_seq,
    reverse_string, unescape};

verus! {

/// The options and positional words of one invocation, as plain values.
#[derive(Debug)]
pub struct ParsedArgs {
    /// Print the help text and stop.
    pub help: bool,
    /// Print the version and stop.
    pub version: bool,
    /// Omit the trailing newline after the output.
    pub no_newline: bool,
    /// Interpret backslash escapes in the text and the separator.
    pub escape: bool,
    /// The separator between consecutive copies, when one was given.
    pub separator: Option<String>,
    /// The positional words: the count first, then the text words.
    pub free: Vec<String>,
}

/// Where the input text comes from: the trailing positional words, or
/// one line of a redirected stream.
#[derive(Clone, Copy, PartialEq, Eq, Debug)]
pub enum InputSource {
    Arguments,
    Stream,
}

/// What the run does next, decided from the parsed options alone.
#[derive(PartialEq, Eq, Debug)]
pub enum Plan {
    /// Print the help text; exit 0.
    Help,
    /// Print the version; exit 0.
    Version,
    /// Report too few arguments and the usage line; exit 1.
    TooFewArguments,
    /// The input text is already at hand: compose the output from it.
    Ready(String),
    /// Read one line from the stream, then compose the output from it.
    AwaitLine,
}

/// A reportable failure of an invocation.
#[derive(PartialEq, Eq, Debug)]
pub enum CliError {
    /// The separator option was given without a value.
    SeparatorNeedsValue,
    /// An option that is not part of the surface was given.
    UnknownOption(String),
    /// The first positional word is not an integer that fits the count.
    CountNotNumeric,
    /// Any other option-parse failure, already rendered as text.
    Other(String),
}

/// The composed result: the text to write, and whether a newline
/// follows it.
#[derive(Debug)]
pub struct Output {
    pub text: String,
    pub trailing_newline: bool,
}

pub open spec fn word_views(ws: Seq<String>) -> Seq<Seq<char>> {
    ws.map_values(|w: String| w@)
}

/// The given parts joined in order with `sep` between each consecutive
/// pair: no leading and no trailing separator.
pub open spec fn join_words(parts: Seq<Seq<char>>, sep: Seq<char>) -> Seq<char>
    decreases parts.len(),
{
    if parts.len() == 0 {
        Seq::empty()
    } else if parts.len() == 1 {
        parts[0]
    } else {
        join_words(parts.drop_last(), sep) + sep + parts.last()
    }
}

/// Join the words from position `from` on with single spaces.
pub fn join_args(words: &Vec<String>, from: usize) -> (r: String)
    requires
        from as int <= words@.len(),
    ensures
        r@ == join_words(word_views(words@.skip(from as int)), seq![' ']),
{
    let mut r = String::new();
    if from >= words.len() {
        proof {
            assert(words@.skip(from as int) =~= Seq::<String>::empty());
            assert(word_views(words@.skip(from as int)) =~= Seq::<Seq<char>>::empty());
        }
        return r;
    }
    r.append(words[from].as_str());
    let mut i: usize = from + 1;
    proof {
        let a = word_views(words@.subrange(from as int, i as int));
        assert(a.len() == 1);
        assert(a[0] == words@[from as int]@);
        assert(r@ =~= join_words(a, seq![' ']));
    }
    while i < words.len()
        invariant
            from < i <= words@.len(),
            r@ == join_words(word_views(words@.subrange(from as int, i as int)), seq![' ']),
        decreases words@.len() - i,
    {
        push_char(&mut r, ' ');
        r.append(words[i].as_str());
        proof {
            let a = word_views(words@.subrange(from as int, i as int));
            let b = word_views(words@.subrange(from as int, i as int + 1));
            assert(b.drop_last() =~= a);
            assert(b.last() == words@[i as int]@);
            assert(r@ =~= join_words(a, seq![' ']) + seq![' '] + words@[i as int]@);
        }
        i = i + 1;
    }
    proof {
        assert(words@.subrange(from as int, words@.len() as int) =~= words@.skip(from as int));
    }
    r
}

/// Decide what the run does, from the parsed options and the input
/// source. Help wins over version; both win over any further work. With
/// argument-supplied input, at least two positional words are needed
/// (the count and some text); with stream-supplied input, one (the
/// count).
pub fn plan(args: &ParsedArgs, source: InputSource) -> (p: Plan)
    ensures
        args.help ==> p is Help,
        !args.help && args.version ==> p is Version,
        !args.help && !args.version && source is Arguments && args.free@.len() < 2 ==> p
            is TooFewArguments,
        !args.help && !args.version && source is Arguments && args.free@.len() >= 2 ==> (p matches
            Plan::Ready(s) && s@ == join_words(word_views(args.free@.skip(1)), seq![' '])),
        !args.help && !args.version && source is Stream && args.free@.len() < 1 ==> p
            is TooFewArguments,
        !args.help && !args.version && source is Stream && args.free@.len() >= 1 ==> p
            is AwaitLine,
{
    if args.help {
        return Plan::Help;
    }
    if args.version {
        return Plan::Version;
    }
    match source {
        InputSource::Arguments => {
            if args.free.len() < 2 {
                Plan::TooFewArguments
            } else {
                Plan::Ready(join_args(&args.free, 1))
            }
        },
        InputSource::Stream => {
            if args.free.len() < 1 {
                Plan::TooFewArguments
            } else {
                Plan::AwaitLine
            }
        },
    }
}

/// A line as read from the stream, with one trailing newline removed if
/// it is there.
pub open spec fn strip_newline(s: Seq<char>) -> Seq<char> {
    if s.len() > 0 && s.last() == '\n' {
        s.drop_last()
    } else {
        s
    }
}

/// Resolve one line read from the stream. Nothing read at all means the
/// stream was at its end and the run stops without output: `None`.
/// Otherwise the input text is the line with a single trailing newline
/// stripped if present.
pub fn resolve_stream_line(line: String) -> (r: Option<String>)
    ensures
        line@.len() == 0 ==> r is None,
        line@.len() > 0 ==> (r matches Some(s) && s@ == strip_newline(line@)),
{
    let n = line.as_str().unicode_len();
    if n == 0 {
        return None;
    }
    let last = line.as_str().get_char(n - 1);
    if last == '\n' {
        let stripped = line.as_str().substring_char(0, n - 1);
        proof {
            assert(line@.subrange(0, n - 1) =~= line@.drop_last());
        }
        Some(String::from_str(stripped))
    } else {
        Some(line)
    }
}

/// The repeat factor: the count's absolute value.
pub open spec fn magnitude(c: int) -> nat {
    if c < 0 {
        (-c) as nat
    } else {
        c as nat
    }
}

pub open spec fn opt_view(s: Option<String>) -> Option<Seq<char>> {
    match s {
        None => None,
        Some(x) => Some(x@),
    }
}

/// The output text for a count, the escape flag, an optional separator
/// and the input text: escapes are interpreted first (in the text and
/// the separator alike), a negative count reverses the text, and the
/// absolute value of the count gives how many copies are emitted,
/// contiguously or joined by the separator.
pub open spec fn rendered(count: int, escape: bool, sep: Option<Seq<char>>, s: Seq<char>) -> Seq<
    char,
> {
    let s1 = if escape {
        unescape(s)
    } else {
        s
    };
    let sep1 = match sep {
        None => None,
        Some(p) => Some(
            if escape {
                unescape(p)
            } else {
                p
            },
        ),
    };
    let s2 = if count < 0 {
        s1.reverse()
    } else {
        s1
    };
    match sep1 {
        None => repeat_seq(s2, magnitude(count)),
        Some(p) => join_copies(s2, p, magnitude(count)),
    }
}

/// A count of zero always yields the empty output, whatever the text,
/// the separator and the escape flag.
pub proof fn lemma_zero_count(escape: bool, sep: Option<Seq<char>>, s: Seq<char>)
    ensures
        rendered(0, escape, sep, s) == Seq::<char>::empty(),
{
}

/// For a negative count the output is the output for the count's
/// absolute value on the character-reversed text.
pub proof fn lemma_negative_count(count: int, sep: Option<Seq<char>>, s: Seq<char>)
    requires
        count < 0,
    ensures
        rendered(count, false, sep, s) == rendered(-count, false, sep, s.reverse()),
{
}

/// Without a separator, a non-negative count yields the text
/// concatenated with itself that many times, so the output is exactly
/// `count` times as long as the text.
pub proof fn lemma_plain_repetition(count: int, s: Seq<char>)
    requires
        count >= 0,
    ensures
        rendered(count, false, None, s) == repeat_seq(s, count as nat),
        rendered(count, false, None, s).len() == count * s.len(),
{
    crate::text::lemma_repeat_len(s, count as nat);
}

/// With a separator, a positive count yields the copies joined by it:
/// the separator occurs exactly `count - 1` times, between consecutive
/// copies only, never leading or trailing.
pub proof fn lemma_joined_repetition(count: int, sep: Seq<char>, s: Seq<char>)
    requires
        count >= 1,
    ensures
        rendered(count, false, Some(sep), s) == join_copies(s, sep, count as nat),
        rendered(count, false, Some(sep), s).len() == count * s.len() + (count - 1) * sep.len(),
{
    crate::text::lemma_join_len(s, sep, count as nat);
}

/// Compose the final output from the parsed options and the input text.
/// Succeeds exactly when the first positional word is a decimal integer
/// that fits in `i32`; the output text is then `rendered` of that count,
/// and the trailing newline is owed unless it was suppressed.
pub fn compose_output(args: &ParsedArgs, input: String) -> (r: Result<Output, CliError>)
    requires
        args.free@.len() >= 1,
    ensures
        r is Ok <==> parses_as_i32(args.free@[0]@),
        r matches Ok(out) ==> out.text@ == rendered(
            int_literal_value(args.free@[0]@),
            args.escape,
            opt_view(args.separator),
            input@,
        ),
        r matches Ok(out) ==> out.trailing_newline == !args.no_newline,
        r matches Err(e) ==> e is CountNotNumeric,
{
    let count = match parse_count(args.free[0].as_str()) {
        None => {
            return Err(CliError::CountNotNumeric);
        },
        Some(c) => c,
    };
    let mut text = input;
    if args.escape {
        repl_esc_seq(&mut text);
    }
    let sep: Option<String> = match &args.separator {
        None => None,
        Some(p) => {
            let mut q = p.clone();
            if args.escape {
                repl_esc_seq(&mut q);
            }
            Some(q)
        },
    };
    let n_copies: usize;
    if count < 0 {
        reverse_string(&mut text);
        let mag: i64 = -(count as i64);
        n_copies = mag as usize;
    } else {
        n_copies = count as usize;
    }
    let out_text = match &sep {
        None => repeat_plain(text.as_str(), n_copies),
        Some(p) => repeat_join(text.as_str(), p.as_str(), n_copies),
    };
    Ok(Output { text: out_text, trailing_newline: !args.no_newline })
}

/// The single-line diagnostic for a failure, prefixed with the program
/// name context.
pub open spec fn message_view(e: CliError) -> Seq<char> {
    match e {
        CliError::SeparatorNeedsValue => "rpt error: option -s (separator) needs a string value"@,
        CliError::UnknownOption(name) => "rpt error: unknown option => '"@ + name@ + "'"@,
        CliError::CountNotNumeric => "rpt error: repetition value is not a number"@,
        CliError::Other(text) => text@,
    }
}

impl CliError {
    /// Render the diagnostic for this failure.
    pub fn message(&self) -> (m: String)
        ensures
            m@ == message_view(*self),
    {
        match self {
            CliError::SeparatorNeedsValue => String::from_str(
                "rpt error: option -s (separator) needs a string value",
            ),
            CliError::UnknownOption(name) => {
                let mut m = String::from_str("rpt error: unknown option => '");
                m.append(name.as_str());
                m.append("'");
                m
            },
            CliError::CountNotNumeric => String::from_str(
                "rpt error: repetition value is not a number",
            ),
            CliError::Other(text) => text.clone(),
        }
    }
}

} // verus!

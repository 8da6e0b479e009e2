//! Tests of the option surface, run against the real getopts crate.

use rpt::cli::CliError;
use rpt::opts::{help_text, parse_invocation, usage_line};

fn argv(words: &[&str]) -> Vec<String> {
    words.iter().map(|w| w.to_string()).collect()
}

#[test]
fn positionals_pass_through() {
    let p = parse_invocation(&argv(&["3", "hi", "there"])).unwrap();
    assert!(!p.help);
    assert!(!p.version);
    assert!(!p.no_newline);
    assert!(!p.escape);
    assert_eq!(p.separator, None);
    assert_eq!(p.free, vec!["3", "hi", "there"]);
}

#[test]
fn separator_option_takes_value() {
    let p = parse_invocation(&argv(&["-s", ",", "3", "hi"])).unwrap();
    assert_eq!(p.separator, Some(",".to_string()));
    assert_eq!(p.free, vec!["3", "hi"]);
}

#[test]
fn flags_are_recognised() {
    let p = parse_invocation(&argv(&["-n", "-e", "3", "hi"])).unwrap();
    assert!(p.no_newline);
    assert!(p.escape);
    let h = parse_invocation(&argv(&["-h"])).unwrap();
    assert!(h.help);
    let h2 = parse_invocation(&argv(&["--help"])).unwrap();
    assert!(h2.help);
    let v = parse_invocation(&argv(&["-v"])).unwrap();
    assert!(v.version);
}

#[test]
fn separator_without_value_fails() {
    match parse_invocation(&argv(&["-s"])) {
        Err(CliError::SeparatorNeedsValue) => {}
        other => panic!("unexpected result: {:?}", other),
    }
}

#[test]
fn separator_error_message() {
    let e = parse_invocation(&argv(&["-s"])).unwrap_err();
    assert_eq!(e.message(), "rpt error: option -s (separator) needs a string value");
}

#[test]
fn unknown_option_fails() {
    match parse_invocation(&argv(&["-x", "3", "hi"])) {
        Err(CliError::UnknownOption(name)) => {
            assert_eq!(name, "x");
        }
        other => panic!("unexpected result: {:?}", other),
    }
}

#[test]
fn unknown_option_message() {
    let e = parse_invocation(&argv(&["-x"])).unwrap_err();
    assert_eq!(e.message(), "rpt error: unknown option => 'x'");
}

#[test]
fn duplicated_separator_is_reported() {
    match parse_invocation(&argv(&["-s", ",", "-s", ".", "3", "hi"])) {
        Err(CliError::Other(text)) => {
            assert!(!text.is_empty());
        }
        other => panic!("unexpected result: {:?}", other),
    }
}

#[test]
fn negative_count_is_a_free_word() {
    // A lone dash-digit word is not an option: it stays positional.
    let p = parse_invocation(&argv(&["-3", "hi"])).unwrap();
    assert_eq!(p.free, vec!["-3", "hi"]);
}

#[test]
fn negative_count_after_separator_option() {
    let p = parse_invocation(&argv(&["-s", ",", "-3", "hi"])).unwrap();
    assert_eq!(p.separator, Some(",".to_string()));
    assert_eq!(p.free, vec!["-3", "hi"]);
}

#[test]
fn separator_value_shaped_like_a_count_is_consumed() {
    let p = parse_invocation(&argv(&["-s", "-3", "2", "x"])).unwrap();
    assert_eq!(p.separator, Some("-3".to_string()));
    assert_eq!(p.free, vec!["2", "x"]);
}

#[test]
fn flag_cluster_ending_in_s_consumes_the_next_word() {
    // -ns is the -n flag and then -s, which takes the next word.
    let p = parse_invocation(&argv(&["-ns", "-3", "2", "x"])).unwrap();
    assert!(p.no_newline);
    assert_eq!(p.separator, Some("-3".to_string()));
    assert_eq!(p.free, vec!["2", "x"]);
    let shielded = rpt::opts::shield_negative_count(&argv(&["-ns", "-3", "hi"]));
    assert_eq!(shielded, vec!["-ns", "-3", "hi"]);
}

#[test]
fn cluster_with_attached_value_does_not_consume() {
    // In -s, the value is attached: "," is the separator, nothing more
    // is consumed, and a negative count after it is still shielded.
    let p = parse_invocation(&argv(&["-s,", "-3", "hi"])).unwrap();
    assert_eq!(p.separator, Some(",".to_string()));
    assert_eq!(p.free, vec!["-3", "hi"]);
}

#[test]
fn shield_leaves_ordinary_arguments_alone() {
    let shielded = rpt::opts::shield_negative_count(&argv(&["-n", "3", "hi"]));
    assert_eq!(shielded, vec!["-n", "3", "hi"]);
    let shielded = rpt::opts::shield_negative_count(&argv(&["-n", "-3", "hi"]));
    assert_eq!(shielded, vec!["-n", "--", "-3", "hi"]);
    let shielded = rpt::opts::shield_negative_count(&argv(&["--", "-3"]));
    assert_eq!(shielded, vec!["--", "-3"]);
}

#[test]
fn usage_line_text() {
    assert_eq!(
        usage_line(),
        "USAGE: rpt [-v] [-h] [-n] [-e] [-s <sep>] repetitions [string]"
    );
}

#[test]
fn help_text_embeds_usage_and_options() {
    let h = help_text();
    assert!(h.starts_with("USAGE: rpt"));
    assert!(h.contains("-h, --help"));
    assert!(h.contains("-s SEP"));
}

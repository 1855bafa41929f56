use linetool::command::{argument_error, run, Command};
use linetool::error::TextError;

const SAMPLE: &str = "foo bar\nbaz foo\nqux\n";

#[test]
fn run_search_lists_lines() {
    let o = run(Command::Search, SAMPLE, Some("foo"), None).unwrap();
    assert_eq!(o.output, "foo:\n   found at line 1\n   found at line 2\n");
    assert!(o.rewrite.is_none());
}

#[test]
fn run_search_without_match_fails() {
    assert!(matches!(
        run(Command::Search, SAMPLE, Some("zzz"), None),
        Err(TextError::NoMatch)
    ));
}

#[test]
fn run_count_reports_lines() {
    let o = run(Command::Count, SAMPLE, Some("foo"), None).unwrap();
    assert_eq!(o.output, "foo pattern present 2 times\n");
    assert!(o.rewrite.is_none());
}

#[test]
fn run_count_of_absent_pattern() {
    let o = run(Command::Count, SAMPLE, Some("zzz"), None).unwrap();
    assert_eq!(o.output, "zzz pattern present 0 times\n");
}

#[test]
fn run_replace_rewrites() {
    let o = run(Command::Replace, SAMPLE, Some("foo"), Some("X")).unwrap();
    assert_eq!(o.output, "foo pattern replaced with X\n");
    assert_eq!(o.rewrite, Some("X bar\nbaz X\nqux\n".to_string()));
}

#[test]
fn run_replace_needs_replacement() {
    assert!(matches!(
        run(Command::Replace, SAMPLE, Some("x"), None),
        Err(TextError::ReplacementRequired)
    ));
}

#[test]
fn run_needs_pattern() {
    for c in [Command::Search, Command::Count, Command::Replace] {
        assert!(matches!(run(c, SAMPLE, None, Some("y")), Err(TextError::PatternRequired)));
    }
}

#[test]
fn run_stats_reports_all() {
    let o = run(Command::Stats, SAMPLE, None, None).unwrap();
    assert_eq!(
        o.output,
        "Frequent words : \n  | foo : 2\n  | bar : 1\n  | baz : 1\n  | qux : 1\n\
         For a total of 5 words\nWith the longest being foo\n"
    );
    assert!(o.rewrite.is_none());
}

#[test]
fn run_search_line_numbers_above_nine() {
    let text = "x\n".repeat(11);
    let o = run(Command::Search, &text, Some("x"), None).unwrap();
    assert!(o.output.ends_with("   found at line 10\n   found at line 11\n"));
}

#[test]
fn arguments_decide_errors_before_reading() {
    assert_eq!(argument_error(Command::Search, None, None), Some(TextError::PatternRequired));
    assert_eq!(argument_error(Command::Count, None, None), Some(TextError::PatternRequired));
    assert_eq!(argument_error(Command::Replace, None, None), Some(TextError::PatternRequired));
    assert_eq!(
        argument_error(Command::Replace, Some(""), None),
        Some(TextError::ReplacementRequired)
    );
    assert_eq!(argument_error(Command::Replace, Some("a"), Some("")), None);
    assert_eq!(argument_error(Command::Search, Some(""), None), None);
    assert_eq!(argument_error(Command::Stats, None, None), None);
}

#[test]
fn run_replace_with_empty_pattern_needs_replacement() {
    assert!(matches!(
        run(Command::Replace, SAMPLE, Some(""), None),
        Err(TextError::ReplacementRequired)
    ));
}

#[test]
fn run_count_with_empty_pattern_counts_lines() {
    let o = run(Command::Count, SAMPLE, Some(""), None).unwrap();
    assert_eq!(o.output, " pattern present 3 times\n");
}

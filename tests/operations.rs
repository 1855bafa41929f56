use linetool::error::TextError;
use linetool::report::Section;
use linetool::rewrite::replace;
use linetool::scan::{count, search};
use linetool::stats::stats;

const SAMPLE: &str = "foo bar\nbaz foo\nqux\n";

fn table(pairs: &[(&str, usize)]) -> Vec<(String, usize)> {
    pairs.iter().map(|(w, n)| (w.to_string(), *n)).collect()
}

#[test]
fn sample_search_finds_first_two_lines() {
    assert_eq!(search(SAMPLE, Some("foo")), Ok(vec![1, 2]));
}

#[test]
fn sample_count_of_present_pattern() {
    assert_eq!(count(SAMPLE, Some("foo")), Ok(2));
}

#[test]
fn sample_count_of_absent_pattern_is_zero() {
    assert_eq!(count(SAMPLE, Some("zzz")), Ok(0));
}

#[test]
fn sample_replace_rewrites_lines() {
    assert_eq!(replace(SAMPLE, Some("foo"), Some("X")), Ok("X bar\nbaz X\nqux\n".to_string()));
}

#[test]
fn sample_stats() {
    let s = stats(SAMPLE);
    assert_eq!(s.total_words, 5);
    assert_eq!(s.longest_word, "foo");
    assert_eq!(s.word_frequency, table(&[("foo", 2), ("bar", 1), ("baz", 1), ("qux", 1)]));
}

#[test]
fn search_without_pattern_fails() {
    assert_eq!(search(SAMPLE, None), Err(TextError::PatternRequired));
}

#[test]
fn replace_without_replacement_fails() {
    assert_eq!(replace(SAMPLE, Some("x"), None), Err(TextError::ReplacementRequired));
}

#[test]
fn replace_without_pattern_fails_first() {
    assert_eq!(replace(SAMPLE, None, None), Err(TextError::PatternRequired));
}

#[test]
fn count_without_pattern_fails() {
    assert_eq!(count(SAMPLE, None), Err(TextError::PatternRequired));
}

#[test]
fn empty_pattern_matches_every_line() {
    assert_eq!(search(SAMPLE, Some("")), Ok(vec![1, 2, 3]));
    assert_eq!(count(SAMPLE, Some("")), Ok(3));
    assert_eq!(search("", Some("")), Err(TextError::NoMatch));
    assert_eq!(count("", Some("")), Ok(0));
}

#[test]
fn empty_pattern_replaces_at_every_boundary() {
    assert_eq!(replace("ab

", Some(""), Some("-")), Ok("-a-b-
-
".to_string()));
    assert_eq!(replace("ab", Some(""), Some("-")), Ok("ab".replace("", "-") + "\n"));
}

#[test]
fn empty_pattern_without_replacement_needs_replacement() {
    assert_eq!(replace(SAMPLE, Some(""), None), Err(TextError::ReplacementRequired));
}

#[test]
fn whitespace_test_agrees_with_std() {
    for c in (0u32..=0x10ffff).filter_map(char::from_u32) {
        assert_eq!(linetool::stats::is_whitespace(c), c.is_whitespace(), "{:?}", c);
    }
}

#[test]
fn search_with_no_matching_line_fails() {
    assert_eq!(search(SAMPLE, Some("zzz")), Err(TextError::NoMatch));
}

#[test]
fn search_in_empty_text_fails() {
    assert_eq!(search("", Some("a")), Err(TextError::NoMatch));
    assert_eq!(count("", Some("a")), Ok(0));
}

#[test]
fn search_counts_a_line_once() {
    let text = "aaa\nb\naa a\n";
    assert_eq!(search(text, Some("a")), Ok(vec![1, 3]));
    assert_eq!(count(text, Some("a")), Ok(2));
}

#[test]
fn count_agrees_with_search_length() {
    let text = "one two\ntwo\nthree\n\ntwo two";
    let found = search(text, Some("two")).unwrap();
    assert_eq!(found, vec![1, 2, 5]);
    assert_eq!(count(text, Some("two")), Ok(found.len()));
}

#[test]
fn search_is_case_sensitive() {
    assert_eq!(search("Foo\nfoo\n", Some("foo")), Ok(vec![2]));
}

#[test]
fn lines_end_at_newline_and_crlf() {
    let text = "a\r\nb\nc";
    assert_eq!(search(text, Some("c")), Ok(vec![3]));
    assert_eq!(replace(text, Some("a"), Some("z")), Ok("z\nb\nc\n".to_string()));
}

#[test]
fn empty_lines_are_numbered() {
    assert_eq!(search("\n\nx\n", Some("x")), Ok(vec![3]));
}

#[test]
fn replace_is_leftmost_and_non_overlapping() {
    assert_eq!(replace("aaa", Some("aa"), Some("b")), Ok("ba\n".to_string()));
}

#[test]
fn replace_with_empty_replacement_deletes() {
    assert_eq!(replace("a-b-c\n", Some("-"), Some("")), Ok("abc\n".to_string()));
}

#[test]
fn replace_of_empty_text_is_empty() {
    assert_eq!(replace("", Some("a"), Some("b")), Ok(String::new()));
}

#[test]
fn replace_twice_is_replace_once() {
    let once = replace(SAMPLE, Some("foo"), Some("X")).unwrap();
    let twice = replace(&once, Some("foo"), Some("X")).unwrap();
    assert_eq!(once, twice);
}

#[test]
fn replacement_count_not_below_pattern_count() {
    let before = count(SAMPLE, Some("foo")).unwrap();
    let once = replace(SAMPLE, Some("foo"), Some("X")).unwrap();
    let after = count(&once, Some("X")).unwrap();
    assert!(after >= before);
    assert_eq!(after, 2);
}

#[test]
fn stats_of_empty_text() {
    let s = stats("");
    assert_eq!(s.total_words, 0);
    assert_eq!(s.longest_word, "");
    assert!(s.word_frequency.is_empty());
}

#[test]
fn stats_of_blank_text() {
    let s = stats("  \n\t\n");
    assert_eq!(s.total_words, 0);
    assert_eq!(s.longest_word, "");
    assert!(s.word_frequency.is_empty());
}

#[test]
fn words_split_on_any_whitespace() {
    let s = stats("a\tb  c\u{3000}d");
    assert_eq!(s.total_words, 4);
    assert_eq!(s.word_frequency, table(&[("a", 1), ("b", 1), ("c", 1), ("d", 1)]));
}

#[test]
fn longest_word_keeps_first_of_equal_length() {
    assert_eq!(stats("ab cd efg hij").longest_word, "efg");
}

#[test]
fn longest_word_goes_by_bytes() {
    assert_eq!(stats("abc \u{e9}\u{e9}").longest_word, "\u{e9}\u{e9}");
}

#[test]
fn frequency_is_case_sensitive() {
    let s = stats("Word word word");
    assert_eq!(s.word_frequency, table(&[("Word", 1), ("word", 2)]));
}

#[test]
fn render_total() {
    let s = stats("a b c d e f g h i j k l");
    assert_eq!(s.render(Section::Total), "Total amount of words : 12\n");
}

#[test]
fn render_longest() {
    assert_eq!(stats("hi there").render(Section::Longest), "Longest word is there\n");
}

#[test]
fn render_frequent_words_sorted_stably() {
    let s = stats("b a b c a d");
    assert_eq!(
        s.render(Section::FrequentWords),
        "Frequent words : \n  | b : 2\n  | a : 2\n  | c : 1\n  | d : 1\n"
    );
}

#[test]
fn render_all_sections() {
    let s = stats(SAMPLE);
    assert_eq!(
        s.render(Section::All),
        "Frequent words : \n  | foo : 2\n  | bar : 1\n  | baz : 1\n  | qux : 1\n\
         For a total of 5 words\nWith the longest being foo\n"
    );
}

#[test]
fn render_of_empty_stats() {
    assert_eq!(
        stats("").render(Section::All),
        "Frequent words : \nFor a total of 0 words\nWith the longest being \n"
    );
}

#[test]
fn replace_can_leave_a_new_occurrence() {
    let once = replace("abb", Some("ab"), Some("a")).unwrap();
    assert_eq!(once, "ab\n");
    assert_eq!(replace(&once, Some("ab"), Some("a")), Ok("a\n".to_string()));
}

#[test]
fn last_line_keeps_bare_carriage_return() {
    assert_eq!(search("a\nb\r", Some("\r")), Ok(vec![2]));
    assert_eq!(search("a\r\nb", Some("\r")), Err(TextError::NoMatch));
}

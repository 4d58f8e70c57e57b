use rlay::wrap::{
    newlines_to_spaces, split_at_char, start_wrap, white_space, words_of, LineBreaker, WrapStart,
};
use rlay::TextWrap;

fn run(text: &str, max_chars: usize) -> Vec<String> {
    let mut breaker = LineBreaker::new(text);
    while !breaker.done() {
        let too_wide = match breaker.candidate() {
            Some(line) => line.chars().count() > max_chars,
            None => false,
        };
        breaker.advance(too_wide);
    }
    breaker.into_lines()
}

#[test]
fn text_wraps_words_greedily() {
    assert_eq!(run("aa bb cc", 5), vec!["aa bb", "cc"]);
    assert_eq!(run("aa bb cc", 100), vec!["aa bb cc"]);
    assert_eq!(run("aa bb cc", 1), vec!["aa", "bb", "cc"]);
}

#[test]
fn word_wrap_keeps_a_word_longer_than_the_line() {
    assert_eq!(run("extraordinary a", 4), vec!["extraordinary", "a"]);
}

#[test]
fn word_wrap_splits_paragraphs_and_collapses_white_space() {
    assert_eq!(run("a  b\n\n  c\td ", 100), vec!["a b", "", "c d"]);
    assert_eq!(run("", 10), vec![""]);
}

#[test]
fn split_matches_str_split() {
    assert_eq!(split_at_char("a\nb\n", '\n'), vec!["a", "b", ""]);
    assert_eq!(split_at_char("", '\n'), vec![""]);
    assert_eq!(split_at_char("abc", ','), vec!["abc"]);
    assert_eq!(newlines_to_spaces("a\nb\n"), "a b ");
}

#[test]
fn words_are_runs_of_non_white_space() {
    let words: Vec<String> = words_of(" héllo\u{3000}wörld  x")
        .into_iter()
        .map(|w| w.into_iter().collect())
        .collect();
    assert_eq!(words, vec!["héllo", "wörld", "x"]);
    assert!(white_space(' '));
    assert!(white_space('\u{a0}'));
    assert!(!white_space('a'));
}

#[test]
fn wrap_modes_choose_how_lines_are_found() {
    match start_wrap("", TextWrap::Words, true) {
        WrapStart::Lines(v) => assert_eq!(v, vec![""]),
        WrapStart::Measure(_) => panic!("empty text needs no measuring"),
    }
    match start_wrap("a\nb", TextWrap::SingleLine, true) {
        WrapStart::Lines(v) => assert_eq!(v, vec!["a b"]),
        WrapStart::Measure(_) => panic!("single-line text needs no measuring"),
    }
    match start_wrap("a\nb c", TextWrap::Newlines, true) {
        WrapStart::Lines(v) => assert_eq!(v, vec!["a", "b c"]),
        WrapStart::Measure(_) => panic!("newline wrapping needs no measuring"),
    }
    match start_wrap("a\nb c", TextWrap::Words, false) {
        WrapStart::Lines(v) => assert_eq!(v, vec!["a", "b c"]),
        WrapStart::Measure(_) => panic!("an unbounded width needs no measuring"),
    }
    match start_wrap("a b", TextWrap::Words, true) {
        WrapStart::Lines(_) => panic!("a finite width measures"),
        WrapStart::Measure(b) => assert!(!b.done()),
    }
}

#[test]
fn wrapped_lines_keep_every_word_in_order() {
    let text = "the quick  brown fox\njumps over\n\nthe lazy dog";
    for width in [1, 5, 9, 14, 100] {
        let lines = run(text, width);
        let from_lines: Vec<&str> = lines.iter().flat_map(|l| l.split(' ')).filter(|w| !w.is_empty()).collect();
        let from_text: Vec<&str> = text.split_whitespace().collect();
        assert_eq!(from_lines, from_text);
        for line in &lines {
            assert!(!line.contains("  "));
            assert!(!line.starts_with(' ') && !line.ends_with(' '));
        }
    }
}

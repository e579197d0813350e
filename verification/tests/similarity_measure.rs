//! How similar texts are found to be.

use spaghetti::models::Ratio;
use spaghetti::similarity::{sequence_matcher_ratio, Similarity};

fn matched(a: &str, b: &str) -> (usize, usize) {
    let s = sequence_matcher_ratio(a, b);
    (s.matched, s.first + s.second)
}

fn ratio(numerator: u32, denominator: u32) -> Ratio {
    Ratio { numerator, denominator }
}

#[test]
fn blocks_are_found_on_both_sides_of_the_longest() {
    assert_eq!(matched("abcd", "bcde"), (3, 8));
    assert_eq!(matched("abxcd", "abcd"), (4, 9));
    assert_eq!(
        matched("private Thread currentThread;", "private volatile Thread currentThread;"),
        (29, 67)
    );
}

#[test]
fn the_measure_is_not_symmetric() {
    assert_eq!(matched("tide", "diet"), (1, 8));
    assert_eq!(matched("diet", "tide"), (2, 8));
}

#[test]
fn empty_texts_are_identical() {
    let s = sequence_matcher_ratio("", "");
    assert_eq!((s.matched, s.first, s.second), (0, 0, 0));
    assert!(s.at_least(ratio(1, 1)));
    assert!(!s.at_least(ratio(11, 10)));
    assert_eq!(s.percent_text(), "100");
    assert_eq!(matched("abc", ""), (0, 3));
}

#[test]
fn popular_characters_begin_no_block() {
    // The second text is long and made of few characters.
    let a = "x = 1\ny = 2\n".repeat(10);
    let b = "x = 1\n".repeat(40);
    assert_eq!(matched(&a, &b), (6, 360));
    assert_eq!(matched(&"ba".repeat(50), &"a".repeat(250)), (0, 350));
}

#[test]
fn popular_characters_extend_a_block() {
    assert_eq!(matched(&"a".repeat(100), &"a".repeat(250)), (100, 350));
    let mut a = String::new();
    let mut b = String::new();
    for i in 0..20 {
        let line = format!("line {i} = value_{i}\n");
        if i % 2 == 0 {
            a.push_str(&line);
        }
        b.push_str(&line);
    }
    assert_eq!(matched(&a, &b), (180, 540));
    assert_eq!(matched(&a, &b[..199]), (113, 379));
}

#[test]
fn identical_texts_match_wholly() {
    let text = "def f(x):\n    return x + 1\n".repeat(12);
    let n = text.chars().count();
    assert_eq!(matched(&text, &text), (n, 2 * n));
    assert_eq!(sequence_matcher_ratio(&text, &text).percent_text(), "100");
}

#[test]
fn the_threshold_is_met_exactly() {
    let s = sequence_matcher_ratio("abcd", "bcde");
    assert!(s.at_least(ratio(3, 4)));
    assert!(s.at_least(ratio(3, 5)));
    assert!(!s.at_least(ratio(76, 100)));
}

#[test]
fn percents_are_rounded() {
    let shown = |matched: usize, first: usize, second: usize| {
        Similarity { matched, first, second }.percent_text()
    };
    assert_eq!(shown(3, 4, 4), "75");
    assert_eq!(shown(1, 3, 3), "33");
    assert_eq!(shown(2, 3, 3), "67");
    // Halves: 0.5, 1.5, 12.5 and 54.5, 57.5 percent.
    assert_eq!(shown(1, 200, 200), "0");
    assert_eq!(shown(3, 200, 200), "2");
    assert_eq!(shown(1, 8, 8), "12");
    assert_eq!(shown(109, 200, 200), "55");
    assert_eq!(shown(115, 200, 200), "57");
    assert_eq!(shown(111, 200, 200), "56");
}

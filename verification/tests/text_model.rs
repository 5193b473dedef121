use scout::common::{Letters, SearchBox, TextBuilder};
use scout::scoring::{score_pattern, score_position, score_quality};

#[test]
fn letters_segments_graphemes_test() {
    // Combining marks stay glued to their base character; fails if the
    // segmentation boundary handed the whole string back as one cluster.
    let letters = Letters::new(String::from("a\u{310}e\u{301}o\u{308}\u{332}"));
    assert_eq!(letters.len(), 3);
    assert_eq!(letters.grapheme_at(0), "a\u{310}");
    assert_eq!(letters.grapheme_at(1), "e\u{301}");
    assert_eq!(letters.grapheme_at(2), "o\u{308}\u{332}");

    let plain = Letters::new(String::from("ab"));
    assert_eq!(plain.len(), 2);
    assert_eq!(plain.last_index(), 1);
    assert!(!plain.is_empty());
}

#[test]
fn letters_lowercase_view_test() {
    let letters = Letters::new(String::from("AbC"));
    assert_eq!(letters.grapheme_at(0), "A");
    assert_eq!(letters.lowercase_grapheme_at(0), "a");
    assert_eq!(letters.lowercase_grapheme_at(1), "b");
    assert_eq!(letters.lowercase_grapheme_at(2), "c");
    let collected: Vec<&String> = letters.iter().collect();
    assert_eq!(collected.len(), 3);
    assert_eq!(collected[0].as_str(), "A");
    let folded: Vec<&String> = letters.lowercase_iter().collect();
    assert_eq!(folded[2].as_str(), "c");
}

#[test]
fn letters_empty_string_test() {
    let letters = Letters::new(String::new());
    assert_eq!(letters.len(), 0);
    assert_eq!(letters.last_index(), 0);
    assert!(letters.is_empty());
}

#[test]
fn text_builder_shares_letters_test() {
    let text = TextBuilder::build("hello");
    assert_eq!(text.len(), 5);
    let other = text.clone();
    assert_eq!(other.len(), 5);
}

#[test]
fn search_box_editing_test() {
    let mut sb = SearchBox::new();
    assert_eq!(sb.len(), 0);
    sb.add('a');
    sb.add('c');
    sb.left();
    sb.add('b');
    assert_eq!(sb.as_string(), "abc");
    assert_eq!(sb.len(), 3);
    assert_eq!(sb.cursor_until_end(), 1);
    sb.to_end();
    assert_eq!(sb.cursor_until_end(), 0);
    sb.backspace();
    assert_eq!(sb.as_string(), "ab");
    sb.to_start();
    assert_eq!(sb.cursor_until_end(), 2);
    sb.right();
    sb.backspace();
    assert_eq!(sb.as_string(), "b");
    sb.clear();
    assert_eq!(sb.as_string(), "");
    assert_eq!(sb.len(), 0);
}

#[test]
fn search_box_from_string_test() {
    let mut sb = SearchBox::from_string(&String::from("query"));
    assert_eq!(sb.as_string(), "query");
    assert_eq!(sb.cursor_until_end(), 0);
    sb.refresh();
    let _ = sb.timestamp();
    sb.backspace();
    assert_eq!(sb.as_string(), "quer");
}

#[test]
fn score_position_formula_test() {
    assert_eq!(score_position(0), 500);
    assert_eq!(score_position(5), 325);
    assert_eq!(score_position(19), 101);
    assert_eq!(score_position(20), 100);
    assert_eq!(score_position(119), 1);
    assert_eq!(score_position(120), 0);
    assert_eq!(score_position(5000), 0);
}

#[test]
fn score_pattern_formula_test() {
    // same_case + sz * (sz + bonus), bonus 6 plus 3 for a word start.
    assert_eq!(score_pattern(2, 3, 1, true, false), 23);
    // Full-query coverage at a word start with exact case grows the span.
    assert_eq!(score_pattern(2, 2, 2, true, true), 2 + 4 * (4 + 13));
}

#[test]
fn score_quality_formula_test() {
    // 2n (WM q + position bonus) scaled by SCORE_SCALE, size penalty 1.
    assert_eq!(score_quality(1, 1, 7, 0, 1), 203161600);
}

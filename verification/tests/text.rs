use rlay::text::{char_index_to_byte, chars_of, has_prefix, same_text};
use rlay::TextSelection;

#[test]
fn text_selection_normalized_orders_the_range() {
    let selection = TextSelection::new(3, 1);
    assert_eq!(selection.anchor, 3);
    assert_eq!(selection.focus, 1);
    assert_eq!(selection.normalized(), Some((1, 3)));
    assert_eq!(TextSelection::new(1, 3).normalized(), Some((1, 3)));
}

#[test]
fn empty_text_selection_has_no_range() {
    assert_eq!(TextSelection::new(2, 2).normalized(), None);
    assert_eq!(TextSelection::new(0, 0).normalized(), None);
}

#[test]
fn char_index_to_byte_counts_utf8_bytes() {
    assert_eq!(char_index_to_byte("abcd", 0), 0);
    assert_eq!(char_index_to_byte("abcd", 2), 2);
    assert_eq!(char_index_to_byte("abcd", 4), 4);
    assert_eq!(char_index_to_byte("héllo", 1), 1);
    assert_eq!(char_index_to_byte("héllo", 2), 3);
    assert_eq!(char_index_to_byte("日本語", 2), 6);
}

#[test]
fn char_index_past_the_end_is_the_byte_length() {
    assert_eq!(char_index_to_byte("abc", 10), 3);
    assert_eq!(char_index_to_byte("héllo", 99), 6);
    assert_eq!(char_index_to_byte("", 3), 0);
}

#[test]
fn byte_offsets_grow_with_the_char_index() {
    let text = "añb日c";
    let mut previous = 0;
    for i in 0..7 {
        let b = char_index_to_byte(text, i);
        assert!(b >= previous);
        previous = b;
    }
    assert_eq!(previous, text.len());
}

#[test]
fn text_helpers_compare_and_split() {
    assert!(same_text("abc", "abc"));
    assert!(!same_text("abc", "abd"));
    assert!(!same_text("abc", "ab"));
    assert!(has_prefix("__rlay_x", "__rlay_"));
    assert!(!has_prefix("_rlay", "__rlay_"));
    assert!(has_prefix("anything", ""));
    assert_eq!(chars_of("añb"), vec!['a', 'ñ', 'b']);
}

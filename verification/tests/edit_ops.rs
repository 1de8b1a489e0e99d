use frext::edit_ops::{byte_offset, delete_range, normalize, replace_range, selected_text};

#[test]
fn selected_text_extracts_the_range() {
    assert_eq!(selected_text("hello world", 0, 5), "hello");
    assert_eq!(selected_text("hello world", 6, 11), "world");
    // Reversed range is normalised.
    assert_eq!(selected_text("hello world", 11, 6), "world");
    // Empty selection.
    assert_eq!(selected_text("hello", 2, 2), "");
}

#[test]
fn selected_text_is_char_aware() {
    let text = "café au lait";
    assert_eq!(selected_text(text, 0, 4), "café");
    assert_eq!(selected_text(text, 5, 7), "au");
}

#[test]
fn delete_range_removes_and_returns_caret() {
    let mut text = "hello world".to_owned();
    let caret = delete_range(&mut text, 5, 11);
    assert_eq!(text, "hello");
    assert_eq!(caret, 5);
}

#[test]
fn delete_empty_range_is_a_noop() {
    let mut text = "stable".to_owned();
    let caret = delete_range(&mut text, 3, 3);
    assert_eq!(text, "stable");
    assert_eq!(caret, 3);
}

#[test]
fn delete_range_is_char_aware() {
    let mut text = "café crème".to_owned();
    let caret = delete_range(&mut text, 0, 5);
    assert_eq!(text, "crème");
    assert_eq!(caret, 0);
}

#[test]
fn replace_range_inserts_over_selection() {
    let mut text = "hello world".to_owned();
    let caret = replace_range(&mut text, 6, 11, "there");
    assert_eq!(text, "hello there");
    assert_eq!(caret, 11);
}

#[test]
fn replace_empty_selection_inserts_at_caret() {
    let mut text = "ac".to_owned();
    let caret = replace_range(&mut text, 1, 1, "b");
    assert_eq!(text, "abc");
    assert_eq!(caret, 2);
}

#[test]
fn replace_range_is_char_aware() {
    let mut text = "café".to_owned();
    let caret = replace_range(&mut text, 3, 4, "e");
    assert_eq!(text, "cafe");
    assert_eq!(caret, 4);
}

#[test]
fn out_of_range_indices_clamp_to_the_end() {
    assert_eq!(selected_text("abc", 1, 99), "bc");
    let mut text = "abc".to_owned();
    let caret = delete_range(&mut text, 99, 1);
    assert_eq!(text, "a");
    assert_eq!(caret, 1);
    let mut text = "abc".to_owned();
    let caret = replace_range(&mut text, 50, 60, "d");
    assert_eq!(text, "abcd");
    assert_eq!(caret, 4);
}

#[test]
fn cut_then_paste_restores_the_text() {
    let original = "naïve café";
    let cut = selected_text(original, 2, 7);
    let mut text = original.to_owned();
    let caret = delete_range(&mut text, 2, 7);
    assert_eq!(text, "naafé");
    let caret = replace_range(&mut text, caret, caret, &cut);
    assert_eq!(text, original);
    assert_eq!(caret, 7);
}

#[test]
fn byte_offset_and_normalize_follow_chars() {
    assert_eq!(byte_offset("café!", 4), 5);
    assert_eq!(byte_offset("café!", 9), 6);
    assert_eq!(normalize("abc", 3, 1), (1, 3));
    assert_eq!(normalize("abc", 7, 9), (3, 3));
}

use frext::app::{byte_index, char_index, line_count, line_numbers_for_rows};

#[test]
fn line_count_handles_empty_and_trailing_newlines() {
    assert_eq!(line_count(""), 1);
    assert_eq!(line_count("one line"), 1);
    assert_eq!(line_count("a\nb\nc"), 3);
    assert_eq!(line_count("a\nb\n"), 3);
}

#[test]
fn line_numbers_unwrapped_rows_number_consecutively() {
    let rows = [true, true, false];
    assert_eq!(line_numbers_for_rows(&rows), vec![(0, 1), (1, 2), (2, 3)]);
}

#[test]
fn line_numbers_skip_soft_wrap_continuation_rows() {
    let rows = [false, true, false];
    assert_eq!(line_numbers_for_rows(&rows), vec![(0, 1), (2, 2)]);
}

#[test]
fn line_numbers_after_newline_do_not_mark_a_wrapped_row() {
    let rows = [false, true, false];
    let numbered: Vec<usize> = line_numbers_for_rows(&rows).into_iter().map(|(row, _)| row).collect();
    assert!(!numbered.contains(&1), "the soft-wrap continuation row must not be numbered");
    assert_eq!(numbered, vec![0, 2]);
}

#[test]
fn line_numbers_empty_galley_yields_nothing() {
    assert_eq!(line_numbers_for_rows(&[]), vec![]);
}

#[test]
fn line_numbers_single_row() {
    assert_eq!(line_numbers_for_rows(&[false]), vec![(0, 1)]);
}

#[test]
fn every_newline_row_starts_a_numbered_line() {
    let rows = [false, false, true, true, false, true];
    assert_eq!(line_numbers_for_rows(&rows), vec![(0, 1), (3, 2), (4, 3)]);
}

#[test]
fn byte_and_char_indices_convert_both_ways() {
    let text = "héllo";
    assert_eq!(byte_index(text, 2), 3);
    assert_eq!(char_index(text, 3), 2);
    assert_eq!(byte_index(text, 40), 6);
    assert_eq!(char_index(text, 40), 5);
    // A byte inside a character rounds up to the next character.
    assert_eq!(char_index(text, 2), 2);
}

use frext::font::{contains_text, emoji_face_order, font_has_drawable_emoji, insert_after, CASKAYDIA, EMOJI_CANDIDATES, SYSTEM_EMOJI};

#[test]
fn insert_after_places_name_directly_after_the_anchor() {
    let mut list = vec!["a".to_owned(), "b".to_owned(), "c".to_owned()];
    insert_after(&mut list, "a", "emoji");
    assert_eq!(list, vec!["a", "emoji", "b", "c"]);
}

#[test]
fn insert_after_appends_when_anchor_is_absent() {
    let mut list = vec!["x".to_owned(), "y".to_owned()];
    insert_after(&mut list, "missing", "emoji");
    assert_eq!(list, vec!["x", "y", "emoji"]);
}

#[test]
fn insert_after_is_idempotent() {
    let mut list = vec!["a".to_owned(), "emoji".to_owned(), "b".to_owned()];
    insert_after(&mut list, "a", "emoji");
    assert_eq!(list, vec!["a", "emoji", "b"], "an already-present name must not be inserted twice");
}

#[test]
fn emoji_fallback_sits_right_after_the_bundled_face() {
    let mut mono = vec![CASKAYDIA.to_owned(), "Hack".to_owned(), "NotoEmoji-Regular".to_owned()];
    let mut prop = vec!["Ubuntu-Light".to_owned(), "NotoEmoji-Regular".to_owned(), CASKAYDIA.to_owned()];
    insert_after(&mut mono, CASKAYDIA, SYSTEM_EMOJI);
    insert_after(&mut prop, CASKAYDIA, SYSTEM_EMOJI);
    for list in [&mono, &prop] {
        let c = list.iter().position(|f| f == CASKAYDIA).unwrap();
        let e = list.iter().position(|f| f == SYSTEM_EMOJI).unwrap();
        assert_eq!(e, c + 1, "{list:?}");
    }
    // Placing it again changes nothing.
    let before = mono.clone();
    insert_after(&mut mono, CASKAYDIA, SYSTEM_EMOJI);
    assert_eq!(mono, before);
}

#[test]
fn insert_after_uses_the_first_occurrence_of_the_anchor() {
    let mut list = vec!["a".to_owned(), "b".to_owned(), "a".to_owned()];
    insert_after(&mut list, "a", "n");
    assert_eq!(list, vec!["a", "n", "b", "a"]);
    let mut empty: Vec<String> = Vec::new();
    insert_after(&mut empty, "a", "n");
    assert_eq!(empty, vec!["n"]);
}

#[test]
fn outline_check_accepts_an_outline_emoji_font() {
    let defs = egui::FontDefinitions::default();
    let emoji = &defs.font_data["NotoEmoji-Regular"];
    assert!(font_has_drawable_emoji(&emoji.font, emoji.index));
}

#[test]
fn outline_check_rejects_a_font_without_the_emoji() {
    let defs = egui::FontDefinitions::default();
    let hack = &defs.font_data["Hack"];
    assert!(!font_has_drawable_emoji(&hack.font, hack.index));
}

#[test]
fn outline_check_rejects_bytes_that_are_no_font() {
    assert!(!font_has_drawable_emoji(b"definitely not a font", 0));
    assert!(!font_has_drawable_emoji(&[], 0));
}

#[test]
fn substring_search_finds_family_names() {
    assert!(contains_text("Noto Color Emoji", "Emoji"));
    assert!(contains_text("Noto Color Emoji", ""));
    assert!(contains_text("Emoji", "Emoji"));
    assert!(!contains_text("Emo", "Emoji"));
    assert!(!contains_text("Noto Sans", "Emoji"));
}

#[test]
fn emoji_faces_are_tried_in_candidate_order() {
    let faces = vec![
        vec!["Noto Color Emoji".to_owned()],
        vec!["DejaVu Sans".to_owned()],
        vec!["Symbola".to_owned()],
        vec!["Noto Emoji".to_owned(), "Noto Emoji Regular".to_owned()],
    ];
    let order = emoji_face_order(&faces);
    // "Noto Emoji" first (face 3), then "Symbola" (face 2), then
    // "Noto Color Emoji" (face 0), then the bare "Emoji" matching faces 0 and 3.
    assert_eq!(order, vec![(0, 3), (3, 2), (6, 0), (9, 0), (9, 3)]);
    assert_eq!(EMOJI_CANDIDATES[order[0].0], "Noto Emoji");
    assert!(emoji_face_order(&Vec::new()).is_empty());
}

use frext::error::SearchError;
use frext::search::{nonempty_matches, splice, SearchQuery};

fn query(pattern: &str, case_sensitive: bool, regex: bool, whole_word: bool) -> SearchQuery {
    SearchQuery { pattern: pattern.to_owned(), case_sensitive, regex, whole_word }
}

#[test]
fn plain_search_is_case_insensitive_by_default() {
    let m = query("foo", false, false, false).compile().unwrap();
    assert_eq!(m.find_matches("Foo foo FOO"), vec![0..3, 4..7, 8..11]);
}

#[test]
fn plain_search_respects_case_sensitivity() {
    let m = query("foo", true, false, false).compile().unwrap();
    assert_eq!(m.find_matches("Foo foo FOO"), vec![4..7]);
}

#[test]
fn plain_search_escapes_regex_metacharacters() {
    let m = query("a.c", false, false, false).compile().unwrap();
    assert_eq!(m.find_matches("a.c abc axc"), vec![0..3]);
}

#[test]
fn regex_search_matches_patterns() {
    let m = query(r"\d+", false, true, false).compile().unwrap();
    assert_eq!(m.find_matches("ab12cd345"), vec![2..4, 6..9]);
}

#[test]
fn invalid_regex_is_a_typed_error() {
    let err = match query("(", false, true, false).compile() {
        Err(e) => e,
        Ok(_) => panic!("an unclosed group must not compile"),
    };
    assert!(matches!(err, SearchError::InvalidRegex(_)));
}

#[test]
fn whole_word_requires_boundaries() {
    let m = query("cat", false, false, true).compile().unwrap();
    assert_eq!(m.find_matches("cat category scat cat"), vec![0..3, 18..21]);
}

#[test]
fn zero_width_matches_are_skipped() {
    let m = query("a*", false, true, false).compile().unwrap();
    assert_eq!(m.find_matches("baab"), vec![1..3]);
}

#[test]
fn find_matches_in_scope_filters_to_selection() {
    let m = query("a", false, false, false).compile().unwrap();
    assert_eq!(m.find_matches_in("a a a", 2..5), vec![2..3, 4..5]);
}

#[test]
fn replace_all_is_literal_in_plain_mode() {
    let m = query("foo", false, false, false).compile().unwrap();
    assert_eq!(m.replace_all("foo foo", "$1"), "$1 $1");
}

#[test]
fn replace_all_expands_captures_in_regex_mode() {
    let m = query(r"(\w+)@(\w+)", false, true, false).compile().unwrap();
    assert_eq!(m.replace_all("user@host", "$2.$1"), "host.user");
}

#[test]
fn replace_one_at_replaces_only_the_targeted_match() {
    let m = query("foo", false, false, false).compile().unwrap();
    let (out, range) = m.replace_one_at("foo foo", 4, "bar").unwrap();
    assert_eq!(out, "foo bar");
    assert_eq!(range, 4..7);
    assert!(m.replace_one_at("foo foo", 1, "bar").is_none());
}

#[test]
fn whole_word_plain_query_escapes_and_bounds() {
    let m = query("a+b", true, false, true).compile().unwrap();
    assert_eq!(m.find_matches("a+b xa+b a+b"), vec![0..3, 9..12]);
}

#[test]
fn replace_one_at_expands_captures_in_regex_mode() {
    let m = query(r"(\w)(\w)", false, true, false).compile().unwrap();
    let (out, range) = m.replace_one_at("ab cd", 3, "$2$1!").unwrap();
    assert_eq!(out, "ab dc!");
    assert_eq!(range, 3..6);
}

#[test]
fn empty_query_is_empty() {
    assert!(query("", false, false, false).is_empty());
    assert!(!query(" ", false, false, false).is_empty());
}

#[test]
fn invalid_regex_message_comes_from_the_regex_crate() {
    match query("[", false, true, false).compile() {
        Err(SearchError::InvalidRegex(msg)) => assert!(!msg.is_empty()),
        Ok(_) => panic!("an unclosed class must not compile"),
    }
}

#[test]
fn empty_spans_are_dropped_and_order_kept() {
    let spans = vec![0..0, 1..3, 3..3, 3..4];
    assert_eq!(nonempty_matches(&spans, "baab"), vec![1..3, 3..4]);
    assert!(nonempty_matches(&Vec::new(), "").is_empty());
}

#[test]
fn splicing_replaces_the_byte_range() {
    let (out, range) = splice("héllo", 3, 5, "LL");
    assert_eq!(out, "héLLo");
    assert_eq!(range, 3..5);
    let (out, range) = splice("ab", 1, 1, "é");
    assert_eq!(out, "aéb");
    assert_eq!(range, 1..3);
}

use frext::persistence::{restore, session_from, RestoredSession, Session, Store, TabRecord};
use frext::search::SearchQuery;
use frext::tab::Tab;
use frext::workspace::Workspace;

#[test]
fn store_layout_lives_under_its_root() {
    let store = Store::with_root("/state".to_owned());
    assert_eq!(store.root(), "/state");
    assert_eq!(store.session_path(), "/state/session.json");
    assert_eq!(store.swap_dir(), "/state/swap");
    assert_eq!(store.swap_path(42), "/state/swap/42.swp");
    assert_eq!(Store::with_root("/state/".to_owned()).swap_path(0), "/state/swap/0.swp");
}

#[test]
fn empty_session_restores_nothing() {
    let r = restore(Session { tabs: Vec::new(), active: 3, next_id: 0, workspace: None, search: SearchQuery::empty() }, Vec::new());
    assert!(r.tabs.is_empty());
    assert_eq!(r.active, 0);
    assert_eq!(r.next_id, 0);
    assert!(r.workspace.is_none());
    let e = RestoredSession::empty();
    assert!(e.tabs.is_empty() && e.active == 0 && e.next_id == 0 && e.workspace.is_none());
}

#[test]
fn roundtrip_preserves_unsaved_buffers() {
    let mut dirty = Tab::from_file(2, "/w/a.txt".to_owned(), "saved".to_owned());
    dirty.text = "unsaved work".to_owned();
    let tabs = vec![Tab::new_untitled(1), dirty];
    let session = session_from(&tabs, 1, 3, None, &SearchQuery::empty());
    assert_eq!(session.tabs.len(), 2);
    assert_eq!(session.tabs[1].saved_text, "saved");
    let swaps = tabs.iter().map(|t| Some(t.text.clone())).collect();
    let r = restore(session, swaps);
    assert_eq!(r.tabs.len(), 2);
    assert_eq!(r.tabs[1].id, 2);
    assert_eq!(r.tabs[1].path.as_deref(), Some("/w/a.txt"));
    assert_eq!(r.tabs[1].text, "unsaved work");
    assert!(r.tabs[1].is_dirty());
    assert_eq!(r.active, 1);
    assert_eq!(r.next_id, 3);
}

#[test]
fn a_missing_swap_skips_its_tab_and_clamps_focus() {
    let session = Session {
        tabs: vec![
            TabRecord { id: 1, path: None, saved_text: String::new() },
            TabRecord { id: 2, path: Some("/w/b.txt".to_owned()), saved_text: "b".to_owned() },
        ],
        active: 1,
        next_id: 3,
        workspace: None,
        search: SearchQuery::empty(),
    };
    let r = restore(session, vec![Some("kept".to_owned()), None]);
    assert_eq!(r.tabs.len(), 1);
    assert_eq!(r.tabs[0].id, 1);
    assert_eq!(r.tabs[0].text, "kept");
    assert_eq!(r.active, 0);
}

#[test]
fn workspace_round_trips_through_session() {
    let mut ws = Workspace::new("/projects/demo".to_owned());
    ws.set_expanded("/projects/demo/src", true);
    let session = session_from(&Vec::new(), 0, 0, Some(&ws), &SearchQuery::empty());
    let restored = restore(session, Vec::new());
    let back = restored.workspace.expect("workspace persisted");
    assert_eq!(back.root(), "/projects/demo");
    assert!(back.is_expanded("/projects/demo/src"));
}

#[test]
fn at_creates_swap_layout() {
    let store = Store::with_root("/tmp/layout".to_owned());
    assert_eq!(store.swap_dir(), "/tmp/layout/swap");
}

#[test]
fn load_missing_session_is_empty() {
    let restored = RestoredSession::empty();
    assert!(restored.tabs.is_empty());
    assert_eq!(restored.active, 0);
    assert_eq!(restored.next_id, 0);
    assert!(restored.workspace.is_none());
}

#[test]
fn roundtrip_preserves_unsaved_buffer() {
    let mut tab = Tab::new_untitled(7);
    tab.text = "unsaved work".to_owned();
    let tabs = vec![tab];
    let session = session_from(&tabs, 0, 8, None, &SearchQuery::empty());
    let restored = restore(session, vec![Some(tabs[0].text.clone())]);
    assert_eq!(restored.tabs.len(), 1);
    assert_eq!(restored.tabs[0].id, 7);
    assert_eq!(restored.tabs[0].text, "unsaved work");
    assert!(restored.tabs[0].is_dirty());
    assert_eq!(restored.active, 0);
    assert_eq!(restored.next_id, 8);
}

#[test]
fn remove_swap_then_load_skips_tab() {
    let tabs = vec![Tab::new_untitled(3)];
    let session = session_from(&tabs, 0, 4, None, &SearchQuery::empty());
    let restored = restore(session, vec![None]);
    assert!(restored.tabs.is_empty());
}

#[test]
fn the_search_query_survives_a_restart() {
    let query = SearchQuery { pattern: "fn (\\w+)".to_owned(), case_sensitive: true, regex: true, whole_word: false };
    let session = session_from(&Vec::new(), 0, 1, None, &query);
    let restored = restore(session, Vec::new());
    assert_eq!(restored.search.pattern, "fn (\\w+)");
    assert!(restored.search.case_sensitive && restored.search.regex && !restored.search.whole_word);
}

use frext::app::{CloseChoice, Effect, FileProbe, FrextApp, FsPromptKind};
use frext::persistence::RestoredSession;
use frext::search::SearchQuery;
use frext::tab::Tab;
use frext::workspace::Workspace;

fn probe(path: &str, contents: Option<&str>) -> FileProbe {
    FileProbe {
        path: path.to_owned(),
        canonical: contents.map(|_| path.to_owned()),
        contents: contents.map(str::to_owned),
    }
}

fn fresh() -> FrextApp {
    FrextApp::new(RestoredSession::empty())
}

fn canonicals(app: &FrextApp) -> Vec<Option<String>> {
    app.tabs().iter().map(|t| t.path.clone()).collect()
}

/// Two file-backed tabs behind the initial untitled one, the first focused.
fn app_with_two_tabs(first: &str, second: &str) -> FrextApp {
    let mut app = FrextApp::with_files(
        RestoredSession::empty(),
        Vec::new(),
        vec![probe("/w/a.txt", Some(first)), probe("/w/b.txt", Some(second))],
    );
    let index = app.tabs().iter().position(|t| t.text == first).unwrap();
    app.select_tab(index);
    app
}

#[test]
fn requesting_close_of_a_clean_tab_closes_immediately() {
    let mut app = fresh();
    app.new_tab();
    let before = app.tabs().len();
    assert!(!app.tabs()[0].is_dirty());
    app.request_close_tab(0);
    assert!(app.pending_close().is_none(), "a clean close needs no prompt");
    assert_eq!(app.tabs().len(), before - 1);
}

#[test]
fn requesting_close_of_a_dirty_tab_prompts_instead_of_closing() {
    let mut app = fresh();
    app.new_tab();
    let before = app.tabs().len();
    app.select_tab(0);
    let mut text = app.replace_active_text(String::new());
    text.push_str("unsaved work");
    app.replace_active_text(text);
    assert!(app.tabs()[0].is_dirty());
    app.request_close_tab(0);
    assert_eq!(app.pending_close(), Some(0), "a dirty close must open the confirmation prompt");
    assert_eq!(app.tabs().len(), before, "the tab must not be closed yet");
    assert_eq!(app.take_pending_close(), Some(0));
    assert_eq!(app.pending_close(), None);
}

#[test]
fn saving_a_dirty_tab_clears_its_dirty_state() {
    let mut app = FrextApp::with_files(RestoredSession::empty(), Vec::new(), vec![probe("/w/doc.txt", Some("original"))]);
    let index = app.active();
    app.replace_active_text("edited".to_owned());
    assert!(app.tabs()[index].is_dirty());
    app.take_effects();
    let target = app.save_target(index, None);
    assert_eq!(target.as_deref(), Some("/w/doc.txt"));
    assert!(app.save_tab(index, target, true));
    assert!(!app.tabs()[index].is_dirty());
    assert_eq!(app.take_effects(), vec![Effect::SaveSession]);
}

#[test]
fn opening_cli_file_loads_its_contents_and_focuses_it() {
    let app = FrextApp::with_files(RestoredSession::empty(), Vec::new(), vec![probe("/w/hello.txt", Some("hello from disk"))]);
    let active = &app.tabs()[app.active()];
    assert_eq!(active.path.as_deref(), Some("/w/hello.txt"));
    assert_eq!(active.text, "hello from disk");
    assert!(!active.is_dirty());
}

#[test]
fn opening_same_path_twice_reuses_the_tab() {
    let mut app = fresh();
    let baseline = app.tabs().len();
    let c = canonicals(&app);
    assert!(app.open_probe(probe("/w/notes.txt", Some("body")), &c));
    assert_eq!(app.tabs().len(), baseline + 1);
    let first_index = app.active();
    app.select_tab(0);
    let c = canonicals(&app);
    assert!(app.open_probe(probe("/w/./notes.txt", Some("body")), &c));
    assert_eq!(app.tabs().len(), baseline + 1);
    assert_eq!(app.active(), first_index);
}

#[test]
fn opening_nonexistent_file_reports_failure_and_adds_no_tab() {
    let mut app = fresh();
    let before = app.tabs().len();
    let c = canonicals(&app);
    assert!(!app.open_probe(probe("/w/does-not-exist.txt", None), &c));
    assert_eq!(app.tabs().len(), before);
}

#[test]
fn cli_files_persist_into_session_for_next_launch() {
    let mut app = FrextApp::with_files(RestoredSession::empty(), Vec::new(), vec![probe("/w/restore-me.txt", Some("keep me"))]);
    let effects = app.take_effects();
    assert_eq!(effects.last(), Some(&Effect::SaveSession));
    let id = app.tabs()[app.active()].id;
    assert!(effects.contains(&Effect::SaveSwap(id)));
}

#[test]
fn closing_the_workspace_drops_it_from_the_session() {
    let mut app = FrextApp::with_args(RestoredSession::empty(), Vec::new(), Vec::new(), Some("/w/project".to_owned()));
    assert!(app.workspace().is_some());
    app.take_effects();
    app.close_workspace();
    assert!(app.workspace().is_none());
    assert_eq!(app.take_effects(), vec![Effect::SaveSession]);
    app.close_workspace();
    assert!(app.workspace().is_none());
    assert!(app.take_effects().is_empty());
}

#[test]
fn directory_argument_opens_a_workspace_and_persists_it() {
    let mut app = FrextApp::with_args(RestoredSession::empty(), Vec::new(), Vec::new(), Some("/w/project".to_owned()));
    assert_eq!(app.workspace().map(|w| w.root().clone()), Some("/w/project".to_owned()));
    assert_eq!(app.take_effects().last(), Some(&Effect::SaveSession));
}

#[test]
fn a_directory_argument_for_the_restored_root_keeps_its_folders() {
    let mut ws = Workspace::new("/w/project".to_owned());
    ws.set_expanded("/w/project/src", true);
    let mut restored = RestoredSession::empty();
    restored.workspace = Some(ws);
    let app = FrextApp::with_args(restored, Vec::new(), Vec::new(), Some("/w/project/".to_owned()));
    assert!(app.workspace().unwrap().is_expanded("/w/project/src"));
}

#[test]
fn search_targets_only_the_active_tab() {
    let mut app = app_with_two_tabs("foo here foo", "foo and foo and foo");
    app.search_mut().query.pattern = "foo".to_owned();
    app.recompute_matches();
    assert_eq!(app.search().matches, vec![0..3, 9..12]);
    let other = app.tabs().iter().position(|t| t.text == "foo and foo and foo").unwrap();
    app.select_tab(other);
    app.recompute_matches();
    assert_eq!(app.search().matches.len(), 3);
}

#[test]
fn stepping_matches_wraps_around() {
    let mut app = app_with_two_tabs("x x x", "");
    app.search_mut().query.pattern = "x".to_owned();
    app.recompute_matches();
    assert_eq!(app.search().current, Some(0));
    app.step_match(true);
    assert_eq!(app.search().current, Some(1));
    app.step_match(true);
    assert_eq!(app.search().current, Some(2));
    app.step_match(true);
    assert_eq!(app.search().current, Some(0));
    app.step_match(false);
    assert_eq!(app.search().current, Some(2));
    assert_eq!(app.search().scroll_to, Some(4..5));
}

#[test]
fn replace_all_only_changes_the_active_tab() {
    let mut app = app_with_two_tabs("cat cat", "cat in tab two");
    let active = app.active();
    let other = app.tabs().iter().position(|t| t.text == "cat in tab two").unwrap();
    app.search_mut().query.pattern = "cat".to_owned();
    app.search_mut().replacement = "dog".to_owned();
    app.recompute_matches();
    app.replace_all();
    assert_eq!(app.tabs()[active].text, "dog dog");
    assert_eq!(app.tabs()[other].text, "cat in tab two");
}

#[test]
fn replace_current_replaces_one_match_and_advances() {
    let mut app = app_with_two_tabs("cat cat cat", "");
    app.search_mut().query.pattern = "cat".to_owned();
    app.search_mut().replacement = "dog".to_owned();
    app.recompute_matches();
    app.search_mut().current = Some(0);
    app.replace_current();
    let active = app.active();
    assert_eq!(app.tabs()[active].text, "dog cat cat");
    assert_eq!(app.search().matches.len(), 2);
    assert_eq!(app.search().current, Some(0));
}

#[test]
fn regex_replace_expands_capture_groups() {
    let mut app = app_with_two_tabs("user@host", "");
    app.search_mut().query.pattern = r"(\w+)@(\w+)".to_owned();
    app.search_mut().query.regex = true;
    app.search_mut().replacement = "$2.$1".to_owned();
    app.recompute_matches();
    app.replace_all();
    let active = app.active();
    assert_eq!(app.tabs()[active].text, "host.user");
}

#[test]
fn matches_refresh_after_the_buffer_is_edited() {
    let mut app = app_with_two_tabs("foo", "");
    app.search_mut().open = true;
    app.search_mut().query.pattern = "foo".to_owned();
    app.recompute_matches();
    assert_eq!(app.search().matches.len(), 1);
    app.replace_active_text("foo foo foo".to_owned());
    app.buffer_edited();
    assert_eq!(app.search().matches, vec![0..3, 4..7, 8..11]);
    app.replace_active_text("nothing here".to_owned());
    app.buffer_edited();
    assert!(app.search().matches.is_empty());
    assert_eq!(app.search().current, None);
}

#[test]
fn invalid_regex_sets_inline_error_and_no_matches() {
    let mut app = app_with_two_tabs("anything", "");
    app.search_mut().query.pattern = "(".to_owned();
    app.search_mut().query.regex = true;
    app.recompute_matches();
    assert!(app.search().error.as_deref().unwrap().starts_with("invalid regular expression: "));
    assert!(app.search().matches.is_empty());
}

#[test]
fn renaming_a_file_repoints_its_open_tab() {
    let mut app = FrextApp::with_files(RestoredSession::empty(), Vec::new(), vec![probe("/w/old.txt", Some("body"))]);
    app.take_effects();
    app.apply_rename("/w/old.txt", "/w/new.txt");
    let id = app.tabs()[app.active()].id;
    assert_eq!(app.take_effects(), vec![Effect::SaveSwap(id), Effect::SaveSession]);
    app.apply_rename("/w/elsewhere", "/w/moved");
    assert_eq!(app.take_effects(), vec![Effect::SaveSession]);
    let active = &app.tabs()[app.active()];
    assert_eq!(active.path.as_deref(), Some("/w/new.txt"));
    assert_eq!(active.text, "body");
}

#[test]
fn renaming_a_directory_repoints_tabs_and_expanded_set() {
    let mut app = FrextApp::with_args(
        RestoredSession::empty(),
        Vec::new(),
        vec![probe("/w/src/main.rs", Some("fn main() {}"))],
        Some("/w".to_owned()),
    );
    app.set_workspace_expanded("/w/src", true);
    app.apply_rename("/w/src", "/w/lib");
    assert_eq!(app.tabs()[app.active()].path.as_deref(), Some("/w/lib/main.rs"));
    let ws = app.workspace().unwrap();
    assert!(ws.is_expanded("/w/lib"));
    assert!(!ws.is_expanded("/w/src"));
}

#[test]
fn close_tabs_under_closes_a_directorys_open_files() {
    let mut app = FrextApp::with_files(
        RestoredSession::empty(),
        Vec::new(),
        vec![probe("/w/pkg/a.txt", Some("a")), probe("/w/pkg/b.txt", Some("b")), probe("/w/other.txt", Some("o"))],
    );
    assert_eq!(app.tabs().len(), 4);
    let ids: Vec<u64> = app.tabs().iter().map(|t| t.id).collect();
    app.take_effects();
    app.close_tabs_under("/w/pkg");
    assert_eq!(app.tabs().len(), 2);
    assert!(app.tabs().iter().all(|t| !t.path.as_deref().unwrap_or("").starts_with("/w/pkg")));
    assert_eq!(app.active(), 1);
    assert_eq!(
        app.take_effects(),
        vec![Effect::RemoveSwap(ids[2]), Effect::SaveSession, Effect::RemoveSwap(ids[1]), Effect::SaveSession]
    );
}

#[test]
fn closing_every_tab_leaves_a_fresh_untitled_one() {
    let mut app = FrextApp::with_files(
        RestoredSession { tabs: vec![Tab::from_file(7, "/w/pkg/a.txt".to_owned(), "a".to_owned())], active: 0, next_id: 8, workspace: None, search: SearchQuery::empty() },
        vec![Some("/w/pkg/a.txt".to_owned())],
        Vec::new(),
    );
    app.close_tabs_under("/w/pkg");
    assert_eq!(app.tabs().len(), 1);
    assert_eq!(app.tabs()[0].path, None);
    assert_eq!(app.tabs()[0].id, 8);
}

#[test]
fn relative_to_root_strips_the_workspace_root() {
    let app = FrextApp::with_args(RestoredSession::empty(), Vec::new(), Vec::new(), Some("/w/project".to_owned()));
    assert_eq!(app.relative_to_root("/w/project/a/b.txt"), "a/b.txt");
    assert_eq!(app.relative_to_root("/etc/hosts"), "/etc/hosts");
    assert_eq!(fresh().relative_to_root("/w/project/a/b.txt"), "/w/project/a/b.txt");
}

#[test]
fn cut_deletes_the_selection_from_the_buffer() {
    let mut app = app_with_two_tabs("hello world", "");
    let (cut, caret) = app.cut_selection(6, 11).unwrap();
    assert_eq!(cut, "world");
    assert_eq!(caret, 6);
    assert_eq!(app.tabs()[app.active()].text, "hello ");
    assert!(app.cut_selection(3, 3).is_none());
}

#[test]
fn copy_does_not_mutate_the_buffer() {
    let app = app_with_two_tabs("keep me", "");
    assert_eq!(app.copy_selection(0, 4), "keep");
    assert_eq!(app.tabs()[app.active()].text, "keep me");
}

#[test]
fn paste_replaces_the_selection() {
    let mut app = app_with_two_tabs("hello world", "");
    assert_eq!(app.paste_text(6, 11, "there"), Some(11));
    assert_eq!(app.tabs()[app.active()].text, "hello there");
    assert_eq!(app.paste_text(0, 0, ""), None);
}

#[test]
fn find_action_opens_the_search_bar() {
    let mut app = app_with_two_tabs("find me", "");
    assert!(!app.search().open);
    app.search_mut().selection = Some(0..4);
    app.open_search(false);
    assert!(app.search().open);
    assert!(!app.search().replace_open);
    assert!(app.search().focus_requested);
    assert_eq!(app.search().query.pattern, "find");
}

#[test]
fn find_replace_action_opens_the_replace_row() {
    let mut app = app_with_two_tabs("x", "");
    app.open_search(true);
    assert!(app.search().open);
    assert!(app.search().replace_open);
}

#[test]
fn closing_the_search_bar_clears_the_highlights() {
    let mut app = app_with_two_tabs("a a", "");
    app.search_mut().query.pattern = "a".to_owned();
    app.open_search(false);
    assert_eq!(app.match_highlights().ranges, vec![0..1, 2..3]);
    assert_eq!(app.match_count_label(), "1/2");
    app.close_search();
    assert!(app.match_highlights().ranges.is_empty());
    assert_eq!(app.match_count_label(), "no results");
}

#[test]
fn new_and_close_tab_record_their_effects() {
    let mut app = fresh();
    assert_eq!(app.tabs().len(), 1);
    let first = app.tabs()[0].id;
    app.new_tab();
    let second = app.tabs()[1].id;
    assert_eq!(app.active(), 1);
    assert_eq!(app.take_effects(), vec![Effect::SaveSwap(second), Effect::SaveSession]);
    app.close_tab(0);
    assert_eq!(app.take_effects(), vec![Effect::RemoveSwap(first), Effect::SaveSession]);
    assert_eq!(app.active(), 0);
    app.close_tab(9);
    assert!(app.take_effects().is_empty());
}

#[test]
fn restored_session_keeps_its_tabs_and_focus() {
    let restored = RestoredSession {
        tabs: vec![Tab::new_untitled(3), Tab::from_file(4, "/w/x.txt".to_owned(), "x".to_owned())],
        active: 5,
        next_id: 5,
        workspace: None,
        search: SearchQuery { pattern: "needle".to_owned(), case_sensitive: true, regex: false, whole_word: true },
    };
    let app = FrextApp::new(restored);
    assert_eq!(app.tabs().len(), 2);
    assert_eq!(app.active(), 1);
    assert_eq!(app.next_id(), 5);
    assert_eq!(app.search().query.pattern, "needle");
    assert!(app.search().query.case_sensitive && app.search().query.whole_word);
}

#[test]
fn external_change_reloads_a_clean_active_tab() {
    let mut app = FrextApp::with_files(RestoredSession::empty(), Vec::new(), vec![probe("/w/grow.txt", Some("one"))]);
    app.take_effects();
    assert!(app.observe_active_disk(Some(11)));
    assert!(app.finish_active_reload(11, Some("one and two".to_owned())));
    let id = app.tabs()[app.active()].id;
    assert_eq!(app.tabs()[app.active()].text, "one and two");
    assert_eq!(app.take_effects(), vec![Effect::SaveSwap(id), Effect::SaveSession]);
}

#[test]
fn pruning_missing_folders_saves_the_session() {
    let mut app = FrextApp::with_args(RestoredSession::empty(), Vec::new(), Vec::new(), Some("/w".to_owned()));
    app.set_workspace_expanded("/w/a", true);
    app.set_workspace_expanded("/w/b", true);
    app.take_effects();
    app.prune_workspace_expanded(&vec![true, true]);
    assert!(app.take_effects().is_empty());
    app.prune_workspace_expanded(&vec![false, true]);
    assert_eq!(app.take_effects(), vec![Effect::SaveSession]);
    assert!(!app.workspace().unwrap().is_expanded("/w/a"));
    assert!(app.workspace().unwrap().is_expanded("/w/b"));
    assert_eq!(app.workspace().unwrap().root(), "/w");
}

fn app_with_dirty_second_tab() -> FrextApp {
    let mut app = fresh();
    app.new_tab();
    let mut text = app.replace_active_text(String::new());
    text.push_str("unsaved");
    app.replace_active_text(text);
    app.request_close_tab(1);
    assert_eq!(app.pending_close(), Some(1));
    app.take_effects();
    app
}

#[test]
fn close_prompt_cancel_keeps_the_tab() {
    let mut app = app_with_dirty_second_tab();
    assert_eq!(app.resolve_pending_close(CloseChoice::Pending), None);
    assert_eq!(app.pending_close(), Some(1));
    assert_eq!(app.resolve_pending_close(CloseChoice::Cancel), None);
    assert_eq!(app.pending_close(), None);
    assert_eq!(app.tabs().len(), 2);
}

#[test]
fn close_prompt_discard_closes_without_saving() {
    let mut app = app_with_dirty_second_tab();
    let id = app.tabs()[1].id;
    assert_eq!(app.resolve_pending_close(CloseChoice::Discard), None);
    assert_eq!(app.tabs().len(), 1);
    assert_eq!(app.take_effects(), vec![Effect::RemoveSwap(id), Effect::SaveSession]);
}

#[test]
fn close_prompt_save_hands_back_the_tab_to_save() {
    let mut app = app_with_dirty_second_tab();
    assert_eq!(app.resolve_pending_close(CloseChoice::Save), Some(1));
    assert_eq!(app.pending_close(), None);
    assert_eq!(app.tabs().len(), 2);
    let target = app.save_target(1, Some("/w/saved.txt".to_owned()));
    assert!(app.save_tab(1, target, true));
    app.close_tab(1);
    assert_eq!(app.tabs().len(), 1);
}

#[test]
fn a_stale_close_request_is_dropped() {
    let mut app = app_with_dirty_second_tab();
    app.close_tab(1);
    assert_eq!(app.pending_close(), Some(1));
    assert_eq!(app.resolve_pending_close(CloseChoice::Discard), None);
    assert_eq!(app.pending_close(), None);
    assert_eq!(app.tabs().len(), 1);
}

#[test]
fn rename_prompt_starts_from_the_file_name() {
    let mut app = fresh();
    app.begin_fs_prompt(FsPromptKind::Rename, "/w/src/main.rs".to_owned());
    let p = app.fs_prompt().unwrap();
    assert_eq!(p.name, "main.rs");
    assert!(p.focus_requested);
    assert!(p.error.is_none());
    app.begin_fs_prompt(FsPromptKind::NewFile, "/w/src".to_owned());
    assert_eq!(app.fs_prompt().unwrap().name, "");
}

#[test]
fn a_failed_prompt_reopens_with_its_error() {
    let mut app = fresh();
    app.begin_fs_prompt(FsPromptKind::NewFolder, "/w".to_owned());
    let mut prompt = app.take_fs_prompt().unwrap();
    assert!(app.fs_prompt().is_none());
    prompt.name = "a/b".to_owned();
    prompt.focus_requested = false;
    app.fail_fs_prompt(prompt, "invalid name: \"a/b\"".to_owned());
    let p = app.fs_prompt().unwrap();
    assert_eq!(p.kind, FsPromptKind::NewFolder);
    assert_eq!(p.name, "a/b");
    assert!(p.focus_requested);
    assert_eq!(p.error.as_deref(), Some("invalid name: \"a/b\""));
    let p = app.take_fs_prompt().unwrap();
    app.put_fs_prompt(p);
    assert!(app.fs_prompt().is_some());
}

#[test]
fn flushing_writes_every_swap_then_the_session() {
    let mut app = fresh();
    app.new_tab();
    app.take_effects();
    let ids: Vec<u64> = app.tabs().iter().map(|t| t.id).collect();
    app.flush_all();
    assert_eq!(app.take_effects(), vec![Effect::SaveSwap(ids[0]), Effect::SaveSwap(ids[1]), Effect::SaveSession]);
}

#[test]
fn a_stale_focused_match_replaces_nothing() {
    let mut app = app_with_two_tabs("cat cat", "");
    app.search_mut().query.pattern = "cat".to_owned();
    app.search_mut().replacement = "dog".to_owned();
    app.recompute_matches();
    app.take_effects();
    app.search_mut().current = Some(7);
    app.replace_current();
    assert_eq!(app.tabs()[app.active()].text, "cat cat");
    assert_eq!(app.search().current, Some(7));
    assert!(app.take_effects().is_empty());
}

#[test]
fn closing_the_focused_last_tab_moves_focus_back() {
    let mut app = app_with_two_tabs("a", "b");
    let last = app.tabs().len() - 1;
    app.select_tab(last);
    app.request_close_tab(last);
    assert_eq!(app.active(), last - 1);
    let before = app.next_id();
    app.request_close_tab(99);
    assert_eq!(app.next_id(), before);
    assert_eq!(app.active(), last - 1);
}

#[test]
fn closing_the_only_tab_leaves_a_fresh_one_with_no_file_length() {
    let mut app = FrextApp::new(RestoredSession::empty());
    app.close_tab(0);
    assert_eq!(app.tabs().len(), 1);
    assert_eq!(app.tabs()[0].disk_len, None);
    assert_eq!(app.tabs()[0].id, 1);
}

#[test]
fn save_tab_on_out_of_range_index_is_a_noop_failure() {
    let mut app = fresh();
    let len = app.tabs().len();
    assert_eq!(app.save_target(len + 5, Some("/w/x.txt".to_owned())), None);
    assert!(!app.save_tab(len + 5, Some("/w/x.txt".to_owned()), true));
    assert_eq!(app.tabs().len(), len);
}

#[test]
fn a_failed_or_cancelled_save_leaves_the_tab_dirty() {
    let mut app = fresh();
    app.replace_active_text("draft".to_owned());
    assert_eq!(app.save_target(0, None), None);
    assert!(!app.save_tab(0, None, true));
    let target = app.save_target(0, Some("/w/new.txt".to_owned()));
    assert!(!app.save_tab(0, target.clone(), false));
    assert!(app.tabs()[0].is_dirty());
    assert_eq!(app.tabs()[0].path, None);
    assert!(app.save_tab(0, target, true));
    assert_eq!(app.tabs()[0].path.as_deref(), Some("/w/new.txt"));
    assert!(!app.tabs()[0].is_dirty());
}

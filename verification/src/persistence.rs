//! Session persistence: what the editor writes so that unsaved buffers
//! survive closing and reopening it (and crashes).
//!
//! Layout under the state directory:
//!
//! ```text
//! session.json     # index: tab order, ids, paths, active tab
//! swap/
//!   <id>.swp       # full text of each tab's buffer
//! ```
//!
//! On launch the swap file is the source of truth for a tab's content, so
//! unsaved edits always win over what is currently on disk. This module
//! holds the layout and the passage between live tabs and the persisted
//! records; reading and writing the files is left to the caller.

use vstd::prelude::*;
use crate::path::join;
use crate::search::SearchQuery;
use crate::tab::{clone_opt, opt_view, Tab};
use crate::text::{decimal, decimal_of, push_char};
use crate::workspace::Workspace;

verus! {

broadcast use vstd::string::group_string_axioms;

/// One entry in the persisted session index.
#[derive(Debug, Clone)]
pub struct TabRecord {
    /// Stable tab id; matches the `<id>.swp` swap file.
    pub id: u64,
    /// The file the tab is associated with, if any.
    pub path: Option<String>,
    /// The on-disk-saved content as last known. Persisted so dirty state can
    /// be recomputed without re-reading the file from disk.
    pub saved_text: String,
}

/// The persisted session index.
#[derive(Debug)]
pub struct Session {
    /// Tabs in display order.
    pub tabs: Vec<TabRecord>,
    /// Index of the active tab within `tabs`.
    pub active: usize,
    /// The next tab id to hand out, so ids stay unique across sessions.
    pub next_id: u64,
    /// The sidebar workspace (root directory + expanded folders), if one is
    /// open.
    pub workspace: Option<Workspace>,
    /// The last search query, so the find bar reopens with it.
    pub search: SearchQuery,
}

/// The fully-restored session: the live tabs plus the surrounding editor
/// state.
#[derive(Debug)]
pub struct RestoredSession {
    /// Tabs in display order, with their buffer contents loaded from swap.
    pub tabs: Vec<Tab>,
    /// Index of the active tab.
    pub active: usize,
    /// The next unique tab id to hand out.
    pub next_id: u64,
    /// The sidebar workspace, if one was open.
    pub workspace: Option<Workspace>,
    /// The last search query.
    pub search: SearchQuery,
}

impl RestoredSession {
    /// The session of a first launch: no tabs, nothing open.
    pub fn empty() -> (r: RestoredSession)
        ensures
            r.tabs@.len() == 0,
            r.active == 0,
            r.next_id == 0,
            r.workspace is None,
            r.search.pattern@ == Seq::<char>::empty(),
            !r.search.case_sensitive,
            !r.search.regex,
            !r.search.whole_word,
    {
        RestoredSession { tabs: Vec::new(), active: 0, next_id: 0, workspace: None, search: SearchQuery::empty() }
    }
}

/// The name of the session index file.
pub open spec fn session_file() -> Seq<char> {
    seq!['s', 'e', 's', 's', 'i', 'o', 'n', '.', 'j', 's', 'o', 'n']
}

/// The name of the swap directory.
pub open spec fn swap_dir_name() -> Seq<char> {
    seq!['s', 'w', 'a', 'p']
}

/// The swap file name of tab `id`: `<id>.swp`.
pub open spec fn swap_file(id: u64) -> Seq<char> {
    decimal(id as nat) + seq!['.', 's', 'w', 'p']
}

/// Owns the on-disk paths used for persistence.
#[derive(Debug, Clone)]
pub struct Store {
    root: String,
}

impl Store {
    /// The state directory the store lives in.
    pub closed spec fn root_view(&self) -> Seq<char> {
        self.root@
    }

    /// A store rooted at `root` (creating the directories is the caller's
    /// business).
    pub fn with_root(root: String) -> (s: Store)
        ensures
            s.root_view() == root@,
    {
        Store { root }
    }

    /// The state directory the store lives in.
    pub fn root(&self) -> (r: &String)
        ensures
            r@ == self.root_view(),
    {
        &self.root
    }

    /// The path of the session index.
    pub fn session_path(&self) -> (p: String)
        ensures
            p@ == join(self.root_view(), session_file()),
    {
        let mut name = String::new();
        let chars = ['s', 'e', 's', 's', 'i', 'o', 'n', '.', 'j', 's', 'o', 'n'];
        let mut i: usize = 0;
        while i < 12
            invariant
                i <= 12,
                name@ == session_file().take(i as int),
                chars@ == session_file(),
            decreases 12 - i,
        {
            push_char(&mut name, chars[i]);
            assert(session_file().take(i + 1) =~= session_file().take(i as int).push(session_file()[i as int]));
            i = i + 1;
        }
        assert(session_file().take(12) =~= session_file());
        crate::path::join_exec(self.root.as_str(), name.as_str())
    }

    /// The directory holding the swap files.
    pub fn swap_dir(&self) -> (p: String)
        ensures
            p@ == join(self.root_view(), swap_dir_name()),
    {
        let mut name = String::new();
        push_char(&mut name, 's');
        push_char(&mut name, 'w');
        push_char(&mut name, 'a');
        push_char(&mut name, 'p');
        assert(name@ =~= swap_dir_name());
        crate::path::join_exec(self.root.as_str(), name.as_str())
    }

    /// The path of tab `id`'s swap file.
    pub fn swap_path(&self, id: u64) -> (p: String)
        ensures
            p@ == join(join(self.root_view(), swap_dir_name()), swap_file(id)),
    {
        let dir = self.swap_dir();
        let mut name = decimal_of(id);
        push_char(&mut name, '.');
        push_char(&mut name, 's');
        push_char(&mut name, 'w');
        push_char(&mut name, 'p');
        assert(name@ =~= swap_file(id));
        crate::path::join_exec(dir.as_str(), name.as_str())
    }
}

/// The record persisted for a tab.
pub open spec fn record_of(t: Tab) -> (u64, Option<Seq<char>>, Seq<char>) {
    (t.id, opt_view(t.path), t.saved_text@)
}

/// The view of a persisted record.
pub open spec fn record_view(r: TabRecord) -> (u64, Option<Seq<char>>, Seq<char>) {
    (r.id, opt_view(r.path), r.saved_text@)
}

/// The records of a sequence of persisted entries.
pub open spec fn record_views(s: Seq<TabRecord>) -> Seq<(u64, Option<Seq<char>>, Seq<char>)> {
    s.map_values(|r: TabRecord| record_view(r))
}

/// The records persisted for a sequence of tabs.
pub open spec fn tab_records(s: Seq<Tab>) -> Seq<(u64, Option<Seq<char>>, Seq<char>)> {
    s.map_values(|t: Tab| record_of(t))
}

/// The index to persist for the given editor state (the records are the
/// tabs' ids, paths and saved texts, in order).
pub fn session_from(tabs: &Vec<Tab>, active: usize, next_id: u64, workspace: Option<&Workspace>, search: &SearchQuery) -> (s: Session)
    ensures
        s.search == *search,
        record_views(s.tabs@) == tab_records(tabs@),
        s.active == active,
        s.next_id == next_id,
        match workspace {
            Some(w) => s.workspace matches Some(v) && v.root_view() == w.root_view() && v.entries()
                == w.entries(),
            None => s.workspace is None,
        },
{
    let mut records: Vec<TabRecord> = Vec::new();
    let mut i: usize = 0;
    while i < tabs.len()
        invariant
            i <= tabs@.len(),
            record_views(records@) == tab_records(tabs@.take(i as int)),
        decreases tabs@.len() - i,
    {
        let t = &tabs[i];
        let rec = TabRecord { id: t.id, path: clone_opt(&t.path), saved_text: t.saved_text.clone() };
        let ghost before = records@;
        records.push(rec);
        proof {
            assert(records@ =~= before.push(rec));
            assert(record_view(rec) == record_of(tabs@[i as int]));
            assert(record_views(records@) =~= record_views(before).push(record_view(rec)));
            assert(tabs@.take(i + 1) =~= tabs@.take(i as int).push(tabs@[i as int]));
            assert(tab_records(tabs@.take(i + 1)) =~= tab_records(tabs@.take(i as int)).push(record_of(tabs@[i as int])));
            assert(record_views(records@) =~= tab_records(tabs@.take(i + 1)));
        }
        i = i + 1;
    }
    assert(tabs@.take(tabs@.len() as int) =~= tabs@);
    let ws = match workspace {
        Some(w) => Some(w.duplicate()),
        None => None,
    };
    Session { tabs: records, active, next_id, workspace: ws, search: search.duplicate() }
}

/// The tabs restored from the records whose swap contents were found, in
/// order: id, path and saved text from the record, text from the swap.
pub open spec fn restored_tabs(recs: Seq<TabRecord>, swaps: Seq<Option<String>>) -> Seq<(u64, Option<Seq<char>>, Seq<char>, Seq<char>)>
    decreases recs.len(),
{
    if recs.len() == 0 {
        Seq::empty()
    } else {
        let n = (recs.len() - 1) as int;
        let rest = restored_tabs(recs.take(n), swaps);
        match swaps[n] {
            Some(text) => rest.push((recs[n].id, opt_view(recs[n].path), recs[n].saved_text@, text@)),
            None => rest,
        }
    }
}

/// The view of a live tab as restored: id, path, saved text and text.
pub open spec fn tab_view(t: Tab) -> (u64, Option<Seq<char>>, Seq<char>, Seq<char>) {
    (t.id, opt_view(t.path), t.saved_text@, t.text@)
}

/// The views of a sequence of live tabs.
pub open spec fn tab_views(s: Seq<Tab>) -> Seq<(u64, Option<Seq<char>>, Seq<char>, Seq<char>)> {
    s.map_values(|t: Tab| tab_view(t))
}

/// The editor state described by a session index, given each record's swap
/// contents (`None` where the swap file is missing): tabs whose swap is
/// missing are skipped, and the active index is clamped to the tabs that
/// remain.
pub fn restore(session: Session, swaps: Vec<Option<String>>) -> (r: RestoredSession)
    requires
        swaps@.len() == session.tabs@.len(),
    ensures
        tab_views(r.tabs@) == restored_tabs(session.tabs@, swaps@),
        forall|i: int| 0 <= i < r.tabs@.len() ==> (#[trigger] r.tabs@[i]).disk_len is None,
        r.active == if session.active < r.tabs@.len() {
            session.active as int
        } else if r.tabs@.len() == 0 {
            0
        } else {
            r.tabs@.len() - 1
        },
        r.next_id == session.next_id,
        r.workspace == session.workspace,
        r.search == session.search,
{
    let mut tabs: Vec<Tab> = Vec::new();
    let mut i: usize = 0;
    while i < session.tabs.len()
        invariant
            i <= session.tabs@.len() == swaps@.len(),
            tab_views(tabs@) == restored_tabs(session.tabs@.take(i as int), swaps@),
            forall|k: int| 0 <= k < tabs@.len() ==> (#[trigger] tabs@[k]).disk_len is None,
        decreases session.tabs@.len() - i,
    {
        let rec = &session.tabs[i];
        proof {
            assert(session.tabs@.take(i + 1).take(i as int) =~= session.tabs@.take(i as int));
            assert(session.tabs@.take(i + 1)[i as int] == session.tabs@[i as int]);
        }
        match &swaps[i] {
            Some(text) => {
                let t = Tab {
                    id: rec.id,
                    path: clone_opt(&rec.path),
                    text: text.clone(),
                    saved_text: rec.saved_text.clone(),
                    disk_len: None,
                };
                let ghost before = tabs@;
                tabs.push(t);
                proof {
                    assert(tabs@ =~= before.push(t));
                    assert(tab_views(tabs@) =~= tab_views(before).push(tab_view(t)));
                }
            },
            None => {},
        }
        i = i + 1;
    }
    assert(session.tabs@.take(session.tabs@.len() as int) =~= session.tabs@);
    let n = tabs.len();
    let active = if session.active < n {
        session.active
    } else if n == 0 {
        0
    } else {
        n - 1
    };
    RestoredSession { tabs, active, next_id: session.next_id, workspace: session.workspace, search: session.search }
}

/// Whether an optional swap content holds exactly `text`.
pub open spec fn holds_text(o: Option<String>, text: Seq<char>) -> bool {
    match o {
        Some(s) => s@ == text,
        None => false,
    }
}

/// What is saved comes back: when the index holds the records of `tabs` (as
/// [`session_from`] writes them) and every tab's swap holds its text (as
/// the swap writes leave them), restoring gives back every tab with its id,
/// path, saved text and unsaved text, in order.
pub proof fn law_session_round_trip(tabs: Seq<Tab>, records: Seq<TabRecord>, swaps: Seq<Option<String>>)
    requires
        record_views(records) == tab_records(tabs),
        swaps.len() == tabs.len(),
        forall|i: int| 0 <= i < tabs.len() ==> holds_text(#[trigger] swaps[i], tabs[i].text@),
    ensures
        restored_tabs(records, swaps) == tab_views(tabs),
{
    lemma_restored_prefix(tabs, records, swaps);
}

/// [`law_session_round_trip`] on a prefix, whose swap list may be longer.
proof fn lemma_restored_prefix(tabs: Seq<Tab>, records: Seq<TabRecord>, swaps: Seq<Option<String>>)
    requires
        record_views(records) == tab_records(tabs),
        swaps.len() >= tabs.len(),
        forall|i: int| 0 <= i < tabs.len() ==> holds_text(#[trigger] swaps[i], tabs[i].text@),
    ensures
        restored_tabs(records, swaps) == tab_views(tabs),
    decreases tabs.len(),
{
    assert(records.len() == record_views(records).len());
    if tabs.len() == 0 {
        assert(tab_views(tabs) =~= Seq::<(u64, Option<Seq<char>>, Seq<char>, Seq<char>)>::empty());
    } else {
        let n = tabs.len() - 1;
        let rt = tabs.take(n);
        let rr = records.take(n);
        assert(record_views(rr) =~= tab_records(rt)) by {
            assert forall|i: int| 0 <= i < n implies #[trigger] record_views(rr)[i] == tab_records(rt)[i] by {
                assert(record_views(records)[i] == tab_records(tabs)[i]);
            }
        }
        assert forall|i: int| 0 <= i < rt.len() implies holds_text(#[trigger] swaps[i], rt[i].text@) by {
            assert(holds_text(swaps[i], tabs[i].text@));
        }
        lemma_restored_prefix(rt, rr, swaps);
        assert(record_views(records)[n] == tab_records(tabs)[n]);
        assert(holds_text(swaps[n], tabs[n].text@));
        assert(tab_views(tabs) =~= tab_views(rt).push(tab_view(tabs[n])));
    }
}

} // verus!

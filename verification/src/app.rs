//! The editor's state and the decisions it makes: which tabs are open and
//! which is focused, the sidebar workspace, and the find/replace bar.
//!
//! The state never touches the disk itself. Every change that must reach
//! the swap files or the session index is recorded as an [`Effect`], in
//! order; the shell around the editor drains them with
//! [`FrextApp::take_effects`] and carries them out. Whatever the shell reads
//! (files, canonical paths, directory listings) it hands in as plain values.

use std::ops::Range;

use vstd::prelude::*;
use vstd::utf8::{encode_utf8, is_char_boundary};
use crate::edit_ops::{
    byte_offset, delete_range, replace_range, sel_lo, spec_replaced, spec_selected, selected_text,
};
use crate::highlight::MatchHighlights;
use crate::path::{join_exec, same_path, same_path_exec, starts_with, starts_with_exec, strip_prefix, strip_prefix_exec};
use crate::persistence::RestoredSession;
use crate::error::SearchError;
use crate::search::{one_replacement, regex_replace_all, nonempty_spans, pairs, query_source, regex_build_error, regex_find_spans, spans_within, SearchQuery, Matcher};
use crate::tab::{opt_view, Tab};
use crate::text::{byte_at, byte_len, byte_len_of, chars_of, decimal, decimal_of, push_char};
use crate::workspace::{migrate, Workspace};

verus! {

broadcast use vstd::string::group_string_axioms;

/// A change that must be written through to the session store.
#[derive(Debug, Clone, Copy, PartialEq, Eq)]
pub enum Effect {
    /// Write the buffer of the tab with this id to its swap file.
    SaveSwap(u64),
    /// Remove the swap file of the tab with this id.
    RemoveSwap(u64),
    /// Write the session index.
    SaveSession,
}

/// What the shell learned about a file it was asked to open.
pub struct FileProbe {
    /// The path as given.
    pub path: String,
    /// The path with every link and `.`/`..` resolved, when it exists.
    pub canonical: Option<String>,
    /// The file's text, or `None` when it could not be read.
    pub contents: Option<String>,
}

/// Live state for the find/replace bar.
#[derive(Debug)]
pub struct SearchState {
    /// The query and its toggles.
    pub query: SearchQuery,
    /// Whether the find/replace bar is currently shown.
    pub open: bool,
    /// Whether the replace row is shown.
    pub replace_open: bool,
    /// The replacement text for find/replace.
    pub replacement: String,
    /// Restrict matches to the editor's current selection when `true`.
    pub in_selection: bool,
    /// The active editor's current selection as a byte range.
    pub selection: Option<Range<usize>>,
    /// The most recent regex-compile error message.
    pub error: Option<String>,
    /// Set when the search box should grab keyboard focus next frame.
    pub focus_requested: bool,
    /// When `Some`, the editor should select this byte range and scroll it
    /// into view next frame (the focused match).
    pub scroll_to: Option<Range<usize>>,
    /// Cached match byte ranges for the active buffer.
    pub matches: Vec<Range<usize>>,
    /// Index into `matches` of the focused match, if any.
    pub current: Option<usize>,
}

impl SearchState {
    /// A closed bar with an empty query.
    pub fn new(query: SearchQuery) -> (s: SearchState)
        ensures
            s.query == query,
            !s.open,
            !s.replace_open,
            s.replacement@.len() == 0,
            !s.in_selection,
            s.selection is None,
            s.error is None,
            !s.focus_requested,
            s.scroll_to is None,
            s.match_list().len() == 0,
            s.current_match() is None,
    {
        SearchState {
            query,
            open: false,
            replace_open: false,
            replacement: String::new(),
            in_selection: false,
            selection: None,
            error: None,
            focus_requested: false,
            scroll_to: None,
            matches: Vec::new(),
            current: None,
        }
    }

    /// The cached matches, as byte spans.
    pub open spec fn match_list(&self) -> Seq<(usize, usize)> {
        crate::search::pairs(self.matches@)
    }

    /// The focused match.
    pub open spec fn current_match(&self) -> Option<usize> {
        self.current
    }

    /// The focused match, when there is one, is one of the matches.
    pub open spec fn wf(&self) -> bool {
        self.current matches Some(i) ==> i < self.matches@.len()
    }
}

/// The regex source a query compiles to, with its case flag.
pub open spec fn query_regex(q: SearchQuery) -> (Seq<char>, bool) {
    (query_source(q.pattern@, q.regex, q.whole_word), !q.case_sensitive)
}

/// The message a query's compile error is shown with, when it has one.
pub open spec fn query_error(q: SearchQuery) -> Option<Seq<char>> {
    match regex_build_error(query_regex(q).0, query_regex(q).1) {
        Some(msg) => Some(invalid_regex_prefix() + msg),
        None => None,
    }
}

/// The words in front of a regex compile error.
pub open spec fn invalid_regex_prefix() -> Seq<char> {
    "invalid regular expression: "@
}

/// The non-empty matches of a query in `text`, before any scoping.
pub open spec fn query_matches(q: SearchQuery, text: Seq<char>) -> Seq<(usize, usize)> {
    nonempty_spans(regex_find_spans(query_regex(q).0, query_regex(q).1, text))
}

/// The matches the bar shows for a query over `text`: all of them, or only
/// those inside the selection when searching within a non-empty one.
pub open spec fn scoped_matches(q: SearchQuery, in_selection: bool, selection: Option<Range<usize>>, text: Seq<char>) -> Seq<(usize, usize)> {
    match selection {
        Some(s) if in_selection && s.start < s.end => spans_within(query_matches(q, text), s.start, s.end),
        _ => query_matches(q, text),
    }
}

/// The inline error the bar shows for a query after a refresh.
pub open spec fn refreshed_error(q: SearchQuery) -> Option<Seq<char>> {
    if q.pattern@.len() == 0 {
        None
    } else {
        query_error(q)
    }
}

/// The matches the bar holds after a refresh over `text`: none for an empty
/// or invalid query, else the query's matches (within the selection when
/// searching in a non-empty one).
pub open spec fn refreshed_matches(q: SearchQuery, in_selection: bool, selection: Option<Range<usize>>, text: Seq<char>) -> Seq<(usize, usize)> {
    if q.pattern@.len() == 0 || query_error(q) is Some {
        Seq::empty()
    } else {
        scoped_matches(q, in_selection, selection, text)
    }
}

/// The focused match after a refresh that found `n` matches: none for an
/// empty or invalid query, else the previous focus kept while in range.
pub open spec fn refreshed_current(q: SearchQuery, prev: Option<usize>, n: nat) -> Option<usize> {
    if q.pattern@.len() == 0 || query_error(q) is Some {
        None
    } else {
        kept_focus(prev, n)
    }
}

/// Whether `new` holds the refreshed results of query `q` over `text`, with
/// `prev` the focus before the refresh.
pub open spec fn results_refreshed(new: SearchState, q: SearchQuery, in_selection: bool, selection: Option<Range<usize>>, prev: Option<usize>, text: Seq<char>) -> bool {
    let m = refreshed_matches(q, in_selection, selection, text);
    &&& opt_view(new.error) == refreshed_error(q)
    &&& new.match_list() == m
    &&& new.current == refreshed_current(q, prev, m.len())
}

/// Whether `new` is the bar `old` after refreshing its matches over `text`:
/// the error and matches are recomputed, the focused match is kept while in
/// range (else the first match, else none), and nothing else changes.
pub open spec fn search_refreshed(old: SearchState, new: SearchState, text: Seq<char>) -> bool {
    &&& new.query == old.query
    &&& new.open == old.open
    &&& new.replace_open == old.replace_open
    &&& new.replacement == old.replacement
    &&& new.in_selection == old.in_selection
    &&& new.selection == old.selection
    &&& new.focus_requested == old.focus_requested
    &&& new.scroll_to == old.scroll_to
    &&& results_refreshed(new, old.query, old.in_selection, old.selection, old.current, text)
}

/// The text of the non-empty selection `sel` of `t`, when it delimits a
/// slice of it.
pub open spec fn selection_text(t: Seq<char>, sel: Option<Range<usize>>) -> Option<Seq<char>> {
    match sel {
        Some(s) if s.start < s.end && valid_byte_range(t, s.start, s.end) => Some(
            vstd::utf8::decode_utf8(encode_utf8(t).subrange(s.start as int, s.end as int)),
        ),
        _ => None,
    }
}

/// The message shown for a search error.
pub fn search_error_message(e: &SearchError) -> (r: String)
    ensures
        match e {
            SearchError::InvalidRegex(msg) => r@ == invalid_regex_prefix() + msg@,
        },
{
    match e {
        SearchError::InvalidRegex(msg) => {
            let mut r = "invalid regular expression: ".to_owned();
            r.append(msg.as_str());
            r
        },
    }
}

/// Two editor states agree on everything but their pending changes.
pub open spec fn same_state(a: &FrextApp, b: &FrextApp) -> bool {
    &&& a.tab_seq() == b.tab_seq()
    &&& a.active_index() == b.active_index()
    &&& a.next() == b.next()
    &&& a.ws() == b.ws()
    &&& a.search_view() == b.search_view()
    &&& a.pending_close_view() == b.pending_close_view()
}

/// `f` is `o` with tab `index` closed: the tab is removed and its swap file
/// with it; the focus stays where it was, or moves to the last tab when it
/// falls off the end; when it was the only tab, a fresh untitled tab takes
/// its place. Nothing else changes, and the session index is saved.
pub open spec fn tab_closed(o: &FrextApp, f: &FrextApp, index: int) -> bool {
    let n = o.tab_seq().len();
    let removed = Effect::RemoveSwap(o.tab_seq()[index].id);
    &&& 0 <= index < n
    &&& f.ws() == o.ws()
    &&& f.search_view() == o.search_view()
    &&& n > 1 ==> {
        &&& f.tab_seq() == o.tab_seq().remove(index)
        &&& f.next() == o.next()
        &&& f.active_index() == if o.active_index() < n - 1 {
            o.active_index()
        } else {
            n - 2
        }
        &&& f.pending() == o.pending().push(removed).push(Effect::SaveSession)
    }
    &&& n == 1 ==> {
        &&& f.tab_seq().len() == 1
        &&& is_untitled(f.tab_seq()[0], o.next())
        &&& f.active_index() == 0
        &&& f.next() == o.next() + 1
        &&& f.pending() == o.pending().push(removed).push(Effect::SaveSwap(o.next())).push(Effect::SaveSession)
    }
}

/// The match focused after a step from `current` among `len` matches,
/// wrapping around at either end.
pub open spec fn step_target(current: Option<usize>, len: int, forward: bool) -> int {
    match current {
        Some(i) => if forward {
            (i + 1) % len
        } else {
            (i + len - 1) % len
        },
        None => 0,
    }
}

/// The text of the match-count label: nothing for an empty query, `no
/// results` when nothing matched, else `current/total` counting from 1 (0
/// when no match is focused).
pub open spec fn count_label(pattern_empty: bool, len: nat, current: Option<usize>) -> Seq<char> {
    if pattern_empty {
        Seq::empty()
    } else if len == 0 {
        "no results"@
    } else {
        let cur: nat = match current {
            Some(i) => (i + 1) as nat,
            None => 0,
        };
        decimal(cur) + seq!['/'] + decimal(len)
    }
}

/// Whether bytes `start..end` of `t` delimit a slice of it: in order,
/// within its bytes, and on character boundaries.
pub open spec fn valid_byte_range(t: Seq<char>, start: usize, end: usize) -> bool {
    &&& start <= end <= byte_len(t)
    &&& is_char_boundary(encode_utf8(t), start as int)
    &&& is_char_boundary(encode_utf8(t), end as int)
}

/// The text of `s` between bytes `start` and `end`.
///
/// Calls `str::get` with the byte range, which the standard library
/// documents as returning `None` exactly when indexing with the range would
/// panic: when it is reversed, runs past the end, or does not fall on
/// character boundaries. The contract states that, and that the slice's
/// bytes are the range's.
#[verifier::external_body]
fn str_get(s: &str, start: usize, end: usize) -> (r: Option<String>)
    ensures
        r is Some <==> valid_byte_range(s@, start, end),
        r matches Some(t) ==> encode_utf8(t@) == encode_utf8(s@).subrange(start as int, end as int),
{
    s.get(start..end).map(|t| t.to_owned())
}

/// The index of the first span of `m` starting at or after byte `at`, or
/// `m.len()` when none does.
pub open spec fn first_start_from(m: Seq<(usize, usize)>, at: usize) -> int
    decreases m.len(),
{
    if m.len() == 0 {
        0
    } else if m[0].0 >= at {
        0
    } else {
        1 + first_start_from(m.drop_first(), at)
    }
}

proof fn lemma_first_start_from(m: Seq<(usize, usize)>, at: usize)
    ensures
        0 <= first_start_from(m, at) <= m.len(),
        first_start_from(m, at) < m.len() ==> m[first_start_from(m, at)].0 >= at,
        forall|j: int| 0 <= j < first_start_from(m, at) ==> m[j].0 < at,
    decreases m.len(),
{
    if m.len() > 0 && m[0].0 < at {
        lemma_first_start_from(m.drop_first(), at);
        assert forall|j: int| 0 <= j < first_start_from(m, at) implies m[j].0 < at by {
            if j > 0 {
                assert(m[j] == m.drop_first()[j - 1]);
            }
        }
    }
}

/// The focus kept among `len` matches: the previous one while still in
/// range, else the first match, else none.
pub open spec fn kept_focus(prev: Option<usize>, len: nat) -> Option<usize> {
    match prev {
        Some(c) if c < len => Some(c),
        _ => if len == 0 {
            None
        } else {
            Some(0usize)
        },
    }
}

/// The focus after a replacement at byte `at`: the first match starting at
/// or after it, else the focus kept from `prev`.
pub open spec fn refocus(m: Seq<(usize, usize)>, at: usize, prev: Option<usize>) -> Option<usize> {
    if first_start_from(m, at) < m.len() {
        Some(first_start_from(m, at) as usize)
    } else {
        kept_focus(prev, m.len())
    }
}

/// The index of the first range starting at or after `start`.
fn first_at_or_after(v: &Vec<Range<usize>>, start: usize) -> (r: Option<usize>)
    ensures
        match r {
            Some(k) => k < v@.len() && v@[k as int].start >= start && forall|j: int| 0 <= j < k ==> v@[j].start < start,
            None => forall|j: int| 0 <= j < v@.len() ==> v@[j].start < start,
        },
{
    let mut k: usize = 0;
    while k < v.len()
        invariant
            k <= v@.len(),
            forall|j: int| 0 <= j < k ==> v@[j].start < start,
        decreases v@.len() - k,
    {
        if v[k].start >= start {
            return Some(k);
        }
        k = k + 1;
    }
    None
}

/// Whether `s` contains a newline.
pub fn has_newline(s: &str) -> (r: bool)
    ensures
        r == s@.contains('\n'),
{
    let chars = chars_of(s);
    let mut i: usize = 0;
    while i < chars.len()
        invariant
            i <= chars@.len(),
            chars@ == s@,
            forall|k: int| 0 <= k < i ==> chars@[k] != '\n',
        decreases chars@.len() - i,
    {
        if chars[i] == '\n' {
            assert(s@[i as int] == '\n');
            return true;
        }
        i = i + 1;
    }
    false
}

/// `new` is `old` with the text of tab `i` replaced by `text` and nothing
/// else changed.
pub open spec fn text_updated(old: Seq<Tab>, new: Seq<Tab>, i: int, text: Seq<char>) -> bool {
    &&& new.len() == old.len()
    &&& 0 <= i < old.len()
    &&& forall|j: int| 0 <= j < old.len() && j != i ==> new[j] == old[j]
    &&& new[i].id == old[i].id
    &&& new[i].path == old[i].path
    &&& new[i].saved_text == old[i].saved_text
    &&& new[i].disk_len == old[i].disk_len
    &&& new[i].text@ == text
}

/// Whether a tab is the file a probe asks for: the same path, or (when the
/// probe's path resolves) the same resolved path. `canon` is the tab's own
/// resolved path.
pub open spec fn probe_hit(t: Tab, canon: Option<String>, p: FileProbe) -> bool {
    hits(opt_view(t.path), opt_view(canon), p)
}

/// Whether a tab on `path` (resolved to `canon`) is the file a probe asks
/// for.
pub open spec fn hits(path: Option<Seq<char>>, canon: Option<Seq<char>>, p: FileProbe) -> bool {
    match path {
        Some(tp) => same_path(tp, p.path@) || (p.canonical is Some && canon == opt_view(p.canonical)),
        None => false,
    }
}

/// A tab as the editor sees it: id, path, text, saved text, and the file
/// length last seen on disk.
pub type TabState = (u64, Option<Seq<char>>, Seq<char>, Seq<char>, Option<u64>);

/// The state of a tab.
pub open spec fn tab_state(t: Tab) -> TabState {
    (t.id, opt_view(t.path), t.text@, t.saved_text@, t.disk_len)
}

/// The states of a sequence of tabs.
pub open spec fn tab_states(s: Seq<Tab>) -> Seq<TabState> {
    s.map_values(|t: Tab| tab_state(t))
}

/// A fresh untitled tab: empty, on no file.
pub open spec fn untitled_state(id: u64) -> TabState {
    (id, None, Seq::empty(), Seq::empty(), None)
}

/// A tab just read from the file at `path`: clean, with the file's length.
pub open spec fn file_state(id: u64, path: Seq<char>, text: Seq<char>) -> TabState {
    (id, Some(path), text, text, Some(byte_len(text) as u64))
}

/// The texts of optional strings.
pub open spec fn opt_views(s: Seq<Option<String>>) -> Seq<Option<Seq<char>>> {
    s.map_values(|c: Option<String>| opt_view(c))
}

/// The editor while files are being opened at startup: the tabs, each
/// tab's resolved path, the focused index, the next id, and the recorded
/// effects.
pub type Opening = (Seq<TabState>, Seq<Option<Seq<char>>>, int, u64, Seq<Effect>);

/// The index of the first tab from `i` on that is the probed file, or the
/// number of tabs when none is.
pub open spec fn first_hit(tabs: Seq<TabState>, canons: Seq<Option<Seq<char>>>, p: FileProbe, i: int) -> int
    decreases tabs.len() - i,
{
    if i < 0 || i >= tabs.len() {
        tabs.len() as int
    } else if hits(tabs[i].1, canons[i], p) {
        i
    } else {
        first_hit(tabs, canons, p, i + 1)
    }
}

/// Opening one probed file: a tab already on it is focused; otherwise a
/// readable file gets a new clean tab, focused, with its swap written; an
/// unreadable one changes nothing.
pub open spec fn open_step(s: Opening, p: FileProbe) -> Opening {
    let h = first_hit(s.0, s.1, p, 0);
    if h < s.0.len() {
        (s.0, s.1, h, s.3, s.4)
    } else {
        match p.contents {
            Some(c) => (
                s.0.push(file_state(s.3, p.path@, c@)),
                s.1.push(opt_view(p.canonical)),
                s.0.len() as int,
                (s.3 + 1) as u64,
                s.4.push(Effect::SaveSwap(s.3)),
            ),
            None => s,
        }
    }
}

/// Opening the probed files in order.
pub open spec fn open_all(s: Opening, files: Seq<FileProbe>) -> Opening
    decreases files.len(),
{
    if files.len() == 0 {
        s
    } else {
        open_step(open_all(s, files.drop_last()), files.last())
    }
}

/// The editor built from a restored session before any file is opened:
/// the restored tabs (focus clamped to them), or a single fresh untitled
/// tab when none were restored.
pub open spec fn startup(restored: RestoredSession, canonicals: Seq<Option<String>>) -> Opening {
    let n = restored.tabs@.len();
    if n == 0 {
        (seq![untitled_state(restored.next_id)], seq![None], 0, (restored.next_id + 1) as u64, Seq::empty())
    } else {
        (
            tab_states(restored.tabs@),
            opt_views(canonicals),
            if restored.active < n { restored.active as int } else { n - 1 },
            restored.next_id,
            Seq::empty(),
        )
    }
}

/// The first hit from `i` on lies between `i` and the number of tabs, and
/// is a hit unless it is the number of tabs.
proof fn lemma_first_hit_range(tabs: Seq<TabState>, canons: Seq<Option<Seq<char>>>, p: FileProbe, i: int)
    requires
        0 <= i <= tabs.len(),
    ensures
        i <= first_hit(tabs, canons, p, i) <= tabs.len(),
        first_hit(tabs, canons, p, i) < tabs.len() ==> hits(
            tabs[first_hit(tabs, canons, p, i)].1,
            canons[first_hit(tabs, canons, p, i)],
            p,
        ),
    decreases tabs.len() - i,
{
    if i < tabs.len() && !hits(tabs[i].1, canons[i], p) {
        lemma_first_hit_range(tabs, canons, p, i + 1);
    }
}

/// Opening files keeps one resolved path per tab and the focus on a tab.
proof fn lemma_open_all_shape(s: Opening, files: Seq<FileProbe>)
    requires
        s.0.len() == s.1.len(),
        0 <= s.2 < s.0.len(),
    ensures
        open_all(s, files).0.len() == open_all(s, files).1.len(),
        0 <= open_all(s, files).2 < open_all(s, files).0.len(),
    decreases files.len(),
{
    if files.len() > 0 {
        let prev = open_all(s, files.drop_last());
        lemma_open_all_shape(s, files.drop_last());
        lemma_first_hit_range(prev.0, prev.1, files.last(), 0);
    }
}

/// The last file asked for ends up focused: after opening `files`, when the
/// last one is readable, the focused tab is on it; and when no tab was on it
/// before, the focused tab is that file freshly read, clean.
pub proof fn law_last_opened_file_is_focused(s: Opening, files: Seq<FileProbe>)
    requires
        s.0.len() == s.1.len(),
        0 <= s.2 < s.0.len(),
        files.len() > 0,
        files.last().contents is Some,
    ensures
        ({
            let prev = open_all(s, files.drop_last());
            let r = open_all(s, files);
            &&& 0 <= r.2 < r.0.len()
            &&& hits(r.0[r.2].1, r.1[r.2], files.last())
            &&& (forall|j: int| 0 <= j < prev.0.len() ==> !hits(prev.0[j].1, prev.1[j], files.last()))
                ==> r.0[r.2] == file_state(prev.3, files.last().path@, files.last().contents->0@)
        }),
{
    let prev = open_all(s, files.drop_last());
    let p = files.last();
    lemma_open_all_shape(s, files.drop_last());
    lemma_first_hit_range(prev.0, prev.1, p, 0);
    if forall|j: int| 0 <= j < prev.0.len() ==> !hits(prev.0[j].1, prev.1[j], p) {
        lemma_first_hit(prev.0, prev.1, p, 0, prev.0.len() as int);
    }
    if first_hit(prev.0, prev.1, p, 0) == prev.0.len() {
        let c = p.contents->0;
        let r = open_all(s, files);
        assert(r.0 == prev.0.push(file_state(prev.3, p.path@, c@)));
        assert(r.1 == prev.1.push(opt_view(p.canonical)));
        assert(same_path(p.path@, p.path@));
    }
}

/// The first tab from `i` on that is the probed file is `a` (or there is
/// none when `a` is the number of tabs).
proof fn lemma_first_hit(tabs: Seq<TabState>, canons: Seq<Option<Seq<char>>>, p: FileProbe, i: int, a: int)
    requires
        0 <= i <= a <= tabs.len(),
        a < tabs.len() ==> hits(tabs[a].1, canons[a], p),
        forall|j: int| i <= j < a ==> !hits(tabs[j].1, canons[j], p),
    ensures
        first_hit(tabs, canons, p, i) == a,
    decreases a - i,
{
    if i < a {
        lemma_first_hit(tabs, canons, p, i + 1, a);
    }
}

/// The resolved path known for tab `j` when the editor was built from
/// `restored` tabs (whose resolved paths are `canonicals`, in order) and then
/// opened the requested `files`: a restored tab's own, or the resolved path
/// of a request on the same path as the tab.
pub open spec fn known_canonical(j: int, p: Seq<char>, c: Option<Seq<char>>, canonicals: Seq<Option<String>>, files: Seq<FileProbe>) -> bool {
    if j < canonicals.len() {
        opt_view(canonicals[j]) == c
    } else {
        exists|m: int| 0 <= m < files.len() && (#[trigger] files[m]).path@ == p && opt_view(files[m].canonical) == c
    }
}

/// Whether tab `j` of `tabs` is on the requested file `f`: on its path, or
/// (when the request resolves) on a path known to resolve to the same place.
pub open spec fn tab_on_file(tabs: Seq<Tab>, j: int, f: FileProbe, canonicals: Seq<Option<String>>, files: Seq<FileProbe>) -> bool {
    match tabs[j].path {
        Some(p) => same_path(p@, f.path@) || (f.canonical is Some && known_canonical(j, p@, opt_view(f.canonical), canonicals, files)),
        None => false,
    }
}

/// Some tab is on the requested file.
pub open spec fn file_is_open(tabs: Seq<Tab>, f: FileProbe, canonicals: Seq<Option<String>>, files: Seq<FileProbe>) -> bool {
    exists|j: int| 0 <= j < tabs.len() && #[trigger] tab_on_file(tabs, j, f, canonicals, files)
}

/// Whether the tab's file is `path` or lies under it.
pub open spec fn tab_under(t: Tab, path: Seq<char>) -> bool {
    match t.path {
        Some(p) => starts_with(p@, path),
        None => false,
    }
}

/// The tabs of `s` whose file is not `path` or under it, in order.
pub open spec fn tabs_not_under(s: Seq<Tab>, path: Seq<char>) -> Seq<Tab>
    decreases s.len(),
{
    if s.len() == 0 {
        Seq::empty()
    } else {
        let rest = tabs_not_under(s.drop_first(), path);
        if tab_under(s[0], path) {
            rest
        } else {
            seq![s[0]] + rest
        }
    }
}

/// A tab's path after a rename of `from` to `to`.
pub open spec fn moved_path(p: Option<Seq<char>>, from: Seq<char>, to: Seq<char>) -> Option<Seq<char>> {
    match p {
        Some(q) => Some(migrate(q, from, to)),
        None => None,
    }
}

/// The editor while tabs are being closed: the tabs, the focused index,
/// the next id, and the recorded effects.
pub type Closing = (Seq<TabState>, int, u64, Seq<Effect>);

/// Closing the tab at `k`, as [`FrextApp::close_tab`] does: its swap file is
/// removed; the focus stays, or moves to the last tab when it falls off the
/// end; the only tab is replaced by a fresh untitled one; the session index
/// is saved.
pub open spec fn close_step(st: Closing, k: int) -> Closing {
    let n = st.0.len();
    let removed = Effect::RemoveSwap(st.0[k].0);
    if n > 1 {
        (st.0.remove(k), if st.1 < n - 1 { st.1 } else { n - 2 }, st.2, st.3.push(removed).push(Effect::SaveSession))
    } else {
        (seq![untitled_state(st.2)], 0, (st.2 + 1) as u64, st.3.push(removed).push(Effect::SaveSwap(st.2)).push(
            Effect::SaveSession,
        ))
    }
}

/// Closing, from index `k - 1` down to `0`, every tab on `path` or under it.
pub open spec fn close_under_from(st: Closing, path: Seq<char>, k: int) -> Closing
    decreases k,
{
    if k <= 0 {
        st
    } else {
        let next = if st.0[k - 1].1 matches Some(p) && starts_with(p, path) {
            close_step(st, k - 1)
        } else {
            st
        };
        close_under_from(next, path, k - 1)
    }
}

/// Whether a tab on `p` moves when `from` is renamed: it is on `from` or
/// under it.
pub open spec fn moves(p: Option<Seq<char>>, from: Seq<char>) -> bool {
    match p {
        Some(q) => starts_with(q, from),
        None => false,
    }
}

/// The number of newlines in `s`.
pub open spec fn newlines(s: Seq<char>) -> nat
    decreases s.len(),
{
    if s.len() == 0 {
        0
    } else {
        newlines(s.drop_last()) + if s.last() == '\n' {
            1nat
        } else {
            0nat
        }
    }
}

/// Number of editor lines in `text`: the newlines plus one (a trailing
/// newline opens a new, empty final line; an empty buffer has one line).
pub fn line_count(text: &str) -> (n: usize)
    requires
        text@.len() < usize::MAX,
    ensures
        n == newlines(text@) + 1,
{
    let chars = chars_of(text);
    let mut count: usize = 0;
    let mut i: usize = 0;
    while i < chars.len()
        invariant
            i <= chars@.len() < usize::MAX,
            chars@ == text@,
            count == newlines(chars@.take(i as int)),
            count <= i,
        decreases chars@.len() - i,
    {
        assert(chars@.take(i + 1).drop_last() =~= chars@.take(i as int));
        if chars[i] == '\n' {
            count = count + 1;
        }
        i = i + 1;
    }
    assert(chars@.take(chars@.len() as int) =~= chars@);
    count + 1
}

/// The numbering after the first `i` rows: the numbered rows so far,
/// whether the next row starts a logical line, and the last number used.
pub open spec fn number_state(rows: Seq<bool>, i: int) -> (Seq<(usize, usize)>, bool, nat)
    decreases i,
{
    if i <= 0 {
        (Seq::empty(), true, 0)
    } else {
        let prev = number_state(rows, i - 1);
        if prev.1 {
            (prev.0.push(((i - 1) as usize, (prev.2 + 1) as usize)), rows[i - 1], prev.2 + 1)
        } else {
            (prev.0, rows[i - 1], prev.2)
        }
    }
}

/// The `(row, line number)` pairs for a laid-out buffer whose rows end (or
/// not) with a real newline: a row starts a logical line, and gets the next
/// number from 1, when it is the first row or its predecessor ended with a
/// newline; soft-wrapped continuation rows get none.
pub open spec fn numbered_rows(rows: Seq<bool>) -> Seq<(usize, usize)> {
    number_state(rows, rows.len() as int).0
}

/// Decide which visual rows of a laid-out editor buffer carry a line
/// number. `ends_with_newline[r]` says whether row `r` ends with a real
/// newline.
pub fn line_numbers_for_rows(ends_with_newline: &[bool]) -> (r: Vec<(usize, usize)>)
    ensures
        r@ == numbered_rows(ends_with_newline@),
{
    let mut out: Vec<(usize, usize)> = Vec::new();
    let mut starts_logical_line = true;
    let mut number: usize = 0;
    let mut i: usize = 0;
    let n = ends_with_newline.len();
    while i < n
        invariant
            n == ends_with_newline@.len(),
            i <= n,
            (out@, starts_logical_line, number as nat) == number_state(ends_with_newline@, i as int),
            number <= i,
        decreases n - i,
    {
        if starts_logical_line {
            number = number + 1;
            out.push((i, number));
        }
        starts_logical_line = ends_with_newline[i];
        i = i + 1;
    }
    out
}

/// `c` is the first character of `t` starting at or after byte `b`, or the
/// character count when none does.
pub open spec fn is_char_index(t: Seq<char>, b: int, c: int) -> bool {
    &&& 0 <= c <= t.len()
    &&& c < t.len() ==> byte_at(t, c) >= b
    &&& forall|j: int| 0 <= j < c ==> byte_at(t, j) < b
}

/// The two index conversions undo each other: the character index of the
/// byte offset of character `c` is `c`, and the byte offset of the
/// character index of a character boundary `byte_at(t, c)` is that
/// boundary.
pub proof fn law_char_and_byte_indices_invert(t: Seq<char>, c: int, k: int)
    requires
        0 <= c <= t.len(),
        is_char_index(t, byte_at(t, c) as int, k),
    ensures
        k == c,
        byte_at(t, k) == byte_at(t, c),
{
    if k < c {
        crate::text::lemma_byte_at_monotone(t, k, c - 1);
    } else if k > c {
        crate::text::lemma_byte_at_monotone(t, c, c);
        assert(byte_at(t, c) < byte_at(t, c) as int);
    }
}

/// The byte offset of character index `char_idx` within `text` (clamped to
/// the end). Converts editor character cursors to the byte ranges the
/// search model speaks.
pub fn byte_index(text: &str, char_idx: usize) -> (b: usize)
    ensures
        b == byte_at(text@, if char_idx <= text@.len() { char_idx as int } else { text@.len() as int }),
{
    byte_offset(text, char_idx)
}

/// The character index of byte offset `byte` within `text`: the first
/// character starting at or after it, or the character count when none
/// does. The inverse of [`byte_index`] on character boundaries.
pub fn char_index(text: &str, byte: usize) -> (c: usize)
    ensures
        is_char_index(text@, byte as int, c as int),
{
    let chars = chars_of(text);
    let total = byte_len_of(text);
    let mut b: usize = 0;
    let mut i: usize = 0;
    while i < chars.len()
        invariant
            i <= chars@.len(),
            chars@ == text@,
            total == byte_len(text@),
            b == byte_at(text@, i as int),
            forall|j: int| 0 <= j < i ==> byte_at(text@, j) < byte,
        decreases chars@.len() - i,
    {
        if b >= byte {
            return i;
        }
        proof {
            crate::text::lemma_byte_at_step(text@, i as int);
            crate::text::lemma_byte_at_monotone(text@, i as int + 1, text@.len() as int);
            crate::text::lemma_byte_at_full(text@);
        }
        b = b + crate::text::char_width_of(chars[i]);
        i = i + 1;
    }
    i
}

/// The top-level editor state.
pub struct FrextApp {
    tabs: Vec<Tab>,
    active: usize,
    next_id: u64,
    workspace: Option<Workspace>,
    effects: Vec<Effect>,
    /// Find/replace bar state.
    search: SearchState,
    /// Index of a tab awaiting unsaved-changes close confirmation, if any.
    pending_close: Option<usize>,
    /// A pending name-entry prompt (rename / new file / new folder) from
    /// the sidebar, if any.
    pending_fs: Option<FsPrompt>,
}

/// The answer to the unsaved-changes prompt shown before closing a tab.
#[derive(Debug, Clone, Copy, PartialEq, Eq)]
pub enum CloseChoice {
    /// Nothing chosen yet.
    Pending,
    /// Save the buffer, then close the tab.
    Save,
    /// Close the tab without saving.
    Discard,
    /// Keep the tab open.
    Cancel,
}

/// The operation a name-entry prompt collects a name for.
#[derive(Debug, Clone, Copy, PartialEq, Eq)]
pub enum FsPromptKind {
    /// Rename the target to the entered name.
    Rename,
    /// Create a new file named by the entry inside the target directory.
    NewFile,
    /// Create a new folder named by the entry inside the target directory.
    NewFolder,
}

/// A pending name-entry prompt for a sidebar filesystem operation.
#[derive(Debug)]
pub struct FsPrompt {
    /// Which operation the entered name applies to.
    pub kind: FsPromptKind,
    /// The entry being renamed, or the directory a new entry goes into.
    pub target: String,
    /// The live text of the name field.
    pub name: String,
    /// Set when the name field should grab keyboard focus.
    pub focus_requested: bool,
    /// The message of the previous attempt's failure, shown inline.
    pub error: Option<String>,
}

/// The tab that becomes the only one when the last is closed or nothing was
/// restored.
pub open spec fn is_untitled(t: Tab, id: u64) -> bool {
    tab_state(t) == untitled_state(id)
}

impl FrextApp {
    /// The open tabs, in order.
    pub closed spec fn tab_seq(&self) -> Seq<Tab> {
        self.tabs@
    }

    /// The index of the focused tab.
    pub closed spec fn active_index(&self) -> int {
        self.active as int
    }

    /// The next id to hand out.
    pub closed spec fn next(&self) -> u64 {
        self.next_id
    }

    /// The sidebar workspace.
    pub closed spec fn ws(&self) -> Option<Workspace> {
        self.workspace
    }

    /// The changes not yet written through, oldest first.
    pub closed spec fn pending(&self) -> Seq<Effect> {
        self.effects@
    }

    /// The find/replace bar.
    pub closed spec fn search_view(&self) -> SearchState {
        self.search
    }

    /// The tab awaiting close confirmation.
    pub closed spec fn pending_close_view(&self) -> Option<usize> {
        self.pending_close
    }

    /// The pending name-entry prompt.
    pub closed spec fn fs_prompt_view(&self) -> Option<FsPrompt> {
        self.pending_fs
    }

    /// There is always a tab, and the focused one is among them.
    pub open spec fn wf(&self) -> bool {
        &&& self.tab_seq().len() > 0
        &&& 0 <= self.active_index() < self.tab_seq().len()
    }

    /// The focused tab.
    pub open spec fn active_tab(&self) -> Tab {
        self.tab_seq()[self.active_index()]
    }

    /// Build the editor from a restored session, opening no files.
    pub fn new(restored: RestoredSession) -> (app: FrextApp)
        requires
            restored.next_id < u64::MAX,
        ensures
            app.wf(),
            app.search_view().matches@.len() == 0,
            app.search_view().current is None,
            !app.search_view().open,
            app.search_view().query == restored.search,
            !app.search_view().replace_open,
            app.search_view().replacement@.len() == 0,
            !app.search_view().in_selection,
            app.search_view().error is None,
            app.pending_close_view() is None,
            app.fs_prompt_view() is None,
            app.pending().len() == 0,
            app.ws() == restored.workspace,
            restored.tabs@.len() > 0 ==> app.tab_seq() == restored.tabs@ && app.active_index()
                == (if restored.active < restored.tabs@.len() {
                restored.active as int
            } else {
                restored.tabs@.len() - 1
            }) && app.next() == restored.next_id,
            restored.tabs@.len() == 0 ==> app.tab_seq().len() == 1 && is_untitled(app.tab_seq()[0], restored.next_id)
                && app.active_index() == 0 && app.next() == restored.next_id + 1,
    {
        let mut tabs = restored.tabs;
        let mut next_id = restored.next_id;
        let active = if tabs.len() == 0 {
            tabs.push(Tab::new_untitled(next_id));
            next_id = next_id + 1;
            0
        } else if restored.active < tabs.len() {
            restored.active
        } else {
            tabs.len() - 1
        };
        FrextApp {
            tabs,
            active,
            next_id,
            workspace: restored.workspace,
            effects: Vec::new(),
            search: SearchState::new(restored.search),
            pending_close: None,
            pending_fs: None,
        }
    }

    /// The open tabs, in order.
    pub fn tabs(&self) -> (r: &Vec<Tab>)
        ensures
            r@ == self.tab_seq(),
    {
        &self.tabs
    }

    /// The index of the focused tab.
    pub fn active(&self) -> (r: usize)
        ensures
            r == self.active_index(),
    {
        self.active
    }

    /// The next tab id to hand out.
    pub fn next_id(&self) -> (r: u64)
        ensures
            r == self.next(),
    {
        self.next_id
    }

    /// The sidebar workspace, if one is open.
    pub fn workspace(&self) -> (r: Option<&Workspace>)
        ensures
            match r {
                Some(w) => self.ws() == Some(*w),
                None => self.ws() is None,
            },
    {
        match &self.workspace {
            Some(w) => Some(w),
            None => None,
        }
    }

    /// Hand over the recorded changes, oldest first, and forget them.
    pub fn take_effects(&mut self) -> (r: Vec<Effect>)
        requires
            old(self).wf(),
        ensures
            final(self).wf(),
            r@ == old(self).pending(),
            final(self).pending().len() == 0,
            final(self).tab_seq() == old(self).tab_seq(),
            final(self).active_index() == old(self).active_index(),
            final(self).next() == old(self).next(),
            final(self).ws() == old(self).ws(),
            final(self).search_view() == old(self).search_view(),
    {
        let mut r = Vec::new();
        std::mem::swap(&mut r, &mut self.effects);
        r
    }

    /// Hand out a fresh tab id.
    fn alloc_id(&mut self) -> (id: u64)
        requires
            old(self).next() < u64::MAX,
        ensures
            id == old(self).next(),
            final(self).next() == old(self).next() + 1,
            final(self).tabs == old(self).tabs,
            final(self).active == old(self).active,
            final(self).workspace == old(self).workspace,
            final(self).effects == old(self).effects,
            final(self).search_view() == old(self).search_view(),
            final(self).pending_close_view() == old(self).pending_close_view(),
            final(self).pending_fs == old(self).pending_fs,
    {
        let id = self.next_id;
        self.next_id = self.next_id + 1;
        id
    }

    /// Record that the session index must be written.
    pub fn persist_session(&mut self)
        ensures
            final(self).pending() == old(self).pending().push(Effect::SaveSession),
            same_state(&*final(self), &*old(self)),
            final(self).fs_prompt_view() == old(self).fs_prompt_view(),
    {
        self.effects.push(Effect::SaveSession);
    }

    /// Record that the focused tab's buffer must be written to its swap
    /// file.
    pub fn persist_active_swap(&mut self)
        requires
            old(self).wf(),
        ensures
            final(self).pending() == old(self).pending().push(Effect::SaveSwap(old(self).active_tab().id)),
            same_state(&*final(self), &*old(self)),
            final(self).fs_prompt_view() == old(self).fs_prompt_view(),
    {
        let id = self.tabs[self.active].id;
        self.effects.push(Effect::SaveSwap(id));
    }

    /// Open a new, empty, untitled tab and focus it.
    pub fn new_tab(&mut self)
        requires
            old(self).wf(),
            old(self).next() < u64::MAX,
        ensures
            final(self).wf(),
            final(self).tab_seq().len() == old(self).tab_seq().len() + 1,
            final(self).tab_seq().take(old(self).tab_seq().len() as int) == old(self).tab_seq(),
            is_untitled(final(self).tab_seq().last(), old(self).next()),
            final(self).active_index() == old(self).tab_seq().len(),
            final(self).next() == old(self).next() + 1,
            final(self).ws() == old(self).ws(),
            final(self).pending() == old(self).pending().push(Effect::SaveSwap(old(self).next())).push(
                Effect::SaveSession,
            ),
    {
        let id = self.alloc_id();
        self.tabs.push(Tab::new_untitled(id));
        self.active = self.tabs.len() - 1;
        assert(self.tabs@.take(old(self).tabs@.len() as int) =~= old(self).tabs@);
        self.persist_active_swap();
        self.persist_session();
    }

    /// Close the tab at `index`, removing its swap file. When the last tab
    /// closes a fresh untitled one takes its place; when the focused index
    /// falls off the end it moves to the last tab. An out-of-range index
    /// changes nothing.
    pub fn close_tab(&mut self, index: usize)
        requires
            old(self).wf(),
            old(self).next() < u64::MAX,
        ensures
            final(self).wf(),
            final(self).fs_prompt_view() == old(self).fs_prompt_view(),
            index >= old(self).tab_seq().len() ==> same_state(&*final(self), &*old(self)) && final(self).pending()
                == old(self).pending(),
            index < old(self).tab_seq().len() ==> tab_closed(&*old(self), &*final(self), index as int)
                && final(self).pending_close_view() == old(self).pending_close_view(),
    {
        if index >= self.tabs.len() {
            return;
        }
        let tab = self.tabs.remove(index);
        self.effects.push(Effect::RemoveSwap(tab.id));
        if self.tabs.len() == 0 {
            let id = self.alloc_id();
            self.tabs.push(Tab::new_untitled(id));
            self.active = 0;
            self.persist_active_swap();
        } else if self.active >= self.tabs.len() {
            self.active = self.tabs.len() - 1;
        }
        self.persist_session();
    }

    /// Request to close the tab at `index`: a clean buffer is closed at
    /// once; a buffer with unsaved changes is recorded in `pending_close`
    /// for the confirmation prompt instead. An out-of-range index changes
    /// nothing.
    pub fn request_close_tab(&mut self, index: usize)
        requires
            old(self).wf(),
            old(self).next() < u64::MAX,
        ensures
            final(self).wf(),
            final(self).fs_prompt_view() == old(self).fs_prompt_view(),
            index >= old(self).tab_seq().len() ==> same_state(&*final(self), &*old(self)) && final(self).pending()
                == old(self).pending(),
            index < old(self).tab_seq().len() && old(self).tab_seq()[index as int].dirty() ==> {
                &&& final(self).pending_close_view() == Some(index)
                &&& final(self).tab_seq() == old(self).tab_seq()
                &&& final(self).active_index() == old(self).active_index()
                &&& final(self).next() == old(self).next()
                &&& final(self).ws() == old(self).ws()
                &&& final(self).search_view() == old(self).search_view()
                &&& final(self).pending() == old(self).pending()
            },
            index < old(self).tab_seq().len() && !old(self).tab_seq()[index as int].dirty() ==> tab_closed(
                &*old(self),
                &*final(self),
                index as int,
            ) && final(self).pending_close_view() == old(self).pending_close_view(),
    {
        if index >= self.tabs.len() {
            return;
        }
        if self.tabs[index].is_dirty() {
            self.pending_close = Some(index);
        } else {
            self.close_tab(index);
        }
    }

    /// Close the sidebar workspace, so that it stays closed on the next
    /// launch. A no-op when no workspace is open.
    pub fn close_workspace(&mut self)
        requires
            old(self).wf(),
        ensures
            final(self).wf(),
            final(self).ws() is None,
            final(self).tab_seq() == old(self).tab_seq(),
            final(self).active_index() == old(self).active_index(),
            final(self).next() == old(self).next(),
            final(self).search_view() == old(self).search_view(),
            final(self).pending_close_view() == old(self).pending_close_view(),
            final(self).pending() == if old(self).ws() is Some {
                old(self).pending().push(Effect::SaveSession)
            } else {
                old(self).pending()
            },
    {
        if self.workspace.is_some() {
            self.workspace = None;
            self.persist_session();
        }
    }

    /// Recompute the match set for the focused buffer from the current
    /// query: the inline error is set from an invalid regex, and the focused
    /// match is kept when still in range, else moved to the first match.
    pub fn recompute_matches(&mut self)
        requires
            old(self).wf(),
        ensures
            final(self).wf(),
            final(self).tab_seq() == old(self).tab_seq(),
            final(self).active_index() == old(self).active_index(),
            final(self).next() == old(self).next(),
            final(self).ws() == old(self).ws(),
            final(self).pending() == old(self).pending(),
            final(self).pending_close_view() == old(self).pending_close_view(),
            search_refreshed(old(self).search_view(), final(self).search_view(), old(self).active_tab().text@),
    {
        self.search.error = None;
        self.search.matches = Vec::new();
        assert(self.search.match_list() =~= Seq::<(usize, usize)>::empty());
        if self.search.query.is_empty() {
            self.search.current = None;
            return;
        }
        let matcher = match self.search.query.compile() {
            Ok(m) => m,
            Err(err) => {
                self.search.error = Some(search_error_message(&err));
                self.search.current = None;
                return;
            },
        };
        let text = self.tabs[self.active].text.as_str();
        let matches = match &self.search.selection {
            Some(scope) => {
                if self.search.in_selection && scope.start < scope.end {
                    matcher.find_matches_in(text, Range { start: scope.start, end: scope.end })
                } else {
                    matcher.find_matches(text)
                }
            },
            None => matcher.find_matches(text),
        };
        let n = matches.len();
        self.search.matches = matches;
        self.search.current = match self.search.current {
            Some(i) => if i < n {
                Some(i)
            } else if n == 0 {
                None
            } else {
                Some(0)
            },
            None => if n == 0 {
                None
            } else {
                Some(0)
            },
        };
    }

    /// The find/replace bar.
    pub fn search(&self) -> (r: &SearchState)
        ensures
            *r == self.search_view(),
    {
        &self.search
    }

    /// The find/replace bar, for the shell to bind its widgets to.
    pub fn search_mut(&mut self) -> (r: &mut SearchState)
        ensures
            *r == old(self).search_view(),
            final(self).search_view() == *final(r),
            final(self).tab_seq() == old(self).tab_seq(),
            final(self).active_index() == old(self).active_index(),
            final(self).next() == old(self).next(),
            final(self).ws() == old(self).ws(),
            final(self).pending() == old(self).pending(),
            final(self).pending_close_view() == old(self).pending_close_view(),
    {
        &mut self.search
    }

    /// Move to the next (`forward`) or previous match, wrapping around, and
    /// ask the editor to scroll it into view. Nothing happens without
    /// matches.
    pub fn step_match(&mut self, forward: bool)
        requires
            old(self).wf(),
        ensures
            final(self).wf(),
            final(self).tab_seq() == old(self).tab_seq(),
            final(self).active_index() == old(self).active_index(),
            final(self).pending() == old(self).pending(),
            final(self).search_view().matches == old(self).search_view().matches,
            final(self).search_view().query == old(self).search_view().query,
            final(self).search_view().open == old(self).search_view().open,
            final(self).search_view().replace_open == old(self).search_view().replace_open,
            final(self).search_view().replacement == old(self).search_view().replacement,
            final(self).search_view().in_selection == old(self).search_view().in_selection,
            final(self).search_view().selection == old(self).search_view().selection,
            final(self).search_view().error == old(self).search_view().error,
            final(self).search_view().focus_requested == old(self).search_view().focus_requested,
            final(self).ws() == old(self).ws(),
            final(self).next() == old(self).next(),
            final(self).pending_close_view() == old(self).pending_close_view(),
            final(self).fs_prompt_view() == old(self).fs_prompt_view(),
            old(self).search_view().matches@.len() == 0 ==> final(self).search_view() == old(self).search_view(),
            old(self).search_view().matches@.len() > 0 ==> {
                let t = step_target(old(self).search_view().current, old(self).search_view().matches@.len() as int, forward);
                &&& final(self).search_view().current == Some(t as usize)
                &&& final(self).search_view().scroll_to == Some(old(self).search_view().matches@[t])
                &&& final(self).search_view().wf()
            },
    {
        let len = self.search.matches.len();
        if len == 0 {
            return;
        }
        let next = match self.search.current {
            Some(i) => {
                let r = i % len;
                proof {
                    vstd::arithmetic::div_mod::lemma_mod_bound(i as int, len as int);
                }
                if forward {
                    proof {
                        vstd::arithmetic::div_mod::lemma_add_mod_noop_right(1, i as int, len as int);
                        if r + 1 < len {
                            vstd::arithmetic::div_mod::lemma_small_mod((r + 1) as nat, len as nat);
                        } else {
                            vstd::arithmetic::div_mod::lemma_mod_self_0(len as int);
                        }
                    }
                    if r + 1 == len {
                        0
                    } else {
                        r + 1
                    }
                } else {
                    proof {
                        vstd::arithmetic::div_mod::lemma_add_mod_noop_right(len - 1, i as int, len as int);
                        assert(i + len - 1 == (len - 1) + i);
                        if r == 0 {
                            vstd::arithmetic::div_mod::lemma_small_mod((len - 1) as nat, len as nat);
                        } else {
                            vstd::arithmetic::div_mod::lemma_mod_add_multiples_vanish(r - 1, len as int);
                            vstd::arithmetic::div_mod::lemma_small_mod((r - 1) as nat, len as nat);
                            assert(len - 1 + r == len + (r - 1));
                        }
                    }
                    if r == 0 {
                        len - 1
                    } else {
                        r - 1
                    }
                }
            },
            None => 0,
        };
        self.search.current = Some(next);
        let m = &self.search.matches[next];
        self.search.scroll_to = Some(Range { start: m.start, end: m.end });
    }

    /// The match highlights to hand to the editor: the matches and the
    /// focused one while the bar is open, nothing otherwise.
    pub fn match_highlights(&self) -> (h: MatchHighlights)
        ensures
            self.search_view().open ==> pairs(h.ranges@) == self.search_view().match_list() && h.current
                == self.search_view().current,
            !self.search_view().open ==> h.ranges@.len() == 0 && h.current is None,
    {
        if self.search.open {
            let mut ranges: Vec<Range<usize>> = Vec::new();
            let mut i: usize = 0;
            while i < self.search.matches.len()
                invariant
                    i <= self.search.matches@.len(),
                    pairs(ranges@) == pairs(self.search.matches@).take(i as int),
                decreases self.search.matches@.len() - i,
            {
                let m = &self.search.matches[i];
                let ghost before = ranges@;
                ranges.push(Range { start: m.start, end: m.end });
                assert(ranges@ =~= before.push(Range { start: m.start, end: m.end }));
                assert(pairs(ranges@) =~= pairs(before).push((m.start, m.end)));
                assert(pairs(self.search.matches@).take(i + 1) =~= pairs(self.search.matches@).take(i as int).push((m.start, m.end)));
                assert(pairs(ranges@) =~= pairs(self.search.matches@).take(i + 1));
                i = i + 1;
            }
            assert(pairs(self.search.matches@).take(self.search.matches@.len() as int) =~= pairs(self.search.matches@));
            MatchHighlights { ranges, current: self.search.current }
        } else {
            MatchHighlights::none()
        }
    }

    /// A short "current/total" (or "no results") label for the find bar.
    pub fn match_count_label(&self) -> (r: String)
        requires
            self.search_view().wf(),
        ensures
            r@ == count_label(
                self.search_view().query.pattern@.len() == 0,
                self.search_view().matches@.len(),
                self.search_view().current,
            ),
    {
        if self.search.query.is_empty() {
            String::new()
        } else if self.search.matches.len() == 0 {
            "no results".to_owned()
        } else {
            let cur: usize = match self.search.current {
                Some(i) => i + 1,
                None => 0,
            };
            let mut r = decimal_of(cur as u64);
            push_char(&mut r, '/');
            let total = decimal_of(self.search.matches.len() as u64);
            r.append(total.as_str());
            r
        }
    }

    /// The focused editor's selected text, from the selection byte range
    /// captured on the previous frame; `None` when there is no non-empty
    /// selection or it does not fall on character boundaries.
    pub fn active_selection_text(&self) -> (r: Option<String>)
        requires
            self.wf(),
        ensures
            opt_view(r) == selection_text(self.active_tab().text@, self.search_view().selection),
            r matches Some(x) ==> encode_utf8(x@) == encode_utf8(self.active_tab().text@).subrange(
                self.search_view().selection->0.start as int,
                self.search_view().selection->0.end as int,
            ),
    {
        let range = match &self.search.selection {
            Some(r) => r,
            None => return None,
        };
        if range.start >= range.end {
            return None;
        }
        let r = str_get(self.tabs[self.active].text.as_str(), range.start, range.end);
        proof {
            if r is Some {
                vstd::utf8::encode_utf8_decode_utf8(r->0@);
            }
        }
        r
    }

    /// Open the find bar (with the replace row when `replace`), seeding the
    /// pattern from a non-empty single-line selection (as a plain query),
    /// and request keyboard focus.
    pub fn open_search(&mut self, replace: bool)
        requires
            old(self).wf(),
        ensures
            final(self).wf(),
            final(self).tab_seq() == old(self).tab_seq(),
            final(self).active_index() == old(self).active_index(),
            final(self).pending() == old(self).pending(),
            final(self).search_view().open,
            final(self).search_view().replace_open == replace,
            final(self).search_view().focus_requested,
            final(self).search_view().wf(),
            ({
                let s = old(self).search_view();
                let q = final(self).search_view().query;
                let sel = selection_text(old(self).active_tab().text@, s.selection);
                let seeded = sel matches Some(x) && x.len() > 0 && !x.contains('\n');
                &&& q.pattern@ == if seeded { sel->0 } else { s.query.pattern@ }
                &&& q.regex == if seeded { false } else { s.query.regex }
                &&& q.case_sensitive == s.query.case_sensitive
                &&& q.whole_word == s.query.whole_word
                &&& final(self).search_view().replacement == s.replacement
                &&& final(self).search_view().in_selection == s.in_selection
                &&& final(self).search_view().selection == s.selection
                &&& final(self).search_view().scroll_to == s.scroll_to
                &&& results_refreshed(final(self).search_view(), q, s.in_selection, s.selection, s.current, old(self).active_tab().text@)
            }),
    {
        let sel = self.active_selection_text();
        match sel {
            Some(selected) => {
                if !selected.as_str().is_empty() && !has_newline(selected.as_str()) {
                    self.search.query.pattern = selected;
                    self.search.query.regex = false;
                }
            },
            None => {},
        }
        self.search.open = true;
        self.search.replace_open = replace;
        self.search.focus_requested = true;
        self.recompute_matches();
    }

    /// Close the find bar, clearing the live match cache so highlights
    /// vanish.
    pub fn close_search(&mut self)
        requires
            old(self).wf(),
        ensures
            final(self).wf(),
            final(self).tab_seq() == old(self).tab_seq(),
            final(self).active_index() == old(self).active_index(),
            final(self).pending() == old(self).pending(),
            !final(self).search_view().open,
            final(self).search_view().matches@.len() == 0,
            final(self).search_view().current is None,
            final(self).search_view().scroll_to is None,
            final(self).search_view().query == old(self).search_view().query,
            final(self).search_view().replace_open == old(self).search_view().replace_open,
            final(self).search_view().replacement == old(self).search_view().replacement,
            final(self).search_view().in_selection == old(self).search_view().in_selection,
            final(self).search_view().selection == old(self).search_view().selection,
            final(self).search_view().error == old(self).search_view().error,
            final(self).search_view().focus_requested == old(self).search_view().focus_requested,
            final(self).ws() == old(self).ws(),
    {
        self.search.open = false;
        self.search.matches = Vec::new();
        self.search.current = None;
        self.search.scroll_to = None;
    }

    /// Replace the focused tab's text, keeping everything else.
    fn set_active_text(&mut self, text: String)
        requires
            old(self).wf(),
        ensures
            final(self).wf(),
            text_updated(old(self).tab_seq(), final(self).tab_seq(), old(self).active_index(), text@),
            final(self).active_index() == old(self).active_index(),
            final(self).next() == old(self).next(),
            final(self).ws() == old(self).ws(),
            final(self).pending() == old(self).pending(),
            final(self).search_view() == old(self).search_view(),
            final(self).pending_close_view() == old(self).pending_close_view(),
            final(self).fs_prompt_view() == old(self).fs_prompt_view(),
    {
        let ghost t = text@;
        self.tabs[self.active].text = text;
    }

    /// Swap the focused tab's text with `text`, for the editor widget to
    /// edit in place; returns the text the tab held.
    pub fn replace_active_text(&mut self, text: String) -> (r: String)
        requires
            old(self).wf(),
        ensures
            final(self).wf(),
            r@ == old(self).active_tab().text@,
            text_updated(old(self).tab_seq(), final(self).tab_seq(), old(self).active_index(), text@),
            final(self).active_index() == old(self).active_index(),
            final(self).pending() == old(self).pending(),
            final(self).search_view() == old(self).search_view(),
    {
        let mut r = String::new();
        std::mem::swap(&mut r, &mut self.tabs[self.active].text);
        self.set_active_text(text);
        r
    }

    /// Replace the focused match with the replacement text, then re-find so
    /// the highlights and indices stay correct, focusing the first match at
    /// or after the replaced one. Nothing is replaced without a focused
    /// match or when no match starts where it did.
    pub fn replace_current(&mut self)
        requires
            old(self).wf(),
            old(self).search_view().current matches Some(i) ==> (i < old(self).search_view().matches@.len()
                ==> old(self).search_view().matches@[i as int].start <= byte_len(old(self).active_tab().text@)),
        ensures
            final(self).wf(),
            final(self).active_index() == old(self).active_index(),
            old(self).search_view().wf() ==> final(self).search_view().wf(),
            ({
                let q = old(self).search_view().query;
                match old(self).search_view().current {
                    None => final(self).tab_seq() == old(self).tab_seq() && final(self).pending()
                        == old(self).pending(),
                    Some(i) => if i >= old(self).search_view().matches@.len() {
                        &&& final(self).tab_seq() == old(self).tab_seq()
                        &&& final(self).pending() == old(self).pending()
                        &&& final(self).search_view() == old(self).search_view()
                    } else {
                        let at = old(self).search_view().matches@[i as int].start;
                        if query_error(q) is Some {
                            final(self).tab_seq() == old(self).tab_seq() && opt_view(final(self).search_view().error) == query_error(q)
                        } else {
                            match one_replacement(query_regex(q).0, query_regex(q).1, !q.regex, old(self).active_tab().text@, at, old(self).search_view().replacement@) {
                                Some((bytes, _, _)) => {
                                    &&& final(self).tab_seq().len() == old(self).tab_seq().len()
                                    &&& encode_utf8(final(self).active_tab().text@) == bytes
                                    &&& forall|j: int| 0 <= j < old(self).tab_seq().len() && j != old(self).active_index()
                                        ==> final(self).tab_seq()[j] == old(self).tab_seq()[j]
                                    &&& final(self).pending() == old(self).pending().push(Effect::SaveSwap(old(self).active_tab().id))
                                },
                                None => final(self).tab_seq() == old(self).tab_seq() && final(self).pending()
                                    == old(self).pending(),
                            }
                        }
                    },
                }
            }),
            ({
                let q = old(self).search_view().query;
                let s = old(self).search_view();
                match s.current {
                    Some(i) => if i >= s.matches@.len() {
                        true
                    } else {
                        let at = s.matches@[i as int].start;
                        if query_error(q) is None && one_replacement(query_regex(q).0, query_regex(q).1, !q.regex, old(self).active_tab().text@, at, s.replacement@) is Some {
                            let m = if q.pattern@.len() == 0 {
                                Seq::<(usize, usize)>::empty()
                            } else {
                                scoped_matches(q, s.in_selection, s.selection, final(self).active_tab().text@)
                            };
                            &&& final(self).search_view().match_list() == m
                            &&& final(self).search_view().error is None
                            &&& final(self).search_view().current == refocus(m, at, s.current)
                        } else {
                            true
                        }
                    },
                    None => true,
                }
            }),
    {
        let index = match self.search.current {
            Some(i) => i,
            None => return,
        };
        if index >= self.search.matches.len() {
            return;
        }
        let start = self.search.matches[index].start;
        let matcher = match self.search.query.compile() {
            Ok(m) => m,
            Err(err) => {
                self.search.error = Some(search_error_message(&err));
                return;
            },
        };
        let result = matcher.replace_one_at(self.tabs[self.active].text.as_str(), start, self.search.replacement.as_str());
        match result {
            Some((new_text, _)) => {
                self.set_active_text(new_text);
                self.persist_active_swap();
                self.recompute_matches();
                let ghost m = self.search.match_list();
                proof {
                    lemma_first_start_from(m, start);
                }
                match first_at_or_after(&self.search.matches, start) {
                    Some(k) => {
                        assert(m[k as int].0 == self.search.matches@[k as int].start);
                        assert forall|j: int| 0 <= j < k implies m[j].0 < start by {
                            assert(m[j].0 == self.search.matches@[j].start);
                        }
                        assert(first_start_from(m, start) == k);
                        self.search.current = Some(k);
                    },
                    None => {
                        assert forall|j: int| 0 <= j < m.len() implies m[j].0 < start by {
                            assert(m[j].0 == self.search.matches@[j].start);
                        }
                        assert(first_start_from(m, start) == m.len());
                    },
                }
            },
            None => {},
        }
    }

    /// Replace every match in the focused buffer with the replacement text
    /// (capture references expand in regex mode). An empty query does
    /// nothing; an invalid one only sets the inline error.
    pub fn replace_all(&mut self)
        requires
            old(self).wf(),
        ensures
            final(self).wf(),
            final(self).active_index() == old(self).active_index(),
            old(self).search_view().wf() ==> final(self).search_view().wf(),
            final(self).ws() == old(self).ws(),
            final(self).search_view().query == old(self).search_view().query,
            final(self).search_view().open == old(self).search_view().open,
            final(self).search_view().replace_open == old(self).search_view().replace_open,
            final(self).search_view().replacement == old(self).search_view().replacement,
            final(self).search_view().in_selection == old(self).search_view().in_selection,
            final(self).search_view().selection == old(self).search_view().selection,
            final(self).search_view().scroll_to == old(self).search_view().scroll_to,
            ({
                let q = old(self).search_view().query;
                let t = old(self).active_tab().text@;
                let s = old(self).search_view();
                if q.pattern@.len() == 0 {
                    final(self).tab_seq() == old(self).tab_seq() && final(self).pending() == old(self).pending()
                        && final(self).search_view() == s
                } else if query_error(q) is Some {
                    final(self).tab_seq() == old(self).tab_seq() && final(self).pending() == old(self).pending()
                        && opt_view(final(self).search_view().error) == query_error(q)
                        && final(self).search_view().matches == s.matches && final(self).search_view().current == s.current
                } else {
                    let n = regex_replace_all(query_regex(q).0, query_regex(q).1, t, s.replacement@, q.regex);
                    &&& text_updated(old(self).tab_seq(), final(self).tab_seq(), old(self).active_index(), n)
                    &&& final(self).pending() == if n == t {
                        old(self).pending()
                    } else {
                        old(self).pending().push(Effect::SaveSwap(old(self).active_tab().id))
                    }
                    &&& results_refreshed(final(self).search_view(), q, s.in_selection, s.selection, None, n)
                }
            }),
    {
        if self.search.query.is_empty() {
            return;
        }
        let matcher = match self.search.query.compile() {
            Ok(m) => m,
            Err(err) => {
                self.search.error = Some(search_error_message(&err));
                return;
            },
        };
        let new_text = matcher.replace_all(self.tabs[self.active].text.as_str(), self.search.replacement.as_str());
        if !crate::path::str_eq(new_text.as_str(), self.tabs[self.active].text.as_str()) {
            self.set_active_text(new_text);
            self.persist_active_swap();
        } else {
            assert(self.tabs@ =~= old(self).tabs@);
        }
        self.search.current = None;
        self.recompute_matches();
    }

    /// The index of the first tab that is the probed file, given each tab's
    /// resolved path.
    fn find_probe(&self, probe: &FileProbe, canonicals: &Vec<Option<String>>) -> (r: Option<usize>)
        requires
            canonicals@.len() == self.tab_seq().len(),
        ensures
            match r {
                Some(i) => i < self.tab_seq().len() && probe_hit(self.tab_seq()[i as int], canonicals@[i as int], *probe)
                    && forall|j: int| 0 <= j < i ==> !probe_hit(self.tab_seq()[j], canonicals@[j], *probe),
                None => forall|j: int| 0 <= j < self.tab_seq().len() ==> !probe_hit(self.tab_seq()[j], canonicals@[j], *probe),
            },
    {
        let mut i: usize = 0;
        while i < self.tabs.len()
            invariant
                i <= self.tabs@.len() == canonicals@.len(),
                forall|j: int| 0 <= j < i ==> !probe_hit(self.tabs@[j], canonicals@[j], *probe),
            decreases self.tabs@.len() - i,
        {
            let hit = match &self.tabs[i].path {
                Some(tp) => {
                    if same_path_exec(tp.as_str(), probe.path.as_str()) {
                        true
                    } else {
                        match (&probe.canonical, &canonicals[i]) {
                            (Some(pc), Some(tc)) => crate::path::str_eq(pc.as_str(), tc.as_str()),
                            _ => false,
                        }
                    }
                },
                None => false,
            };
            if hit {
                return Some(i);
            }
            i = i + 1;
        }
        None
    }

    /// Open the probed file into a tab and focus it. A tab already on that
    /// file (by path, or by resolved path) is focused instead of opening a
    /// duplicate. Returns `true` when a tab is now focused on the file,
    /// `false` when the file could not be read. `canonicals` holds each
    /// open tab's resolved path.
    pub fn open_probe(&mut self, probe: FileProbe, canonicals: &Vec<Option<String>>) -> (opened: bool)
        requires
            old(self).wf(),
            old(self).next() < u64::MAX,
            canonicals@.len() == old(self).tab_seq().len(),
        ensures
            final(self).wf(),
            final(self).ws() == old(self).ws(),
            final(self).search_view() == old(self).search_view(),
            final(self).pending_close_view() == old(self).pending_close_view(),
            final(self).fs_prompt_view() == old(self).fs_prompt_view(),
            (exists|i: int| 0 <= i < old(self).tab_seq().len() && probe_hit(old(self).tab_seq()[i], canonicals@[i], probe)) ==> {
                &&& opened
                &&& final(self).tab_seq() == old(self).tab_seq()
                &&& probe_hit(final(self).active_tab(), canonicals@[final(self).active_index()], probe)
                &&& forall|j: int| 0 <= j < final(self).active_index() ==> !probe_hit(old(self).tab_seq()[j], canonicals@[j], probe)
                &&& final(self).next() == old(self).next()
                &&& final(self).pending() == old(self).pending()
            },
            !(exists|i: int| 0 <= i < old(self).tab_seq().len() && probe_hit(old(self).tab_seq()[i], canonicals@[i], probe)) ==> {
                match probe.contents {
                    Some(c) => {
                        &&& opened
                        &&& final(self).tab_seq().len() == old(self).tab_seq().len() + 1
                        &&& final(self).tab_seq().take(old(self).tab_seq().len() as int) == old(self).tab_seq()
                        &&& final(self).active_index() == old(self).tab_seq().len()
                        &&& final(self).active_tab().id == old(self).next()
                        &&& final(self).active_tab().path == Some(probe.path)
                        &&& final(self).active_tab().text@ == c@
                        &&& !final(self).active_tab().dirty()
                        &&& tab_state(final(self).active_tab()) == file_state(old(self).next(), probe.path@, c@)
                        &&& final(self).next() == old(self).next() + 1
                        &&& final(self).pending() == old(self).pending().push(Effect::SaveSwap(old(self).next()))
                    },
                    None => !opened && final(self).tab_seq() == old(self).tab_seq() && final(self).active_index()
                        == old(self).active_index() && final(self).next() == old(self).next()
                        && final(self).pending() == old(self).pending(),
                }
            },
    {
        match self.find_probe(&probe, canonicals) {
            Some(i) => {
                self.active = i;
                return true;
            },
            None => {},
        }
        match probe.contents {
            Some(text) => {
                let id = self.alloc_id();
                let tab = Tab::from_file(id, probe.path, text);
                self.effects.push(Effect::SaveSwap(id));
                self.tabs.push(tab);
                self.active = self.tabs.len() - 1;
                assert(self.tabs@.take(old(self).tabs@.len() as int) =~= old(self).tabs@);
                true
            },
            None => false,
        }
    }

    /// Build the editor from a restored session, open the probed command
    /// line `files` (each focused in turn; a file already open is focused
    /// rather than opened twice), and optionally set the sidebar workspace
    /// to `dir`. A `dir` replaces a restored workspace unless it names the
    /// same root (then the expanded folders are kept). When files or a
    /// directory were given the session index is saved.
    pub fn with_args(restored: RestoredSession, canonicals: Vec<Option<String>>, files: Vec<FileProbe>, dir: Option<String>) -> (app: FrextApp)
        requires
            canonicals@.len() == restored.tabs@.len(),
            restored.next_id + files@.len() + 1 < u64::MAX,
        ensures
            app.wf(),
            ({
                let s = open_all(startup(restored, canonicals@), files@);
                &&& tab_states(app.tab_seq()) == s.0
                &&& app.active_index() == s.2
                &&& app.next() == s.3
                &&& app.pending() == if files@.len() > 0 || dir is Some {
                    s.4.push(Effect::SaveSession)
                } else {
                    s.4
                }
            }),
            match dir {
                Some(d) => if restored.workspace matches Some(r) && same_path(r.root_view(), d@) {
                    app.ws() == restored.workspace
                } else {
                    app.ws() matches Some(w) && w.root_view() == d@ && w.entries().len() == 0
                },
                None => app.ws() == restored.workspace,
            },
            app.search_view().query == restored.search,
            app.search_view().matches@.len() == 0,
            app.search_view().current is None,
            !app.search_view().open,
            app.pending_close_view() is None,
            app.fs_prompt_view() is None,
            forall|k: int| 0 <= k < files@.len() && (#[trigger] files@[k]).contents is Some ==> file_is_open(app.tab_seq(), files@[k], canonicals@, files@),
    {
        let restored_len = restored.tabs.len();
        let rest_ws = restored.workspace;
        let mut app = FrextApp::new(RestoredSession {
            tabs: restored.tabs,
            active: restored.active,
            next_id: restored.next_id,
            workspace: None,
            search: restored.search,
        });
        let mut canon = canonicals;
        if restored_len == 0 {
            canon.push(None);
        }
        let had_dir = dir.is_some();
        app.workspace = match dir {
            Some(d) => match rest_ws {
                Some(w) => {
                    if same_path_exec(w.root().as_str(), d.as_str()) {
                        Some(w)
                    } else {
                        Some(Workspace::new(d))
                    }
                },
                None => Some(Workspace::new(d)),
            },
            None => rest_ws,
        };
        let ghost ws0 = app.workspace;
        let ghost given = canonicals@;
        let ghost rl = given.len() as int;
        let n = files.len();
        let mut remaining = files;
        let ghost all = remaining@;
        let mut i: usize = 0;
        let ghost s0 = startup(restored, given);
        proof {
            if restored_len == 0 {
                assert(app.tab_seq()[0].path is None);
                assert(tab_states(app.tab_seq()) =~= s0.0);
                assert(opt_views(canon@) =~= s0.1);
            } else {
                assert(tab_states(app.tab_seq()) =~= s0.0);
                assert(opt_views(canon@) =~= s0.1);
            }
            assert(all.take(0) =~= Seq::<FileProbe>::empty());
            assert(app.pending() =~= s0.4);
        }
        while remaining.len() > 0
            invariant
                app.wf(),
                ({
                    let st = open_all(s0, all.take(i as int));
                    &&& tab_states(app.tab_seq()) == st.0
                    &&& opt_views(canon@) == st.1
                    &&& app.active_index() == st.2
                    &&& app.next() == st.3
                    &&& app.pending() == st.4
                }),
                app.search_view().query == restored.search,
                app.search_view().matches@.len() == 0,
                app.search_view().current is None,
                !app.search_view().open,
                app.pending_close_view() is None,
                app.fs_prompt_view() is None,
                canon@.len() == app.tab_seq().len(),
                rl <= canon@.len(),
                rl == given.len(),
                forall|j: int| 0 <= j < rl ==> canon@[j] == given[j],
                forall|j: int| rl <= j < canon@.len() && app.tab_seq()[j].path is Some ==> known_canonical(
                    j,
                    app.tab_seq()[j].path->0@,
                    opt_view(#[trigger] canon@[j]),
                    given,
                    all,
                ),
                app.next() + remaining@.len() < u64::MAX,
                app.workspace == ws0,
                i + remaining@.len() == n,
                all.len() == n,
                remaining@ == all.skip(i as int),
                forall|k: int| 0 <= k < i && (#[trigger] all[k]).contents is Some ==> file_is_open(app.tab_seq(), all[k], given, all),
            decreases remaining@.len(),
        {
            let probe = remaining.remove(0);
            let probe_canon = crate::tab::clone_opt(&probe.canonical);
            let ghost pv = probe;
            let ghost before = app.tab_seq();
            let ghost canon0 = canon@;
            let before_len = app.tabs.len();
            let ghost st = open_all(s0, all.take(i as int));
            app.open_probe(probe, &canon);
            proof {
                assert(all[i as int] == pv);
                assert(all.take(i + 1).drop_last() =~= all.take(i as int));
                assert(all.take(i + 1).last() == pv);
                assert forall|j: int| 0 <= j < before.len() implies (probe_hit(before[j], canon0[j], pv) == hits(st.0[j].1, st.1[j], pv)) by {
                    assert(st.0[j] == tab_state(before[j]));
                    assert(st.1[j] == opt_view(canon0[j]));
                }
                if exists|j: int| 0 <= j < before.len() && probe_hit(before[j], canon0[j], pv) {
                    lemma_first_hit(st.0, st.1, pv, 0, app.active_index());
                } else {
                    lemma_first_hit(st.0, st.1, pv, 0, before.len() as int);
                    if pv.contents is Some {
                        assert(tab_states(app.tab_seq()) =~= st.0.push(file_state(st.3, pv.path@, pv.contents->0@)));
                    }
                }
                if exists|j: int| 0 <= j < before.len() && probe_hit(before[j], canon0[j], pv) {
                    if pv.contents is Some {
                        let j = app.active_index();
                        assert(probe_hit(before[j], canon0[j], pv));
                        let p = before[j].path->0;
                        if !same_path(p@, pv.path@) {
                            if j < rl {
                                assert(canon0[j] == given[j]);
                            } else {
                                assert(known_canonical(j, p@, opt_view(canon0[j]), given, all));
                                let m = choose|m: int| 0 <= m < all.len() && (#[trigger] all[m]).path@ == p@ && opt_view(all[m].canonical) == opt_view(canon0[j]);
                                assert(known_canonical(j, p@, opt_view(pv.canonical), given, all));
                            }
                        }
                        assert(tab_on_file(app.tab_seq(), j, pv, given, all));
                    }
                } else if pv.contents is Some {
                    let j = app.active_index();
                    assert(app.tab_seq()[j].path == Some(pv.path));
                    assert(same_path(pv.path@, pv.path@));
                    assert(tab_on_file(app.tab_seq(), j, pv, given, all));
                }
                assert forall|k: int| 0 <= k < i + 1 && (#[trigger] all[k]).contents is Some implies file_is_open(app.tab_seq(), all[k], given, all) by {
                    if k < i {
                        let j = choose|j: int| 0 <= j < before.len() && #[trigger] tab_on_file(before, j, all[k], given, all);
                        assert(app.tab_seq()[j] == before[j]);
                        assert(tab_on_file(app.tab_seq(), j, all[k], given, all));
                    } else {
                        let j = app.active_index();
                        assert(k == i);
                        assert(tab_on_file(app.tab_seq(), j, pv, given, all));
                    }
                }
                assert(remaining@ =~= all.skip(i + 1));
            }
            if app.tabs.len() > before_len {
                canon.push(probe_canon);
                proof {
                    assert(opt_views(canon@) =~= st.1.push(opt_view(pv.canonical)));
                    let j = before.len() as int;
                    assert(app.tab_seq()[j].path == Some(pv.path));
                    assert(all[i as int].path@ == pv.path@);
                    assert(known_canonical(j, pv.path@, opt_view(canon@[j]), given, all));
                }
            }
            proof {
                assert forall|j: int| rl <= j < canon@.len() && app.tab_seq()[j].path is Some implies known_canonical(
                    j,
                    app.tab_seq()[j].path->0@,
                    opt_view(#[trigger] canon@[j]),
                    given,
                    all,
                ) by {
                    if j < before.len() {
                        assert(app.tab_seq()[j] == before[j]);
                        assert(canon@[j] == canon0[j]);
                    }
                }
            }
            i = i + 1;
        }
        proof {
            assert(all.take(n as int) =~= all);
        }
        if n > 0 || had_dir {
            app.persist_session();
        }
        app
    }

    /// Build the editor from a restored session and open the probed command
    /// line `files`, as [`FrextApp::with_args`] does without a directory.
    pub fn with_files(restored: RestoredSession, canonicals: Vec<Option<String>>, files: Vec<FileProbe>) -> (app: FrextApp)
        requires
            canonicals@.len() == restored.tabs@.len(),
            restored.next_id + files@.len() + 1 < u64::MAX,
        ensures
            app.wf(),
            ({
                let s = open_all(startup(restored, canonicals@), files@);
                &&& tab_states(app.tab_seq()) == s.0
                &&& app.active_index() == s.2
                &&& app.next() == s.3
                &&& app.pending() == if files@.len() > 0 {
                    s.4.push(Effect::SaveSession)
                } else {
                    s.4
                }
            }),
            app.ws() == restored.workspace,
            app.search_view().query == restored.search,
            app.search_view().matches@.len() == 0,
            app.search_view().current is None,
            !app.search_view().open,
            app.pending_close_view() is None,
            app.fs_prompt_view() is None,
            forall|k: int| 0 <= k < files@.len() && (#[trigger] files@[k]).contents is Some ==> file_is_open(app.tab_seq(), files@[k], canonicals@, files@),
    {
        FrextApp::with_args(restored, canonicals, files, None)
    }

    /// Close every tab whose file is `path` or lies under it (after the path
    /// was moved to the trash). Tabs are closed from the end so removals do
    /// not shift unscanned indices. When every tab goes, a fresh untitled
    /// tab remains.
    pub fn close_tabs_under(&mut self, path: &str)
        requires
            old(self).wf(),
            old(self).next() < u64::MAX,
        ensures
            final(self).wf(),
            final(self).ws() == old(self).ws(),
            final(self).search_view() == old(self).search_view(),
            tabs_not_under(old(self).tab_seq(), path@).len() > 0 ==> final(self).tab_seq() == tabs_not_under(old(self).tab_seq(), path@),
            tabs_not_under(old(self).tab_seq(), path@).len() == 0 ==> final(self).tab_seq().len() == 1
                && is_untitled(final(self).tab_seq()[0], old(self).next()),
            final(self).pending().take(old(self).pending().len() as int) == old(self).pending(),
            ({
                let r = close_under_from(
                    (tab_states(old(self).tab_seq()), old(self).active_index(), old(self).next(), old(self).pending()),
                    path@,
                    old(self).tab_seq().len() as int,
                );
                &&& tab_states(final(self).tab_seq()) == r.0
                &&& final(self).active_index() == r.1
                &&& final(self).next() == r.2
                &&& final(self).pending() == r.3
            }),
            forall|j: int| 0 <= j < final(self).tab_seq().len() ==> !((#[trigger] final(self).tab_seq()[j]).path matches Some(p)
                && starts_with(p@, path@)),
    {
        let ghost o = self.tab_seq();
        let ghost p0 = self.pending();
        let ghost n0 = self.next();
        let ghost goal = close_under_from((tab_states(o), self.active_index(), n0, p0), path@, o.len() as int);
        let mut index = self.tabs.len();
        proof {
            assert(o.skip(index as int) =~= Seq::<Tab>::empty());
            assert(o.take(index as int) + tabs_not_under(o.skip(index as int), path@) =~= o);
            assert(self.pending().take(p0.len() as int) =~= p0);
        }
        while index > 0
            invariant
                index <= o.len(),
                index <= self.tab_seq().len(),
                goal == close_under_from((tab_states(o), old(self).active_index(), n0, p0), path@, o.len() as int),
                close_under_from(
                    (tab_states(self.tab_seq()), self.active_index(), self.next(), self.pending()),
                    path@,
                    index as int,
                ) == goal,
                forall|j: int| 0 <= j < index ==> #[trigger] self.tab_seq()[j] == o[j],
                self.wf(),
                self.ws() == old(self).ws(),
                self.search_view() == old(self).search_view(),
                self.pending().len() >= p0.len(),
                self.pending().take(p0.len() as int) == p0,
                n0 == old(self).next(),
                n0 < u64::MAX,
                o == old(self).tab_seq(),
                (self.tab_seq() == o.take(index as int) + tabs_not_under(o.skip(index as int), path@)
                    && self.next() == n0) || (index == 0 && tabs_not_under(o, path@).len() == 0
                    && self.tab_seq().len() == 1 && is_untitled(self.tab_seq()[0], n0)),
            decreases index,
        {
            index = index - 1;
            let ghost cur = self.tab_seq();
            let ghost pend = self.pending();
            let ghost st: Closing = (tab_states(cur), self.active_index(), self.next(), pend);
            assert(st.0[index as int] == tab_state(cur[index as int]));
            let ghost rest = tabs_not_under(o.skip(index + 1), path@);
            proof {
                assert(o.skip(index as int).drop_first() =~= o.skip(index + 1));
                assert(o.skip(index as int)[0] == o[index as int]);
                assert(o.take(index + 1) =~= o.take(index as int).push(o[index as int]));
                assert(cur =~= o.take(index as int) + seq![o[index as int]] + rest);
                assert(cur[index as int] == o[index as int]);
            }
            let under = match &self.tabs[index].path {
                Some(p) => starts_with_exec(p.as_str(), path),
                None => false,
            };
            if under {
                assert(tab_under(o[index as int], path@));
                self.close_tab(index);
                proof {
                    if cur.len() > 1 {
                        assert(cur.remove(index as int) =~= o.take(index as int) + rest);
                        assert(tab_states(self.tab_seq()) =~= st.0.remove(index as int));
                        assert forall|j: int| 0 <= j < index implies #[trigger] self.tab_seq()[j] == o[j] by {
                            assert(self.tab_seq()[j] == cur[j]);
                        }
                    } else {
                        assert(tab_states(self.tab_seq()) =~= seq![untitled_state(st.2)]);
                        assert(index == 0);
                        assert(o.skip(0) =~= o);
                    }
                }
            } else {
                proof {
                    assert(!tab_under(o[index as int], path@));
                    assert(!(st.0[index as int].1 matches Some(p) && starts_with(p, path@)));
                    assert(self.tab_seq() =~= o.take(index as int) + tabs_not_under(o.skip(index as int), path@));
                }
            }
            assert(self.pending().take(p0.len() as int) =~= p0);
        }
        proof {
            assert(o.skip(0) =~= o);
            assert(o.take(0) + tabs_not_under(o, path@) =~= tabs_not_under(o, path@));
            let st0: Closing = (tab_states(o), old(self).active_index(), n0, p0);
            law_no_tab_is_left_under_a_closed_path(st0, path@);
            assert forall|j: int| 0 <= j < self.tab_seq().len() implies !((#[trigger] self.tab_seq()[j]).path matches Some(p)
                && starts_with(p@, path@)) by {
                assert(tab_states(self.tab_seq())[j] == tab_state(self.tab_seq()[j]));
            }
        }
    }

    /// Rewrite the tabs and expanded folders after `from` was renamed to
    /// `to`: a tab on `from` now points at `to`, and one under `from` at the
    /// same place under `to`. Nothing changes when `to` is `from`.
    pub fn apply_rename(&mut self, from: &str, to: &str)
        requires
            old(self).wf(),
        ensures
            final(self).wf(),
            final(self).active_index() == old(self).active_index(),
            final(self).search_view() == old(self).search_view(),
            same_path(to@, from@) ==> final(self).tab_seq() == old(self).tab_seq() && final(self).ws() == old(self).ws()
                && final(self).pending() == old(self).pending(),
            !same_path(to@, from@) ==> {
                &&& final(self).tab_seq().len() == old(self).tab_seq().len()
                &&& forall|j: int| 0 <= j < old(self).tab_seq().len() ==> {
                    &&& (#[trigger] final(self).tab_seq()[j]).id == old(self).tab_seq()[j].id
                    &&& final(self).tab_seq()[j].text == old(self).tab_seq()[j].text
                    &&& final(self).tab_seq()[j].saved_text == old(self).tab_seq()[j].saved_text
                    &&& final(self).tab_seq()[j].disk_len == old(self).tab_seq()[j].disk_len
                    &&& opt_view(final(self).tab_seq()[j].path) == moved_path(opt_view(old(self).tab_seq()[j].path), from@, to@)
                }
                &&& match old(self).ws() {
                    Some(w) => final(self).ws() matches Some(v) && v.root_view() == w.root_view() && v.dirs()
                        == crate::workspace::keys_of(w.entries().map_values(|p: Seq<char>| migrate(p, from@, to@))),
                    None => final(self).ws() is None,
                }
                &&& final(self).pending() == if exists|j: int| 0 <= j < old(self).tab_seq().len() && moves(
                    opt_view(#[trigger] old(self).tab_seq()[j].path),
                    from@,
                ) {
                    old(self).pending().push(Effect::SaveSwap(old(self).active_tab().id)).push(Effect::SaveSession)
                } else {
                    old(self).pending().push(Effect::SaveSession)
                }
            },
    {
        if same_path_exec(to, from) {
            return;
        }
        let mut touched = false;
        let mut i: usize = 0;
        while i < self.tabs.len()
            invariant
                self.wf(),
                i <= self.tabs@.len() == old(self).tabs@.len(),
                self.active == old(self).active,
                self.search == old(self).search,
                self.workspace == old(self).workspace,
                self.effects == old(self).effects,
                !same_path(to@, from@),
                touched == exists|j: int| 0 <= j < i && moves(opt_view(#[trigger] old(self).tabs@[j].path), from@),
                forall|j: int| 0 <= j < old(self).tabs@.len() ==> {
                    &&& (#[trigger] self.tabs@[j]).id == old(self).tabs@[j].id
                    &&& self.tabs@[j].text == old(self).tabs@[j].text
                    &&& self.tabs@[j].saved_text == old(self).tabs@[j].saved_text
                    &&& self.tabs@[j].disk_len == old(self).tabs@[j].disk_len
                    &&& if j < i {
                        opt_view(self.tabs@[j].path) == moved_path(opt_view(old(self).tabs@[j].path), from@, to@)
                    } else {
                        self.tabs@[j].path == old(self).tabs@[j].path
                    }
                },
            decreases old(self).tabs@.len() - i,
        {
            proof {
                if let Some(tp) = old(self).tabs@[i as int].path {
                    if same_path(tp@, from@) {
                        assert(crate::path::parts(tp@).take(crate::path::parts(tp@).len() as int) =~= crate::path::parts(tp@));
                    }
                }
            }
            let new_path = match &self.tabs[i].path {
                Some(tp) => {
                    if same_path_exec(tp.as_str(), from) {
                        Some(to.to_owned())
                    } else {
                        match strip_prefix_exec(tp.as_str(), from) {
                            Some(rest) => Some(join_exec(to, rest.as_str())),
                            None => None,
                        }
                    }
                },
                None => None,
            };
            match new_path {
                Some(np) => {
                    self.tabs[i].path = Some(np);
                    touched = true;
                },
                None => {},
            }
            i = i + 1;
        }
        if touched {
            self.persist_active_swap();
        }
        match &mut self.workspace {
            Some(w) => {
                w.migrate_dirs(from, to);
            },
            None => {},
        }
        self.persist_session();
    }

    /// `path` relative to the workspace root, for "Copy relative path";
    /// the path itself when there is no workspace or it is not under the
    /// root.
    pub fn relative_to_root(&self, path: &str) -> (r: String)
        ensures
            r@ == match self.ws() {
                Some(w) => match strip_prefix(path@, w.root_view()) {
                    Some(rel) => rel,
                    None => path@,
                },
                None => path@,
            },
    {
        match &self.workspace {
            Some(w) => match strip_prefix_exec(path, w.root().as_str()) {
                Some(rel) => rel,
                None => path.to_owned(),
            },
            None => path.to_owned(),
        }
    }

    /// Drop the expanded folders whose `keep` flag is false (those no
    /// longer on disk); the session is saved when any was dropped.
    pub fn prune_workspace_expanded(&mut self, keep: &Vec<bool>)
        requires
            old(self).wf(),
            old(self).ws() matches Some(w) ==> keep@.len() == w.entries().len(),
        ensures
            final(self).wf(),
            final(self).tab_seq() == old(self).tab_seq(),
            final(self).active_index() == old(self).active_index(),
            final(self).next() == old(self).next(),
            final(self).search_view() == old(self).search_view(),
            final(self).pending_close_view() == old(self).pending_close_view(),
            final(self).fs_prompt_view() == old(self).fs_prompt_view(),
            match old(self).ws() {
                Some(w) => final(self).ws() matches Some(v) && v.root_view() == w.root_view() && v.dirs()
                    == crate::workspace::keys_of(
                    Seq::new(w.entries().len(), |i: int| i).filter(|i: int| keep@[i]).map_values(
                        |i: int| w.entries()[i],
                    ),
                ),
                None => final(self).ws() is None,
            },
            final(self).pending() == if old(self).ws() is Some && exists|i: int| 0 <= i < keep@.len() && !keep@[i] {
                old(self).pending().push(Effect::SaveSession)
            } else {
                old(self).pending()
            },
    {
        let dropped = match &mut self.workspace {
            Some(w) => w.retain_dirs(keep),
            None => false,
        };
        if dropped {
            self.persist_session();
        }
    }

    /// Record `dir` as expanded or collapsed in the workspace; the session
    /// is saved when that changed the set.
    pub fn set_workspace_expanded(&mut self, dir: &str, expanded: bool)
        requires
            old(self).wf(),
        ensures
            final(self).wf(),
            final(self).tab_seq() == old(self).tab_seq(),
            match old(self).ws() {
                Some(w) => final(self).ws() matches Some(v) && v.dirs() == if expanded {
                    w.dirs().insert(crate::path::path_key(dir@))
                } else {
                    w.dirs().remove(crate::path::path_key(dir@))
                } && final(self).pending() == if w.dirs().contains(crate::path::path_key(dir@)) != expanded {
                    old(self).pending().push(Effect::SaveSession)
                } else {
                    old(self).pending()
                },
                None => final(self).ws() is None && final(self).pending() == old(self).pending(),
            },
    {
        let changed = match &mut self.workspace {
            Some(w) => w.set_expanded(dir, expanded),
            None => false,
        };
        if changed {
            self.persist_session();
        }
    }

    /// Record that the tab at `index` was written to `path`: it is now on
    /// that file and clean. The session is saved.
    fn mark_saved(&mut self, index: usize, path: String)
        requires
            old(self).wf(),
            index < old(self).tab_seq().len(),
        ensures
            final(self).wf(),
            final(self).tab_seq().len() == old(self).tab_seq().len(),
            forall|j: int| 0 <= j < old(self).tab_seq().len() && j != index ==> final(self).tab_seq()[j] == old(self).tab_seq()[j],
            final(self).tab_seq()[index as int].path == Some(path),
            final(self).tab_seq()[index as int].id == old(self).tab_seq()[index as int].id,
            final(self).tab_seq()[index as int].disk_len == old(self).tab_seq()[index as int].disk_len,
            final(self).tab_seq()[index as int].text == old(self).tab_seq()[index as int].text,
            final(self).tab_seq()[index as int].saved_text@ == old(self).tab_seq()[index as int].text@,
            !final(self).tab_seq()[index as int].dirty(),
            final(self).pending() == old(self).pending().push(Effect::SaveSession),
            final(self).active_index() == old(self).active_index(),
            final(self).next() == old(self).next(),
            final(self).ws() == old(self).ws(),
            final(self).search_view() == old(self).search_view(),
            final(self).pending_close_view() == old(self).pending_close_view(),
            final(self).fs_prompt_view() == old(self).fs_prompt_view(),
    {
        let saved = self.tabs[index].text.clone();
        self.tabs[index].path = Some(path);
        self.tabs[index].saved_text = saved;
        self.persist_session();
    }

    /// Where saving the tab at `index` writes: the tab's own file, or, for
    /// a tab on no file, the path `chosen` in the save-as dialog. `None`
    /// when the index is out of range or no path is known (the dialog was
    /// cancelled).
    pub fn save_target(&self, index: usize, chosen: Option<String>) -> (r: Option<String>)
        ensures
            index >= self.tab_seq().len() ==> r is None,
            index < self.tab_seq().len() ==> r == match self.tab_seq()[index as int].path {
                Some(p) => Some(p),
                None => chosen,
            },
    {
        if index >= self.tabs.len() {
            return None;
        }
        match &self.tabs[index].path {
            Some(p) => Some(p.clone()),
            None => chosen,
        }
    }

    /// Record the outcome of saving the tab at `index` to `target` (as
    /// [`FrextApp::save_target`] chose it), where `written` tells whether
    /// writing the buffer there succeeded. The save happened exactly when the
    /// index is in range, a path was known and the write succeeded: then the
    /// tab is on that path and clean, and the session index is saved.
    /// Otherwise nothing changes.
    pub fn save_tab(&mut self, index: usize, target: Option<String>, written: bool) -> (saved: bool)
        requires
            old(self).wf(),
        ensures
            final(self).wf(),
            saved == (index < old(self).tab_seq().len() && target is Some && written),
            final(self).active_index() == old(self).active_index(),
            final(self).next() == old(self).next(),
            final(self).ws() == old(self).ws(),
            final(self).search_view() == old(self).search_view(),
            final(self).pending_close_view() == old(self).pending_close_view(),
            final(self).fs_prompt_view() == old(self).fs_prompt_view(),
            !saved ==> final(self).tab_seq() == old(self).tab_seq() && final(self).pending() == old(self).pending(),
            saved ==> {
                &&& final(self).tab_seq().len() == old(self).tab_seq().len()
                &&& forall|j: int| 0 <= j < old(self).tab_seq().len() && j != index ==> final(self).tab_seq()[j]
                    == old(self).tab_seq()[j]
                &&& final(self).tab_seq()[index as int].path == target
                &&& final(self).tab_seq()[index as int].id == old(self).tab_seq()[index as int].id
                &&& final(self).tab_seq()[index as int].text == old(self).tab_seq()[index as int].text
                &&& final(self).tab_seq()[index as int].saved_text@ == old(self).tab_seq()[index as int].text@
                &&& final(self).tab_seq()[index as int].disk_len == old(self).tab_seq()[index as int].disk_len
                &&& !final(self).tab_seq()[index as int].dirty()
                &&& final(self).pending() == old(self).pending().push(Effect::SaveSession)
            },
    {
        if index >= self.tabs.len() || !written {
            return false;
        }
        match target {
            Some(path) => {
                self.mark_saved(index, path);
                true
            },
            None => false,
        }
    }

    /// The focused buffer's text in the character selection `[start, end)`.
    pub fn copy_selection(&self, start: usize, end: usize) -> (r: String)
        requires
            self.wf(),
        ensures
            r@ == spec_selected(self.active_tab().text@, start as int, end as int),
    {
        selected_text(self.tabs[self.active].text.as_str(), start, end)
    }

    /// Cut the character selection `[start, end)` from the focused buffer,
    /// returning the cut text and the new caret; `None` (and nothing
    /// changes) when the selection is empty.
    pub fn cut_selection(&mut self, start: usize, end: usize) -> (r: Option<(String, usize)>)
        requires
            old(self).wf(),
        ensures
            final(self).wf(),
            final(self).active_index() == old(self).active_index(),
            final(self).pending() == old(self).pending(),
            final(self).next() == old(self).next(),
            final(self).ws() == old(self).ws(),
            final(self).search_view() == old(self).search_view(),
            final(self).pending_close_view() == old(self).pending_close_view(),
            final(self).fs_prompt_view() == old(self).fs_prompt_view(),
            ({
                let t = old(self).active_tab().text@;
                if spec_selected(t, start as int, end as int).len() == 0 {
                    r is None && final(self).tab_seq() == old(self).tab_seq()
                } else {
                    r matches Some((cut, caret)) && cut@ == spec_selected(t, start as int, end as int)
                        && caret == sel_lo(t.len() as int, start as int, end as int)
                        && text_updated(old(self).tab_seq(), final(self).tab_seq(), old(self).active_index(), spec_replaced(t, start as int, end as int, Seq::empty()))
                }
            }),
    {
        let cut = selected_text(self.tabs[self.active].text.as_str(), start, end);
        if cut.as_str().is_empty() {
            return None;
        }
        let mut text = String::new();
        std::mem::swap(&mut text, &mut self.tabs[self.active].text);
        let caret = delete_range(&mut text, start, end);
        self.set_active_text(text);
        Some((cut, caret))
    }

    /// Replace the character selection `[start, end)` of the focused buffer
    /// with `clip` (or insert it at the caret), returning the new caret;
    /// `None` (and nothing changes) when `clip` is empty.
    pub fn paste_text(&mut self, start: usize, end: usize, clip: &str) -> (r: Option<usize>)
        requires
            old(self).wf(),
        ensures
            final(self).wf(),
            final(self).active_index() == old(self).active_index(),
            final(self).pending() == old(self).pending(),
            final(self).next() == old(self).next(),
            final(self).ws() == old(self).ws(),
            final(self).search_view() == old(self).search_view(),
            final(self).pending_close_view() == old(self).pending_close_view(),
            final(self).fs_prompt_view() == old(self).fs_prompt_view(),
            ({
                let t = old(self).active_tab().text@;
                if clip@.len() == 0 {
                    r is None && final(self).tab_seq() == old(self).tab_seq()
                } else {
                    r == Some((sel_lo(t.len() as int, start as int, end as int) + clip@.len()) as usize)
                        && text_updated(old(self).tab_seq(), final(self).tab_seq(), old(self).active_index(), spec_replaced(t, start as int, end as int, clip@))
                }
            }),
    {
        if clip.is_empty() {
            return None;
        }
        let mut text = String::new();
        std::mem::swap(&mut text, &mut self.tabs[self.active].text);
        let caret = replace_range(&mut text, start, end, clip);
        self.set_active_text(text);
        Some(caret)
    }

    /// The focused buffer was edited: its swap must be written, and the
    /// matches refreshed while the find bar is open.
    pub fn buffer_edited(&mut self)
        requires
            old(self).wf(),
        ensures
            final(self).wf(),
            final(self).tab_seq() == old(self).tab_seq(),
            final(self).active_index() == old(self).active_index(),
            final(self).pending() == old(self).pending().push(Effect::SaveSwap(old(self).active_tab().id)),
            final(self).ws() == old(self).ws(),
            !old(self).search_view().open ==> final(self).search_view() == old(self).search_view(),
            old(self).search_view().open ==> search_refreshed(old(self).search_view(), final(self).search_view(), old(self).active_tab().text@),
    {
        self.persist_active_swap();
        if self.search.open {
            self.recompute_matches();
        }
    }

    /// Take in the focused tab's file size on disk (`None` when unknown)
    /// and say whether its file should be re-read (see
    /// [`Tab::observe_disk_len`]).
    pub fn observe_active_disk(&mut self, current_len: Option<u64>) -> (reload: bool)
        requires
            old(self).wf(),
        ensures
            final(self).wf(),
            final(self).active_index() == old(self).active_index(),
            final(self).pending() == old(self).pending(),
            final(self).tab_seq().len() == old(self).tab_seq().len(),
            forall|j: int| 0 <= j < old(self).tab_seq().len() && j != old(self).active_index() ==> final(self).tab_seq()[j]
                == old(self).tab_seq()[j],
            final(self).active_tab().id == old(self).active_tab().id,
            final(self).active_tab().path == old(self).active_tab().path,
            final(self).active_tab().text == old(self).active_tab().text,
            final(self).active_tab().saved_text == old(self).active_tab().saved_text,
            final(self).active_tab().disk_len == if old(self).active_tab().path is Some && current_len is Some
                && old(self).active_tab().disk_len != current_len && old(self).active_tab().dirty() {
                current_len
            } else {
                old(self).active_tab().disk_len
            },
            reload == (old(self).active_tab().path is Some && current_len is Some && old(self).active_tab().disk_len
                != current_len && !old(self).active_tab().dirty()),
    {
        let mut tab = self.tabs.remove(self.active);
        let r = tab.observe_disk_len(current_len);
        self.tabs.insert(self.active, tab);
        r
    }

    /// Apply a re-read of the focused tab's file (see [`Tab::apply_reload`]);
    /// a reloaded buffer's swap and the session are saved.
    pub fn finish_active_reload(&mut self, current_len: u64, read: Option<String>) -> (reloaded: bool)
        requires
            old(self).wf(),
        ensures
            final(self).wf(),
            final(self).active_index() == old(self).active_index(),
            reloaded == read is Some,
            match read {
                Some(t) => {
                    &&& final(self).tab_seq().len() == old(self).tab_seq().len()
                    &&& forall|j: int| 0 <= j < old(self).tab_seq().len() && j != old(self).active_index() ==> final(self).tab_seq()[j] == old(self).tab_seq()[j]
                    &&& final(self).active_tab().id == old(self).active_tab().id
                    &&& final(self).active_tab().path == old(self).active_tab().path
                    &&& final(self).active_tab().text@ == t@
                    &&& final(self).active_tab().saved_text@ == t@
                    &&& final(self).active_tab().disk_len == Some(byte_len(t@) as u64)
                    &&& final(self).pending() == old(self).pending().push(Effect::SaveSwap(old(self).active_tab().id)).push(Effect::SaveSession)
                },
                None => {
                    &&& final(self).tab_seq().len() == old(self).tab_seq().len()
                    &&& forall|j: int| 0 <= j < old(self).tab_seq().len() && j != old(self).active_index() ==> final(self).tab_seq()[j] == old(self).tab_seq()[j]
                    &&& final(self).active_tab().id == old(self).active_tab().id
                    &&& final(self).active_tab().path == old(self).active_tab().path
                    &&& final(self).active_tab().text == old(self).active_tab().text
                    &&& final(self).active_tab().saved_text == old(self).active_tab().saved_text
                    &&& final(self).active_tab().disk_len == Some(current_len)
                    &&& final(self).pending() == old(self).pending()
                },
            },
    {
        let mut tab = self.tabs.remove(self.active);
        let r = tab.apply_reload(current_len, read);
        self.tabs.insert(self.active, tab);
        if r {
            self.persist_active_swap();
            self.persist_session();
        }
        r
    }

    /// The tab awaiting close confirmation.
    pub fn pending_close(&self) -> (r: Option<usize>)
        ensures
            r == self.pending_close_view(),
    {
        self.pending_close
    }

    /// Take the tab awaiting close confirmation, clearing the request.
    pub fn take_pending_close(&mut self) -> (r: Option<usize>)
        requires
            old(self).wf(),
        ensures
            final(self).wf(),
            r == old(self).pending_close_view(),
            final(self).pending_close_view() is None,
            final(self).tab_seq() == old(self).tab_seq(),
            final(self).pending() == old(self).pending(),
    {
        let r = self.pending_close;
        self.pending_close = None;
        r
    }

    /// Act on the answer to the unsaved-changes prompt. A stale request (its
    /// tab is gone) is dropped. `Cancel` keeps the tab, `Discard` closes it
    /// as [`FrextApp::close_tab`] does, and `Save` hands back the tab's index
    /// so the caller saves it and closes it only when the save succeeded.
    /// `Pending` changes nothing.
    pub fn resolve_pending_close(&mut self, choice: CloseChoice) -> (save: Option<usize>)
        requires
            old(self).wf(),
            old(self).next() < u64::MAX,
        ensures
            final(self).wf(),
            final(self).ws() == old(self).ws(),
            final(self).search_view() == old(self).search_view(),
            final(self).fs_prompt_view() == old(self).fs_prompt_view(),
            !(choice is Discard && (old(self).pending_close_view() matches Some(i) && i < old(self).tab_seq().len()))
                ==> final(self).active_index() == old(self).active_index() && final(self).next() == old(self).next(),
            match old(self).pending_close_view() {
                None => save is None && final(self).tab_seq() == old(self).tab_seq() && final(self).pending()
                    == old(self).pending() && final(self).pending_close_view() is None,
                Some(i) => if i >= old(self).tab_seq().len() {
                    save is None && final(self).tab_seq() == old(self).tab_seq() && final(self).pending()
                        == old(self).pending() && final(self).pending_close_view() is None
                } else {
                    match choice {
                        CloseChoice::Pending => save is None && final(self).tab_seq() == old(self).tab_seq()
                            && final(self).pending() == old(self).pending() && final(self).pending_close_view()
                            == Some(i),
                        CloseChoice::Cancel => save is None && final(self).tab_seq() == old(self).tab_seq()
                            && final(self).pending() == old(self).pending() && final(self).pending_close_view() is None,
                        CloseChoice::Save => save == Some(i) && final(self).tab_seq() == old(self).tab_seq()
                            && final(self).pending() == old(self).pending() && final(self).pending_close_view() is None,
                        CloseChoice::Discard => {
                            &&& save is None
                            &&& final(self).pending_close_view() is None
                            &&& tab_closed(&*old(self), &*final(self), i as int)
                        },
                    }
                },
            },
    {
        let index = match self.pending_close {
            Some(i) => i,
            None => return None,
        };
        if index >= self.tabs.len() {
            self.pending_close = None;
            return None;
        }
        match choice {
            CloseChoice::Pending => None,
            CloseChoice::Cancel => {
                self.pending_close = None;
                None
            },
            CloseChoice::Discard => {
                self.pending_close = None;
                self.close_tab(index);
                None
            },
            CloseChoice::Save => {
                self.pending_close = None;
                Some(index)
            },
        }
    }

    /// Open the name-entry prompt for `kind` on `target`: a rename starts
    /// from the target's current file name, a new entry from an empty name.
    pub fn begin_fs_prompt(&mut self, kind: FsPromptKind, target: String)
        ensures
            final(self).fs_prompt_view() matches Some(p) && p.kind == kind && p.target == target && p.focus_requested
                && p.error is None && p.name@ == if kind == FsPromptKind::Rename {
                match crate::path::file_name(target@) {
                    Some(n) => n,
                    None => Seq::empty(),
                }
            } else {
                Seq::empty()
            },
            same_state(&*final(self), &*old(self)),
            final(self).pending() == old(self).pending(),
    {
        let name = match kind {
            FsPromptKind::Rename => match crate::path::file_name_of(target.as_str()) {
                Some(n) => n,
                None => String::new(),
            },
            _ => String::new(),
        };
        self.pending_fs = Some(FsPrompt { kind, target, name, focus_requested: true, error: None });
    }

    /// The pending name-entry prompt.
    pub fn fs_prompt(&self) -> (r: Option<&FsPrompt>)
        ensures
            match r {
                Some(p) => self.fs_prompt_view() == Some(*p),
                None => self.fs_prompt_view() is None,
            },
    {
        match &self.pending_fs {
            Some(p) => Some(p),
            None => None,
        }
    }

    /// Take the pending name-entry prompt (to show, submit or cancel it),
    /// leaving none.
    pub fn take_fs_prompt(&mut self) -> (r: Option<FsPrompt>)
        ensures
            r == old(self).fs_prompt_view(),
            final(self).fs_prompt_view() is None,
            same_state(&*final(self), &*old(self)),
            final(self).pending() == old(self).pending(),
    {
        let mut r = None;
        std::mem::swap(&mut r, &mut self.pending_fs);
        r
    }

    /// Put a prompt back as the pending one (it stays open).
    pub fn put_fs_prompt(&mut self, prompt: FsPrompt)
        ensures
            final(self).fs_prompt_view() == Some(prompt),
            same_state(&*final(self), &*old(self)),
            final(self).pending() == old(self).pending(),
    {
        self.pending_fs = Some(prompt);
    }

    /// Reopen a submitted prompt whose operation failed, showing `message`
    /// inline and giving the name field focus again.
    pub fn fail_fs_prompt(&mut self, prompt: FsPrompt, message: String)
        ensures
            final(self).fs_prompt_view() matches Some(p) && p.kind == prompt.kind && p.target == prompt.target
                && p.name == prompt.name && p.focus_requested && p.error == Some(message),
            same_state(&*final(self), &*old(self)),
            final(self).pending() == old(self).pending(),
    {
        self.pending_fs = Some(FsPrompt {
            kind: prompt.kind,
            target: prompt.target,
            name: prompt.name,
            focus_requested: true,
            error: Some(message),
        });
    }

    /// Record that every tab's swap and the session index must be written,
    /// as on exit.
    pub fn flush_all(&mut self)
        ensures
            final(self).pending() == old(self).pending() + old(self).tab_seq().map_values(|t: Tab| Effect::SaveSwap(t.id)) + seq![Effect::SaveSession],
            same_state(&*final(self), &*old(self)),
    {
        let ghost start = self.pending();
        let mut i: usize = 0;
        while i < self.tabs.len()
            invariant
                i <= self.tabs@.len(),
                self.tabs == old(self).tabs,
                self.active == old(self).active,
                self.next_id == old(self).next_id,
                self.workspace == old(self).workspace,
                self.search == old(self).search,
                self.pending_close == old(self).pending_close,
                start == old(self).pending(),
                self.pending() == start + self.tabs@.take(i as int).map_values(|t: Tab| Effect::SaveSwap(t.id)),
            decreases self.tabs@.len() - i,
        {
            let id = self.tabs[i].id;
            self.effects.push(Effect::SaveSwap(id));
            assert(self.tabs@.take(i + 1) =~= self.tabs@.take(i as int).push(self.tabs@[i as int]));
            assert(self.pending() =~= start + self.tabs@.take(i + 1).map_values(|t: Tab| Effect::SaveSwap(t.id)));
            i = i + 1;
        }
        assert(self.tabs@.take(self.tabs@.len() as int) =~= self.tabs@);
        self.persist_session();
        assert(self.pending() =~= start + old(self).tab_seq().map_values(|t: Tab| Effect::SaveSwap(t.id)) + seq![Effect::SaveSession]);
    }

    /// Focus the tab at `index`.
    pub fn select_tab(&mut self, index: usize)
        requires
            old(self).wf(),
            index < old(self).tab_seq().len(),
        ensures
            final(self).wf(),
            final(self).active_index() == index,
            final(self).tab_seq() == old(self).tab_seq(),
            final(self).next() == old(self).next(),
            final(self).ws() == old(self).ws(),
            final(self).pending() == old(self).pending().push(Effect::SaveSession),
            search_refreshed(old(self).search_view(), final(self).search_view(), old(self).tab_seq()[index as int].text@),
    {
        self.active = index;
        self.persist_session();
        self.recompute_matches();
    }
}


/// Stepping forward and then back (or back and then forward) returns to the
/// match that was focused: the two directions of [`FrextApp::step_match`]
/// undo each other.
pub proof fn law_step_back_undoes_step_forward(c: usize, n: int)
    requires
        c < n <= usize::MAX,
    ensures
        step_target(Some(step_target(Some(c), n, true) as usize), n, false) == c,
        step_target(Some(step_target(Some(c), n, false) as usize), n, true) == c,
{
    vstd::arithmetic::div_mod::lemma_small_mod(c as nat, n as nat);
    let f = step_target(Some(c), n, true);
    assert(f == (c + 1) % n);
    if c + 1 < n {
        vstd::arithmetic::div_mod::lemma_small_mod((c + 1) as nat, n as nat);
        assert(f == c + 1);
        vstd::arithmetic::div_mod::lemma_mod_add_multiples_vanish(c as int, n);
        assert((f as usize) + n - 1 == n + c);
        assert(step_target(Some(f as usize), n, false) == (n + c) % n);
    } else {
        vstd::arithmetic::div_mod::lemma_mod_self_0(n);
        assert(c + 1 == n);
        assert(f == 0);
        vstd::arithmetic::div_mod::lemma_small_mod((n - 1) as nat, n as nat);
        assert(step_target(Some(f as usize), n, false) == (n - 1) % n);
    }
    let b = step_target(Some(c), n, false);
    assert(b == (c + n - 1) % n);
    if c == 0 {
        vstd::arithmetic::div_mod::lemma_small_mod((n - 1) as nat, n as nat);
        assert(b == n - 1);
        vstd::arithmetic::div_mod::lemma_mod_self_0(n);
        assert(step_target(Some(b as usize), n, true) == n % n);
    } else {
        vstd::arithmetic::div_mod::lemma_mod_add_multiples_vanish(c - 1, n);
        vstd::arithmetic::div_mod::lemma_small_mod((c - 1) as nat, n as nat);
        assert(c + n - 1 == n + (c - 1));
        assert(b == c - 1);
        assert(step_target(Some(b as usize), n, true) == (c as int) % n);
    }
}

/// Stepping past the last match wraps to the first, and stepping back from
/// the first wraps to the last.
pub proof fn law_stepping_wraps_around(n: int)
    requires
        0 < n <= usize::MAX,
    ensures
        step_target(Some((n - 1) as usize), n, true) == 0,
        step_target(Some(0usize), n, false) == n - 1,
{
    vstd::arithmetic::div_mod::lemma_mod_self_0(n);
    vstd::arithmetic::div_mod::lemma_small_mod((n - 1) as nat, n as nat);
    assert(((n - 1) as usize) == n - 1);
    assert(step_target(Some((n - 1) as usize), n, true) == n % n);
    assert(step_target(Some(0usize), n, false) == (n - 1) % n);
}

/// Whether row `j` starts a logical line: it is the first row, or the row
/// before it ended with a newline.
pub open spec fn starts_line(rows: Seq<bool>, j: int) -> bool {
    j == 0 || rows[j - 1]
}

/// Whether row `j` carries a number among the `(row, number)` pairs.
pub open spec fn is_numbered(out: Seq<(usize, usize)>, j: int) -> bool {
    exists|k: int| 0 <= k < out.len() && (#[trigger] out[k]).0 == j
}

/// What the line-number gutter shows: the numbers run 1, 2, 3, … down the
/// numbered rows, in row order; and a row is numbered exactly when it starts
/// a logical line (it is the first row, or the row before it ended with a
/// newline), so soft-wrap continuation rows are never numbered.
pub proof fn law_line_numbers(rows: Seq<bool>)
    requires
        rows.len() <= usize::MAX,
    ensures
        ({
            let out = numbered_rows(rows);
            &&& forall|k: int| 0 <= k < out.len() ==> (#[trigger] out[k]).1 == k + 1 && out[k].0 < rows.len()
            &&& forall|k1: int, k2: int| 0 <= k1 < k2 < out.len() ==> out[k1].0 < out[k2].0
            &&& forall|j: int| 0 <= j < rows.len() ==> (#[trigger] is_numbered(out, j) <==> starts_line(rows, j))
        }),
{
    lemma_number_state(rows, rows.len() as int);
}

proof fn lemma_number_state(rows: Seq<bool>, i: int)
    requires
        0 <= i <= rows.len() <= usize::MAX,
    ensures
        ({
            let st = number_state(rows, i);
            let out = st.0;
            &&& out.len() == st.2
            &&& st.2 <= i
            &&& st.1 == (i == 0 || rows[i - 1])
            &&& forall|k: int| 0 <= k < out.len() ==> (#[trigger] out[k]).1 == k + 1 && out[k].0 < i
            &&& forall|k1: int, k2: int| 0 <= k1 < k2 < out.len() ==> out[k1].0 < out[k2].0
            &&& forall|j: int| 0 <= j < i ==> (#[trigger] is_numbered(out, j) <==> starts_line(rows, j))
        }),
    decreases i,
{
    if i > 0 {
        lemma_number_state(rows, i - 1);
        let prev = number_state(rows, i - 1);
        let st = number_state(rows, i);
        let out = st.0;
        if prev.1 {
            assert(out == prev.0.push(((i - 1) as usize, (prev.2 + 1) as usize)));
            assert(out[out.len() - 1].0 == i - 1);
            assert forall|j: int| 0 <= j < i implies (#[trigger] is_numbered(out, j) <==> starts_line(rows, j)) by {
                if j < i - 1 {
                    if exists|k: int| 0 <= k < out.len() && (#[trigger] out[k]).0 == j {
                        let k = choose|k: int| 0 <= k < out.len() && (#[trigger] out[k]).0 == j;
                        assert(k < prev.0.len());
                        assert(prev.0[k].0 == j);
                    }
                    if is_numbered(prev.0, j) {
                        let k = choose|k: int| 0 <= k < prev.0.len() && (#[trigger] prev.0[k]).0 == j;
                        assert(out[k].0 == j);
                    }
                } else {
                    assert(out[out.len() - 1].0 == j);
                    assert(is_numbered(out, j));
                }
            }
        } else {
            assert(out == prev.0);
            assert forall|j: int| 0 <= j < i implies (#[trigger] is_numbered(out, j) <==> starts_line(rows, j)) by {
                if j == i - 1 {
                    if exists|k: int| 0 <= k < out.len() && (#[trigger] out[k]).0 == j {
                        let k = choose|k: int| 0 <= k < out.len() && (#[trigger] out[k]).0 == j;
                        assert(out[k].0 < i - 1);
                    }
                }
            }
        }
    }
}

/// A tab opened on a probed file is found again when the same file is
/// probed, whatever its resolved path: opening a file twice focuses the
/// first tab instead of adding another.
pub proof fn law_opened_file_is_found_again(t: Tab, canon: Option<String>, p: FileProbe)
    requires
        t.path == Some(p.path),
    ensures
        probe_hit(t, canon, p),
{
}


/// Two names of one file are one tab: a probe whose resolved path is the
/// resolved path of a tab's file hits that tab, whatever text the two paths
/// are written in (`notes.txt` run from `/w` and `/w/notes.txt`); so does a
/// probe on the tab's own path.
pub proof fn law_one_file_is_one_tab(t: Tab, canon: Option<String>, p: FileProbe)
    requires
        t.path is Some,
    ensures
        p.canonical is Some && opt_view(canon) == opt_view(p.canonical) ==> probe_hit(t, canon, p),
        same_path(t.path->0@, p.path@) ==> probe_hit(t, canon, p),
{
}

/// Opening a file that a tab is already on adds no tab: it focuses the first
/// such tab, and the tabs, the next id and the recorded effects stay as
/// they were.
pub proof fn law_reopening_a_file_adds_no_tab(s: Opening, p: FileProbe, k: int)
    requires
        s.0.len() == s.1.len(),
        0 <= k < s.0.len(),
        s.0[k].1 is Some,
        p.canonical is Some && s.1[k] == opt_view(p.canonical),
    ensures
        open_step(s, p).0 == s.0,
        open_step(s, p).1 == s.1,
        open_step(s, p).3 == s.3,
        open_step(s, p).4 == s.4,
        open_step(s, p).2 <= k,
        open_step(s, p).0[open_step(s, p).2].1 is Some,
{
    lemma_first_hit_range(s.0, s.1, p, 0);
    if first_hit(s.0, s.1, p, 0) == s.0.len() {
        lemma_first_hit_upto(s.0, s.1, p, 0, k);
    }
    lemma_first_hit_upto(s.0, s.1, p, 0, k);
}

/// No tab before the first hit is one, and a hit at `k` bounds the first.
proof fn lemma_first_hit_upto(tabs: Seq<TabState>, canons: Seq<Option<Seq<char>>>, p: FileProbe, i: int, k: int)
    requires
        0 <= i <= k < tabs.len(),
        hits(tabs[k].1, canons[k], p),
    ensures
        i <= first_hit(tabs, canons, p, i) <= k,
    decreases k - i,
{
    if i < k && !hits(tabs[i].1, canons[i], p) {
        lemma_first_hit_upto(tabs, canons, p, i + 1, k);
    }
}

/// Without "in selection", the bar holds every match of the query in the
/// whole buffer, whatever the selection is; with it and a non-empty
/// selection, exactly the matches that lie inside the selection.
pub proof fn law_selection_scopes_only_when_asked(q: SearchQuery, in_selection: bool, selection: Option<Range<usize>>, text: Seq<char>)
    ensures
        !in_selection ==> scoped_matches(q, in_selection, selection, text) == nonempty_spans(
            regex_find_spans(query_regex(q).0, query_regex(q).1, text),
        ),
        selection is None ==> scoped_matches(q, in_selection, selection, text) == nonempty_spans(
            regex_find_spans(query_regex(q).0, query_regex(q).1, text),
        ),
        in_selection && (selection matches Some(s) && s.start < s.end) ==> {
            let all = nonempty_spans(regex_find_spans(query_regex(q).0, query_regex(q).1, text));
            let s = selection->0;
            let r = scoped_matches(q, in_selection, selection, text);
            &&& forall|k: int| 0 <= k < r.len() ==> s.start <= (#[trigger] r[k]).0 && r[k].1 <= s.end && all.contains(r[k])
            &&& forall|k: int| 0 <= k < all.len() && s.start <= (#[trigger] all[k]).0 && all[k].1 <= s.end ==> r.contains(all[k])
        },
{
    let all = nonempty_spans(regex_find_spans(query_regex(q).0, query_regex(q).1, text));
    if in_selection && (selection matches Some(s) && s.start < s.end) {
        let s = selection->0;
        crate::search::law_scoped_matches_are_those_inside(all, s.start, s.end);
    }
}

/// Closing a tab after the focused one leaves the focus where it was: the
/// same index, on the same tab.
pub proof fn law_closing_a_later_tab_keeps_the_focus(o: &FrextApp, f: &FrextApp, index: int)
    requires
        o.wf(),
        tab_closed(o, f, index),
        index > o.active_index(),
    ensures
        f.active_index() == o.active_index(),
        f.active_tab() == o.active_tab(),
{
}

/// Closing a tab after the focused one, as closing the tabs under a path
/// does, leaves the focus on the same tab.
pub proof fn law_closing_a_later_tab_keeps_the_focus_when_pruning(st: Closing, k: int)
    requires
        0 <= st.1 < k < st.0.len(),
    ensures
        close_step(st, k).1 == st.1,
        close_step(st, k).0[close_step(st, k).1] == st.0[st.1],
{
}

/// Closing the tabs under a path leaves no tab whose file is that path or
/// lies under it.
pub proof fn law_no_tab_is_left_under_a_closed_path(st: Closing, path: Seq<char>)
    ensures
        forall|j: int| 0 <= j < close_under_from(st, path, st.0.len() as int).0.len()
            ==> !((#[trigger] close_under_from(st, path, st.0.len() as int).0[j]).1 matches Some(p) && starts_with(p, path)),
{
    lemma_close_under_clears(st, path, st.0.len() as int);
}

/// When no tab from `k` on is under `path`, none is after closing those
/// before `k` that are.
proof fn lemma_close_under_clears(st: Closing, path: Seq<char>, k: int)
    requires
        0 <= k <= st.0.len(),
        forall|j: int| k <= j < st.0.len() ==> !((#[trigger] st.0[j]).1 matches Some(p) && starts_with(p, path)),
    ensures
        forall|j: int| 0 <= j < close_under_from(st, path, k).0.len()
            ==> !((#[trigger] close_under_from(st, path, k).0[j]).1 matches Some(p) && starts_with(p, path)),
    decreases k,
{
    if k > 0 {
        let t = st.0[k - 1];
        if t.1 matches Some(p) && starts_with(p, path) {
            let nx = close_step(st, k - 1);
            if st.0.len() > 1 {
                assert forall|j: int| k - 1 <= j < nx.0.len() implies !((#[trigger] nx.0[j]).1 matches Some(p) && starts_with(p, path)) by {
                    assert(nx.0[j] == st.0[j + 1]);
                }
            } else {
                assert(nx.0[0] == untitled_state(st.2));
            }
            lemma_close_under_clears(nx, path, k - 1);
        } else {
            lemma_close_under_clears(st, path, k - 1);
        }
    }
}

/// Every path is on or under itself, so closing the tabs under a path
/// closes the tabs on that very path.
pub proof fn law_a_path_is_under_itself(p: Seq<char>)
    ensures
        starts_with(p, p),
{
    assert(crate::path::parts(p).take(crate::path::parts(p).len() as int) =~= crate::path::parts(p));
}
} // verus!

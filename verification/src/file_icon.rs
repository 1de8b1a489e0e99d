//! File-type icons for the sidebar file tree.
//!
//! Resolution follows the icon theme's rules: a file's full name is matched
//! against the file-name table first (so `Cargo.toml` gets the cargo icon
//! rather than the generic TOML one), then its trailing dotted segments are
//! matched against the suffix table longest-first (so `app.component.ts`
//! would prefer a `component.ts` rule over a bare `ts` rule). Folders are
//! matched by their lowercased name against the named-folder table, falling
//! back to the generic open/closed folder icons.

use vstd::prelude::*;
use crate::file_icon_bytes::ICON_SVGS;
use crate::file_icon_table::{
    DEFAULT_DIR_COLLAPSED, DEFAULT_DIR_EXPANDED, DEFAULT_FILE, FILE_STEMS, FILE_SUFFIXES, NAMED_DIRS,
};
use crate::path::str_eq;
use crate::text::{chars_of, lemma_lex_at, lemma_lex_prefix, lemma_lex_total, lemma_lex_trans, lex_lt, push_char, string_from_chars, to_lowercase, unicode_lowercase};
use crate::workspace::texts;

verus! {

broadcast use vstd::string::group_string_axioms;

/// The value of the first entry of `t` whose key is `key`.
pub open spec fn find_key(t: Seq<(&'static str, &'static str)>, key: Seq<char>) -> Option<&'static str>
    decreases t.len(),
{
    if t.len() == 0 {
        None
    } else if t[0].0@ == key {
        Some(t[0].1)
    } else {
        find_key(t.drop_first(), key)
    }
}

/// The icons of the first named folder whose name is `key`.
pub open spec fn find_dir(t: Seq<(&'static str, &'static str, &'static str)>, key: Seq<char>) -> Option<(&'static str, &'static str)>
    decreases t.len(),
{
    if t.len() == 0 {
        None
    } else if t[0].0@ == key {
        Some((t[0].1, t[0].2))
    } else {
        find_dir(t.drop_first(), key)
    }
}

/// What follows each `.` of `name` from index `i` on, in order.
pub open spec fn dot_suffixes(name: Seq<char>, i: int) -> Seq<Seq<char>>
    decreases name.len() - i,
{
    if i >= name.len() || i < 0 {
        Seq::empty()
    } else if name[i] == '.' {
        seq![name.skip(i + 1)] + dot_suffixes(name, i + 1)
    } else {
        dot_suffixes(name, i + 1)
    }
}

/// The icon of a suffix candidate: an exact match first, then its lowercase
/// form when that differs.
pub open spec fn suffix_icon(c: Seq<char>) -> Option<&'static str> {
    match find_key(FILE_SUFFIXES@, c) {
        Some(s) => Some(s),
        None => if unicode_lowercase(c) != c {
            find_key(FILE_SUFFIXES@, unicode_lowercase(c))
        } else {
            None
        },
    }
}

/// The icon of the first candidate that has one.
pub open spec fn first_suffix_icon(cands: Seq<Seq<char>>) -> Option<&'static str>
    decreases cands.len(),
{
    if cands.len() == 0 {
        None
    } else {
        match suffix_icon(cands[0]) {
            Some(s) => Some(s),
            None => first_suffix_icon(cands.drop_first()),
        }
    }
}

/// The icon stem for a file named `name`.
pub open spec fn spec_icon_for_file(name: Seq<char>) -> &'static str {
    match find_key(FILE_STEMS@, name) {
        Some(s) => s,
        None => match first_suffix_icon(dot_suffixes(name, 0)) {
            Some(s) => s,
            None => DEFAULT_FILE,
        },
    }
}

/// The icon stem for a folder named `name`.
pub open spec fn spec_icon_for_dir(name: Seq<char>, expanded: bool) -> &'static str {
    match find_dir(NAMED_DIRS@, unicode_lowercase(name)) {
        Some((collapsed, opened)) => if expanded {
            opened
        } else {
            collapsed
        },
        None => if expanded {
            DEFAULT_DIR_EXPANDED
        } else {
            DEFAULT_DIR_COLLAPSED
        },
    }
}

/// Look up `key` in a `(key, value)` table.
pub fn lookup(table: &[(&'static str, &'static str)], key: &str) -> (r: Option<&'static str>)
    ensures
        r == find_key(table@, key@),
{
    let mut i: usize = 0;
    let n = table.len();
    assert(table@.skip(0) =~= table@);
    while i < n
        invariant
            i <= n == table@.len(),
            find_key(table@, key@) == find_key(table@.skip(i as int), key@),
        decreases n - i,
    {
        let (k, v) = table[i];
        assert(table@.skip(i as int).drop_first() =~= table@.skip(i + 1));
        assert(table@.skip(i as int)[0] == table@[i as int]);
        if str_eq(k, key) {
            return Some(v);
        }
        i = i + 1;
    }
    assert(table@.skip(n as int) =~= Seq::<(&'static str, &'static str)>::empty());
    None
}

/// Look up a suffix candidate, trying an exact (case-sensitive) match first
/// — a few keys such as `Dockerfile` are case-sensitive — then a lowercased
/// match for the common case.
pub fn lookup_suffix(candidate: &str) -> (r: Option<&'static str>)
    ensures
        r == suffix_icon(candidate@),
{
    let table = FILE_SUFFIXES;
    assert(table@ == FILE_SUFFIXES@);
    match lookup(&table, candidate) {
        Some(stem) => return Some(stem),
        None => {},
    }
    let lower = to_lowercase(candidate);
    if !str_eq(lower.as_str(), candidate) {
        return lookup(&table, lower.as_str());
    }
    None
}

/// The trailing dotted-segment candidates of `name`, longest first.
///
/// `app.component.ts` yields `component.ts`, then `ts`. A leading-dot
/// dotfile such as `.gitignore` yields `gitignore`.
pub fn suffix_candidates(name: &str) -> (r: Vec<String>)
    ensures
        texts(r@) == dot_suffixes(name@, 0),
{
    let chars = chars_of(name);
    let n = chars.len();
    let mut out: Vec<String> = Vec::new();
    let mut i: usize = 0;
    while i < n
        invariant
            i <= n == chars@.len(),
            chars@ == name@,
            texts(out@) + dot_suffixes(name@, i as int) == dot_suffixes(name@, 0),
        decreases n - i,
    {
        if chars[i] == '.' {
            let rest = string_from_chars(&chars, i + 1, n);
            assert(rest@ =~= name@.skip(i + 1));
            let ghost before = out@;
            out.push(rest);
            assert(texts(out@) =~= texts(before).push(rest@));
            assert(texts(out@) + dot_suffixes(name@, i + 1) =~= texts(before) + dot_suffixes(name@, i as int));
        }
        i = i + 1;
    }
    assert(texts(out@) + Seq::<Seq<char>>::empty() =~= texts(out@));
    out
}

/// The icon stem for a file named `name` (the file name only, no
/// directory). It always names a bundled icon.
pub fn icon_for_file(name: &str) -> (r: &'static str)
    ensures
        r == spec_icon_for_file(name@),
{
    let stems = FILE_STEMS;
    assert(stems@ == FILE_STEMS@);
    match lookup(&stems, name) {
        Some(stem) => return stem,
        None => {},
    }
    let cands = suffix_candidates(name);
    let mut i: usize = 0;
    assert(texts(cands@).skip(0) =~= texts(cands@));
    while i < cands.len()
        invariant
            i <= cands@.len(),
            texts(cands@) == dot_suffixes(name@, 0),
            find_key(FILE_STEMS@, name@) is None,
            first_suffix_icon(texts(cands@)) == first_suffix_icon(texts(cands@).skip(i as int)),
        decreases cands@.len() - i,
    {
        assert(texts(cands@).skip(i as int).drop_first() =~= texts(cands@).skip(i + 1));
        assert(texts(cands@).skip(i as int)[0] == cands@[i as int]@);
        match lookup_suffix(cands[i].as_str()) {
            Some(stem) => return stem,
            None => {},
        }
        i = i + 1;
    }
    assert(texts(cands@).skip(cands@.len() as int) =~= Seq::<Seq<char>>::empty());
    DEFAULT_FILE
}

/// The icon stem for a folder named `name`; `expanded` selects the open or
/// closed variant. Folder names are matched case-insensitively.
pub fn icon_for_dir(name: &str, expanded: bool) -> (r: &'static str)
    ensures
        r == spec_icon_for_dir(name@, expanded),
{
    let lower = to_lowercase(name);
    let dirs = NAMED_DIRS;
    let n = dirs.len();
    let mut i: usize = 0;
    assert(dirs@.skip(0) =~= dirs@);
    while i < n
        invariant
            i <= n == dirs@.len(),
            dirs@ == NAMED_DIRS@,
            lower@ == unicode_lowercase(name@),
            find_dir(NAMED_DIRS@, lower@) == find_dir(dirs@.skip(i as int), lower@),
        decreases n - i,
    {
        let (folder, collapsed, opened) = dirs[i];
        assert(dirs@.skip(i as int).drop_first() =~= dirs@.skip(i + 1));
        assert(dirs@.skip(i as int)[0] == dirs@[i as int]);
        assert(dirs@[i as int] == (folder, collapsed, opened));
        if str_eq(folder, lower.as_str()) {
            return if expanded {
                opened
            } else {
                collapsed
            };
        }
        i = i + 1;
    }
    assert(dirs@.skip(n as int) =~= Seq::<(&'static str, &'static str, &'static str)>::empty());
    if expanded {
        DEFAULT_DIR_EXPANDED
    } else {
        DEFAULT_DIR_COLLAPSED
    }
}

/// The embedded SVG bytes for an icon `stem`, or `None` if no such icon is
/// bundled.
pub fn icon_bytes(stem: &str) -> (r: Option<&'static [u8]>)
    ensures
        match find_key(ICON_SVGS@, stem@) {
            Some(svg) => r matches Some(b) && b@ == vstd::utf8::encode_utf8(svg@),
            None => r is None,
        },
{
    let svgs = ICON_SVGS;
    assert(svgs@ == ICON_SVGS@);
    match lookup(&svgs, stem) {
        Some(svg) => Some(svg.as_bytes()),
        None => None,
    }
}

/// The cache URI for an icon `stem`: `frext-file-icon://<stem>.svg`.
pub fn stem_uri(stem: &str) -> (r: String)
    ensures
        r@ == "frext-file-icon://"@ + stem@ + seq!['.', 's', 'v', 'g'],
{
    let mut r = "frext-file-icon://".to_owned();
    r.append(stem);
    push_char(&mut r, '.');
    push_char(&mut r, 's');
    push_char(&mut r, 'v');
    push_char(&mut r, 'g');
    r
}



/// Whether an icon stem has bundled artwork.
pub open spec fn bundled(stem: Seq<char>) -> bool {
    exists|i: int| 0 <= i < ICON_SVGS@.len() && (#[trigger] ICON_SVGS@[i]).0@ == stem
}

/// A key present in a table is found there.
proof fn lemma_find_key_present(t: Seq<(&'static str, &'static str)>, key: Seq<char>)
    requires
        exists|i: int| 0 <= i < t.len() && (#[trigger] t[i]).0@ == key,
    ensures
        find_key(t, key) is Some,
    decreases t.len(),
{
    if t[0].0@ != key {
        let i = choose|i: int| 0 <= i < t.len() && (#[trigger] t[i]).0@ == key;
        assert(t.drop_first()[i - 1] == t[i]);
        lemma_find_key_present(t.drop_first(), key);
    }
}

/// What a table lookup finds is one of the table's values.
proof fn lemma_find_key_value(t: Seq<(&'static str, &'static str)>, key: Seq<char>)
    ensures
        find_key(t, key) matches Some(v) ==> exists|k: int| 0 <= k < t.len() && (#[trigger] t[k]).1 == v,
    decreases t.len(),
{
    if t.len() > 0 && t[0].0@ != key {
        lemma_find_key_value(t.drop_first(), key);
        if find_key(t, key) is Some {
            let v = find_key(t, key)->0;
            let k = choose|k: int| 0 <= k < t.drop_first().len() && (#[trigger] t.drop_first()[k]).1 == v;
            assert(t[k + 1] == t.drop_first()[k]);
        }
    }
}

/// What a folder lookup finds is one of the table's icon pairs.
proof fn lemma_find_dir_value(t: Seq<(&'static str, &'static str, &'static str)>, key: Seq<char>)
    ensures
        find_dir(t, key) matches Some((c, o)) ==> exists|k: int| 0 <= k < t.len() && (#[trigger] t[k]).1 == c && t[k].2 == o,
    decreases t.len(),
{
    if t.len() > 0 && t[0].0@ != key {
        lemma_find_dir_value(t.drop_first(), key);
        if find_dir(t, key) is Some {
            let (c, o) = find_dir(t, key)->0;
            let k = choose|k: int| 0 <= k < t.drop_first().len() && (#[trigger] t.drop_first()[k]).1 == c && t.drop_first()[k].2 == o;
            assert(t[k + 1] == t.drop_first()[k]);
        }
    }
}

/// What the suffix rules pick is one of the suffix table's values.
proof fn lemma_first_suffix_icon_value(cands: Seq<Seq<char>>)
    ensures
        first_suffix_icon(cands) matches Some(v) ==> exists|k: int| 0 <= k < FILE_SUFFIXES@.len() && (#[trigger] FILE_SUFFIXES@[k]).1 == v,
    decreases cands.len(),
{
    if cands.len() > 0 {
        lemma_find_key_value(FILE_SUFFIXES@, cands[0]);
        lemma_find_key_value(FILE_SUFFIXES@, unicode_lowercase(cands[0]));
        lemma_first_suffix_icon_value(cands.drop_first());
    }
}

proof fn lemma_stems_bundled()
    ensures
        forall|k: int| 0 <= k < FILE_STEMS@.len() ==> bundled((#[trigger] FILE_STEMS@[k]).1@),
{
    assert(ICON_SVGS@[4].0@ == FILE_STEMS@[0].1@);
    assert(ICON_SVGS@[4].0@ == FILE_STEMS@[1].1@);
    assert(ICON_SVGS@[7].0@ == FILE_STEMS@[2].1@);
    assert(ICON_SVGS@[26].0@ == FILE_STEMS@[3].1@);
    assert(ICON_SVGS@[28].0@ == FILE_STEMS@[4].1@);
    assert(ICON_SVGS@[32].0@ == FILE_STEMS@[5].1@);
    assert(ICON_SVGS@[27].0@ == FILE_STEMS@[6].1@);
    assert forall|k: int| 0 <= k < FILE_STEMS@.len() implies bundled((#[trigger] FILE_STEMS@[k]).1@) by {
        assert(k == 0 || k == 1 || k == 2 || k == 3 || k == 4 || k == 5 || k == 6);
    }
}

proof fn lemma_suffixes_bundled()
    ensures
        forall|k: int| 0 <= k < FILE_SUFFIXES@.len() ==> bundled((#[trigger] FILE_SUFFIXES@[k]).1@),
{
    assert(ICON_SVGS@[7].0@ == FILE_SUFFIXES@[0].1@);
    assert(ICON_SVGS@[34].0@ == FILE_SUFFIXES@[1].1@);
    assert(ICON_SVGS@[3].0@ == FILE_SUFFIXES@[2].1@);
    assert(ICON_SVGS@[5].0@ == FILE_SUFFIXES@[3].1@);
    assert(ICON_SVGS@[6].0@ == FILE_SUFFIXES@[4].1@);
    assert(ICON_SVGS@[20].0@ == FILE_SUFFIXES@[5].1@);
    assert(ICON_SVGS@[21].0@ == FILE_SUFFIXES@[6].1@);
    assert(ICON_SVGS@[3].0@ == FILE_SUFFIXES@[7].1@);
    assert(ICON_SVGS@[22].0@ == FILE_SUFFIXES@[8].1@);
    assert(ICON_SVGS@[23].0@ == FILE_SUFFIXES@[9].1@);
    assert(ICON_SVGS@[24].0@ == FILE_SUFFIXES@[10].1@);
    assert(ICON_SVGS@[25].0@ == FILE_SUFFIXES@[11].1@);
    assert(ICON_SVGS@[27].0@ == FILE_SUFFIXES@[12].1@);
    assert(ICON_SVGS@[29].0@ == FILE_SUFFIXES@[13].1@);
    assert(ICON_SVGS@[30].0@ == FILE_SUFFIXES@[14].1@);
    assert(ICON_SVGS@[23].0@ == FILE_SUFFIXES@[15].1@);
    assert(ICON_SVGS@[31].0@ == FILE_SUFFIXES@[16].1@);
    assert(ICON_SVGS@[33].0@ == FILE_SUFFIXES@[17].1@);
    assert(ICON_SVGS@[34].0@ == FILE_SUFFIXES@[18].1@);
    assert(ICON_SVGS@[35].0@ == FILE_SUFFIXES@[19].1@);
    assert(ICON_SVGS@[37].0@ == FILE_SUFFIXES@[20].1@);
    assert(ICON_SVGS@[38].0@ == FILE_SUFFIXES@[21].1@);
    assert(ICON_SVGS@[36].0@ == FILE_SUFFIXES@[22].1@);
    assert(ICON_SVGS@[39].0@ == FILE_SUFFIXES@[23].1@);
    assert(ICON_SVGS@[39].0@ == FILE_SUFFIXES@[24].1@);
    assert forall|k: int| 0 <= k < FILE_SUFFIXES@.len() implies bundled((#[trigger] FILE_SUFFIXES@[k]).1@) by {
        assert(k == 0 || k == 1 || k == 2 || k == 3 || k == 4 || k == 5 || k == 6 || k == 7 || k == 8 || k == 9 || k == 10 || k == 11 || k == 12 || k == 13 || k == 14 || k == 15 || k == 16 || k == 17 || k == 18 || k == 19 || k == 20 || k == 21 || k == 22 || k == 23 || k == 24);
    }
}

proof fn lemma_dirs_bundled()
    ensures
        forall|k: int| 0 <= k < NAMED_DIRS@.len() ==> bundled((#[trigger] NAMED_DIRS@[k]).1@) && bundled(NAMED_DIRS@[k].2@),
{
    assert(ICON_SVGS@[12].0@ == NAMED_DIRS@[0].1@);
    assert(ICON_SVGS@[13].0@ == NAMED_DIRS@[0].2@);
    assert(ICON_SVGS@[14].0@ == NAMED_DIRS@[1].1@);
    assert(ICON_SVGS@[15].0@ == NAMED_DIRS@[1].2@);
    assert(ICON_SVGS@[8].0@ == NAMED_DIRS@[2].1@);
    assert(ICON_SVGS@[9].0@ == NAMED_DIRS@[2].2@);
    assert(ICON_SVGS@[10].0@ == NAMED_DIRS@[3].1@);
    assert(ICON_SVGS@[11].0@ == NAMED_DIRS@[3].2@);
    assert(ICON_SVGS@[16].0@ == NAMED_DIRS@[4].1@);
    assert(ICON_SVGS@[17].0@ == NAMED_DIRS@[4].2@);
    assert(ICON_SVGS@[18].0@ == NAMED_DIRS@[5].1@);
    assert(ICON_SVGS@[19].0@ == NAMED_DIRS@[5].2@);
    assert forall|k: int| 0 <= k < NAMED_DIRS@.len() implies bundled((#[trigger] NAMED_DIRS@[k]).1@) && bundled(NAMED_DIRS@[k].2@) by {
        assert(k == 0 || k == 1 || k == 2 || k == 3 || k == 4 || k == 5);
    }
}

/// Every file gets an icon that is bundled: whatever its name, the stem
/// [`icon_for_file`] picks has artwork that [`icon_bytes`] finds.
pub proof fn law_every_file_icon_is_bundled(name: Seq<char>)
    ensures
        find_key(ICON_SVGS@, spec_icon_for_file(name)@) is Some,
{
    lemma_find_key_value(FILE_STEMS@, name);
    lemma_first_suffix_icon_value(dot_suffixes(name, 0));
    lemma_stems_bundled();
    lemma_suffixes_bundled();
    assert(ICON_SVGS@[0].0@ == DEFAULT_FILE@);
    assert(bundled(spec_icon_for_file(name)@));
    lemma_find_key_present(ICON_SVGS@, spec_icon_for_file(name)@);
}

/// Every folder gets an icon that is bundled, open or closed.
pub proof fn law_every_folder_icon_is_bundled(name: Seq<char>, expanded: bool)
    ensures
        find_key(ICON_SVGS@, spec_icon_for_dir(name, expanded)@) is Some,
{
    lemma_find_dir_value(NAMED_DIRS@, unicode_lowercase(name));
    lemma_dirs_bundled();
    assert(ICON_SVGS@[1].0@ == DEFAULT_DIR_COLLAPSED@);
    assert(ICON_SVGS@[2].0@ == DEFAULT_DIR_EXPANDED@);
    assert(bundled(spec_icon_for_dir(name, expanded)@));
    lemma_find_key_present(ICON_SVGS@, spec_icon_for_dir(name, expanded)@);
}


/// A folder's open and closed icons differ, so expanding a folder always
/// changes its icon.
pub proof fn law_open_and_closed_folder_icons_differ(name: Seq<char>)
    ensures
        spec_icon_for_dir(name, true) != spec_icon_for_dir(name, false),
{
    reveal_strlit("folder_git");
    reveal_strlit("folder_git_open");
    reveal_strlit("folder_github");
    reveal_strlit("folder_github_open");
    reveal_strlit("folder_assets");
    reveal_strlit("folder_assets_open");
    reveal_strlit("folder_docs");
    reveal_strlit("folder_docs_open");
    reveal_strlit("folder_src");
    reveal_strlit("folder_src_open");
    reveal_strlit("folder_tests");
    reveal_strlit("folder_tests_open");
    reveal_strlit("_folder");
    reveal_strlit("_folder_open");
    assert forall|k: int| 0 <= k < NAMED_DIRS@.len() implies (#[trigger] NAMED_DIRS@[k]).1 != NAMED_DIRS@[k].2 by {
        assert(k == 0 || k == 1 || k == 2 || k == 3 || k == 4 || k == 5);
        assert(NAMED_DIRS@[k].1@.len() != NAMED_DIRS@[k].2@.len());
    }
    lemma_find_dir_value(NAMED_DIRS@, unicode_lowercase(name));
    assert(DEFAULT_DIR_COLLAPSED@.len() != DEFAULT_DIR_EXPANDED@.len());
}


/// The bundled artwork is sorted strictly by stem.
proof fn lemma_bundled_sorted()
    ensures
        forall|i: int| 0 <= i < ICON_SVGS@.len() - 1 ==> lex_lt((#[trigger] ICON_SVGS@[i]).0@, ICON_SVGS@[i + 1].0@),
{
    reveal_strlit("_file");
    reveal_strlit("_folder");
    reveal_strlit("_folder_open");
    reveal_strlit("c");
    reveal_strlit("cargo");
    reveal_strlit("cpp");
    reveal_strlit("css");
    reveal_strlit("docker");
    reveal_strlit("folder_assets");
    reveal_strlit("folder_assets_open");
    reveal_strlit("folder_docs");
    reveal_strlit("folder_docs_open");
    reveal_strlit("folder_git");
    reveal_strlit("folder_git_open");
    reveal_strlit("folder_github");
    reveal_strlit("folder_github_open");
    reveal_strlit("folder_src");
    reveal_strlit("folder_src_open");
    reveal_strlit("folder_tests");
    reveal_strlit("folder_tests_open");
    reveal_strlit("git");
    reveal_strlit("go");
    reveal_strlit("html");
    reveal_strlit("image");
    reveal_strlit("javascript");
    reveal_strlit("json");
    reveal_strlit("license");
    reveal_strlit("lock");
    reveal_strlit("makefile");
    reveal_strlit("markdown");
    reveal_strlit("nix");
    reveal_strlit("python");
    reveal_strlit("readme");
    reveal_strlit("rust");
    reveal_strlit("shell");
    reveal_strlit("svg");
    reveal_strlit("text");
    reveal_strlit("toml");
    reveal_strlit("typescript");
    reveal_strlit("yaml");
    assert(ICON_SVGS@[0].0@.take(2) =~= ICON_SVGS@[1].0@.take(2));
    lemma_lex_at(ICON_SVGS@[0].0@, ICON_SVGS@[1].0@, 2);
    assert(ICON_SVGS@[2].0@.take(7) =~= ICON_SVGS@[1].0@);
    lemma_lex_prefix(ICON_SVGS@[1].0@, ICON_SVGS@[2].0@);
    assert(ICON_SVGS@[2].0@.take(0) =~= ICON_SVGS@[3].0@.take(0));
    lemma_lex_at(ICON_SVGS@[2].0@, ICON_SVGS@[3].0@, 0);
    assert(ICON_SVGS@[4].0@.take(1) =~= ICON_SVGS@[3].0@);
    lemma_lex_prefix(ICON_SVGS@[3].0@, ICON_SVGS@[4].0@);
    assert(ICON_SVGS@[4].0@.take(1) =~= ICON_SVGS@[5].0@.take(1));
    lemma_lex_at(ICON_SVGS@[4].0@, ICON_SVGS@[5].0@, 1);
    assert(ICON_SVGS@[5].0@.take(1) =~= ICON_SVGS@[6].0@.take(1));
    lemma_lex_at(ICON_SVGS@[5].0@, ICON_SVGS@[6].0@, 1);
    assert(ICON_SVGS@[6].0@.take(0) =~= ICON_SVGS@[7].0@.take(0));
    lemma_lex_at(ICON_SVGS@[6].0@, ICON_SVGS@[7].0@, 0);
    assert(ICON_SVGS@[7].0@.take(0) =~= ICON_SVGS@[8].0@.take(0));
    lemma_lex_at(ICON_SVGS@[7].0@, ICON_SVGS@[8].0@, 0);
    assert(ICON_SVGS@[9].0@.take(13) =~= ICON_SVGS@[8].0@);
    lemma_lex_prefix(ICON_SVGS@[8].0@, ICON_SVGS@[9].0@);
    assert(ICON_SVGS@[9].0@.take(7) =~= ICON_SVGS@[10].0@.take(7));
    lemma_lex_at(ICON_SVGS@[9].0@, ICON_SVGS@[10].0@, 7);
    assert(ICON_SVGS@[11].0@.take(11) =~= ICON_SVGS@[10].0@);
    lemma_lex_prefix(ICON_SVGS@[10].0@, ICON_SVGS@[11].0@);
    assert(ICON_SVGS@[11].0@.take(7) =~= ICON_SVGS@[12].0@.take(7));
    lemma_lex_at(ICON_SVGS@[11].0@, ICON_SVGS@[12].0@, 7);
    assert(ICON_SVGS@[13].0@.take(10) =~= ICON_SVGS@[12].0@);
    lemma_lex_prefix(ICON_SVGS@[12].0@, ICON_SVGS@[13].0@);
    assert(ICON_SVGS@[13].0@.take(10) =~= ICON_SVGS@[14].0@.take(10));
    lemma_lex_at(ICON_SVGS@[13].0@, ICON_SVGS@[14].0@, 10);
    assert(ICON_SVGS@[15].0@.take(13) =~= ICON_SVGS@[14].0@);
    lemma_lex_prefix(ICON_SVGS@[14].0@, ICON_SVGS@[15].0@);
    assert(ICON_SVGS@[15].0@.take(7) =~= ICON_SVGS@[16].0@.take(7));
    lemma_lex_at(ICON_SVGS@[15].0@, ICON_SVGS@[16].0@, 7);
    assert(ICON_SVGS@[17].0@.take(10) =~= ICON_SVGS@[16].0@);
    lemma_lex_prefix(ICON_SVGS@[16].0@, ICON_SVGS@[17].0@);
    assert(ICON_SVGS@[17].0@.take(7) =~= ICON_SVGS@[18].0@.take(7));
    lemma_lex_at(ICON_SVGS@[17].0@, ICON_SVGS@[18].0@, 7);
    assert(ICON_SVGS@[19].0@.take(12) =~= ICON_SVGS@[18].0@);
    lemma_lex_prefix(ICON_SVGS@[18].0@, ICON_SVGS@[19].0@);
    assert(ICON_SVGS@[19].0@.take(0) =~= ICON_SVGS@[20].0@.take(0));
    lemma_lex_at(ICON_SVGS@[19].0@, ICON_SVGS@[20].0@, 0);
    assert(ICON_SVGS@[20].0@.take(1) =~= ICON_SVGS@[21].0@.take(1));
    lemma_lex_at(ICON_SVGS@[20].0@, ICON_SVGS@[21].0@, 1);
    assert(ICON_SVGS@[21].0@.take(0) =~= ICON_SVGS@[22].0@.take(0));
    lemma_lex_at(ICON_SVGS@[21].0@, ICON_SVGS@[22].0@, 0);
    assert(ICON_SVGS@[22].0@.take(0) =~= ICON_SVGS@[23].0@.take(0));
    lemma_lex_at(ICON_SVGS@[22].0@, ICON_SVGS@[23].0@, 0);
    assert(ICON_SVGS@[23].0@.take(0) =~= ICON_SVGS@[24].0@.take(0));
    lemma_lex_at(ICON_SVGS@[23].0@, ICON_SVGS@[24].0@, 0);
    assert(ICON_SVGS@[24].0@.take(1) =~= ICON_SVGS@[25].0@.take(1));
    lemma_lex_at(ICON_SVGS@[24].0@, ICON_SVGS@[25].0@, 1);
    assert(ICON_SVGS@[25].0@.take(0) =~= ICON_SVGS@[26].0@.take(0));
    lemma_lex_at(ICON_SVGS@[25].0@, ICON_SVGS@[26].0@, 0);
    assert(ICON_SVGS@[26].0@.take(1) =~= ICON_SVGS@[27].0@.take(1));
    lemma_lex_at(ICON_SVGS@[26].0@, ICON_SVGS@[27].0@, 1);
    assert(ICON_SVGS@[27].0@.take(0) =~= ICON_SVGS@[28].0@.take(0));
    lemma_lex_at(ICON_SVGS@[27].0@, ICON_SVGS@[28].0@, 0);
    assert(ICON_SVGS@[28].0@.take(2) =~= ICON_SVGS@[29].0@.take(2));
    lemma_lex_at(ICON_SVGS@[28].0@, ICON_SVGS@[29].0@, 2);
    assert(ICON_SVGS@[29].0@.take(0) =~= ICON_SVGS@[30].0@.take(0));
    lemma_lex_at(ICON_SVGS@[29].0@, ICON_SVGS@[30].0@, 0);
    assert(ICON_SVGS@[30].0@.take(0) =~= ICON_SVGS@[31].0@.take(0));
    lemma_lex_at(ICON_SVGS@[30].0@, ICON_SVGS@[31].0@, 0);
    assert(ICON_SVGS@[31].0@.take(0) =~= ICON_SVGS@[32].0@.take(0));
    lemma_lex_at(ICON_SVGS@[31].0@, ICON_SVGS@[32].0@, 0);
    assert(ICON_SVGS@[32].0@.take(1) =~= ICON_SVGS@[33].0@.take(1));
    lemma_lex_at(ICON_SVGS@[32].0@, ICON_SVGS@[33].0@, 1);
    assert(ICON_SVGS@[33].0@.take(0) =~= ICON_SVGS@[34].0@.take(0));
    lemma_lex_at(ICON_SVGS@[33].0@, ICON_SVGS@[34].0@, 0);
    assert(ICON_SVGS@[34].0@.take(1) =~= ICON_SVGS@[35].0@.take(1));
    lemma_lex_at(ICON_SVGS@[34].0@, ICON_SVGS@[35].0@, 1);
    assert(ICON_SVGS@[35].0@.take(0) =~= ICON_SVGS@[36].0@.take(0));
    lemma_lex_at(ICON_SVGS@[35].0@, ICON_SVGS@[36].0@, 0);
    assert(ICON_SVGS@[36].0@.take(1) =~= ICON_SVGS@[37].0@.take(1));
    lemma_lex_at(ICON_SVGS@[36].0@, ICON_SVGS@[37].0@, 1);
    assert(ICON_SVGS@[37].0@.take(1) =~= ICON_SVGS@[38].0@.take(1));
    lemma_lex_at(ICON_SVGS@[37].0@, ICON_SVGS@[38].0@, 1);
    assert(ICON_SVGS@[38].0@.take(0) =~= ICON_SVGS@[39].0@.take(0));
    lemma_lex_at(ICON_SVGS@[38].0@, ICON_SVGS@[39].0@, 0);
    assert forall|i: int| 0 <= i < ICON_SVGS@.len() - 1 implies lex_lt((#[trigger] ICON_SVGS@[i]).0@, ICON_SVGS@[i + 1].0@) by {
        assert(i == 0 || i == 1 || i == 2 || i == 3 || i == 4 || i == 5 || i == 6 || i == 7 || i == 8 || i == 9 || i == 10 || i == 11 || i == 12 || i == 13 || i == 14 || i == 15 || i == 16 || i == 17 || i == 18 || i == 19 || i == 20 || i == 21 || i == 22 || i == 23 || i == 24 || i == 25 || i == 26 || i == 27 || i == 28 || i == 29 || i == 30 || i == 31 || i == 32 || i == 33 || i == 34 || i == 35 || i == 36 || i == 37 || i == 38);
    }
}

/// Stems further down the bundled table come later.
proof fn lemma_bundled_ordered(i: int, j: int)
    requires
        0 <= i < j < ICON_SVGS@.len(),
    ensures
        lex_lt(ICON_SVGS@[i].0@, ICON_SVGS@[j].0@),
    decreases j - i,
{
    lemma_bundled_sorted();
    if i + 1 < j {
        lemma_bundled_ordered(i + 1, j);
        lemma_lex_trans(ICON_SVGS@[i].0@, ICON_SVGS@[i + 1].0@, ICON_SVGS@[j].0@);
    } else {
        assert(lex_lt(ICON_SVGS@[i].0@, ICON_SVGS@[i + 1].0@));
    }
}

/// No stem has two entries in the bundled artwork.
pub proof fn law_bundled_stems_are_distinct()
    ensures
        forall|i: int, j: int|
            0 <= i < j < ICON_SVGS@.len() ==> (#[trigger] ICON_SVGS@[i]).0@ != (#[trigger] ICON_SVGS@[j]).0@,
{
    assert forall|i: int, j: int| 0 <= i < j < ICON_SVGS@.len() implies (#[trigger] ICON_SVGS@[i]).0@
        != (#[trigger] ICON_SVGS@[j]).0@ by {
        lemma_bundled_ordered(i, j);
        lemma_lex_total(ICON_SVGS@[i].0@, ICON_SVGS@[i].0@);
    }
}

/// The artwork found for a stem is that of its entry, and none is found for
/// a stem without one: [`icon_bytes`] returns the entry's document exactly
/// when the stem has an entry.
pub proof fn law_icon_bytes_finds_the_entry(stem: Seq<char>)
    ensures
        forall|i: int| 0 <= i < ICON_SVGS@.len() && (#[trigger] ICON_SVGS@[i]).0@ == stem ==> find_key(ICON_SVGS@, stem)
            == Some(ICON_SVGS@[i].1),
        find_key(ICON_SVGS@, stem) is None <==> !bundled(stem),
{
    law_bundled_stems_are_distinct();
    assert forall|i: int| 0 <= i < ICON_SVGS@.len() && (#[trigger] ICON_SVGS@[i]).0@ == stem implies find_key(ICON_SVGS@, stem)
        == Some(ICON_SVGS@[i].1) by {
        lemma_find_key_unique(ICON_SVGS@, stem, i);
    }
    if bundled(stem) {
        lemma_find_key_present(ICON_SVGS@, stem);
    } else {
        lemma_find_key_value_key(ICON_SVGS@, stem);
    }
}

/// In a table whose only entry for `key` is entry `i`, the lookup finds it.
proof fn lemma_find_key_unique(t: Seq<(&'static str, &'static str)>, key: Seq<char>, i: int)
    requires
        0 <= i < t.len(),
        t[i].0@ == key,
        forall|j: int| 0 <= j < t.len() && j != i ==> (#[trigger] t[j]).0@ != key,
    ensures
        find_key(t, key) == Some(t[i].1),
    decreases t.len(),
{
    if i > 0 {
        assert(t[0].0@ != key);
        assert forall|j: int| 0 <= j < t.drop_first().len() && j != i - 1 implies (#[trigger] t.drop_first()[j]).0@ != key by {
            assert(t.drop_first()[j] == t[j + 1]);
        }
        lemma_find_key_unique(t.drop_first(), key, i - 1);
    }
}

/// A lookup that finds something finds it under an entry with that key.
proof fn lemma_find_key_value_key(t: Seq<(&'static str, &'static str)>, key: Seq<char>)
    ensures
        find_key(t, key) is Some ==> exists|k: int| 0 <= k < t.len() && (#[trigger] t[k]).0@ == key,
    decreases t.len(),
{
    if t.len() > 0 && t[0].0@ != key {
        lemma_find_key_value_key(t.drop_first(), key);
        if find_key(t, key) is Some {
            let k = choose|k: int| 0 <= k < t.drop_first().len() && (#[trigger] t.drop_first()[k]).0@ == key;
            assert(t[k + 1] == t.drop_first()[k]);
        }
    }
}

/// Every icon stem the lookups can return is a real name, never empty.
pub proof fn law_icon_stems_are_never_empty(name: Seq<char>, expanded: bool)
    ensures
        spec_icon_for_file(name)@.len() > 0,
        spec_icon_for_dir(name, expanded)@.len() > 0,
{
    law_every_file_icon_is_bundled(name);
    law_every_folder_icon_is_bundled(name, expanded);
    lemma_find_key_value_key(ICON_SVGS@, spec_icon_for_file(name)@);
    lemma_find_key_value_key(ICON_SVGS@, spec_icon_for_dir(name, expanded)@);
    lemma_bundled_named();
}

/// Every bundled stem is non-empty.
proof fn lemma_bundled_named()
    ensures
        forall|i: int| 0 <= i < ICON_SVGS@.len() ==> (#[trigger] ICON_SVGS@[i]).0@.len() > 0,
{
    reveal_strlit("_file");
    reveal_strlit("_folder");
    reveal_strlit("_folder_open");
    reveal_strlit("c");
    reveal_strlit("cargo");
    reveal_strlit("cpp");
    reveal_strlit("css");
    reveal_strlit("docker");
    reveal_strlit("folder_assets");
    reveal_strlit("folder_assets_open");
    reveal_strlit("folder_docs");
    reveal_strlit("folder_docs_open");
    reveal_strlit("folder_git");
    reveal_strlit("folder_git_open");
    reveal_strlit("folder_github");
    reveal_strlit("folder_github_open");
    reveal_strlit("folder_src");
    reveal_strlit("folder_src_open");
    reveal_strlit("folder_tests");
    reveal_strlit("folder_tests_open");
    reveal_strlit("git");
    reveal_strlit("go");
    reveal_strlit("html");
    reveal_strlit("image");
    reveal_strlit("javascript");
    reveal_strlit("json");
    reveal_strlit("license");
    reveal_strlit("lock");
    reveal_strlit("makefile");
    reveal_strlit("markdown");
    reveal_strlit("nix");
    reveal_strlit("python");
    reveal_strlit("readme");
    reveal_strlit("rust");
    reveal_strlit("shell");
    reveal_strlit("svg");
    reveal_strlit("text");
    reveal_strlit("toml");
    reveal_strlit("typescript");
    reveal_strlit("yaml");
    assert forall|i: int| 0 <= i < ICON_SVGS@.len() implies (#[trigger] ICON_SVGS@[i]).0@.len() > 0 by {
        assert(i == 0 || i == 1 || i == 2 || i == 3 || i == 4 || i == 5 || i == 6 || i == 7 || i == 8 || i == 9 || i == 10 || i == 11 || i == 12 || i == 13 || i == 14 || i == 15 || i == 16 || i == 17 || i == 18 || i == 19 || i == 20 || i == 21 || i == 22 || i == 23 || i == 24 || i == 25 || i == 26 || i == 27 || i == 28 || i == 29 || i == 30 || i == 31 || i == 32 || i == 33 || i == 34 || i == 35 || i == 36 || i == 37 || i == 38 || i == 39);
    }
}

/// The folder lookup ignores case: names that lower-case alike get the
/// same icon.
pub proof fn law_folder_icons_ignore_case(a: Seq<char>, b: Seq<char>, expanded: bool)
    requires
        unicode_lowercase(a) == unicode_lowercase(b),
    ensures
        spec_icon_for_dir(a, expanded) == spec_icon_for_dir(b, expanded),
{
}

} // verus!

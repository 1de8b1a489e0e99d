//! Syntax-highlighting support that does not need a GUI: choosing the
//! language token from a file's extension, and the match ranges the editor
//! paints over the buffer.
//!
//! The highlighter matches its bundled syntax definitions by extension token
//! (e.g. `rs`, `py`, `toml`), so for most files the extension *is* the
//! language token. A few common extensions whose token differs from the file
//! suffix are remapped explicitly.

use std::ops::Range;

use vstd::prelude::*;
use crate::path::{file_name, file_name_of, str_eq};
use crate::text::{chars_of, push_char};

verus! {

broadcast use vstd::string::group_string_axioms;

/// The index of the last `.` in `s`, or `-1` when there is none.
pub open spec fn last_dot(s: Seq<char>) -> int
    decreases s.len(),
{
    if s.len() == 0 {
        -1
    } else if s.last() == '.' {
        s.len() - 1
    } else {
        last_dot(s.drop_last())
    }
}

/// The last dot lies within the string.
pub proof fn lemma_last_dot_bound(s: Seq<char>)
    ensures
        -1 <= last_dot(s) < s.len(),
        last_dot(s) >= 0 ==> s[last_dot(s)] == '.',
    decreases s.len(),
{
    if s.len() > 0 && s.last() != '.' {
        lemma_last_dot_bound(s.drop_last());
    }
}

/// The extension of a file name: what follows its last `.`, provided that
/// dot is not the name's first character.
pub open spec fn extension(name: Seq<char>) -> Option<Seq<char>> {
    let k = last_dot(name);
    if k <= 0 {
        None
    } else {
        Some(name.skip(k + 1))
    }
}

/// ASCII upper-case letters lowered; every other character kept.
pub open spec fn ascii_lower_char(c: char) -> char {
    if 'A' <= c && c <= 'Z' {
        ((c as u32) + 32) as char
    } else {
        c
    }
}

/// A string with its ASCII letters lowered.
pub open spec fn ascii_lower(s: Seq<char>) -> Seq<char> {
    s.map_values(|c: char| ascii_lower_char(c))
}

/// The language token for a lowercase extension.
pub open spec fn remap(e: Seq<char>) -> Seq<char> {
    if e == "pyw"@ {
        "py"@
    } else if e == "mjs"@ || e == "cjs"@ {
        "js"@
    } else if e == "markdown"@ {
        "md"@
    } else if e == "yml"@ {
        "yaml"@
    } else if e == "bash"@ || e == "zsh"@ {
        "sh"@
    } else if e == "h"@ {
        "c"@
    } else if e == "cc"@ || e == "cxx"@ || e == "hpp"@ || e == "hh"@ {
        "cpp"@
    } else if e == "htm"@ {
        "html"@
    } else {
        e
    }
}

/// The language token for an optional path: empty (plain text) when there
/// is no path, no file name or no extension.
pub open spec fn spec_language(path: Option<Seq<char>>) -> Seq<char> {
    match path {
        None => Seq::empty(),
        Some(p) => match file_name(p) {
            None => Seq::empty(),
            Some(n) => match extension(n) {
                None => Seq::empty(),
                Some(e) => remap(ascii_lower(e)),
            },
        },
    }
}

/// Lower one ASCII letter.
fn ascii_lower_char_exec(c: char) -> (r: char)
    ensures
        r == ascii_lower_char(c),
{
    if 'A' <= c && c <= 'Z' {
        let u = c as u8;
        let l = (u + 32) as char;
        assert(l == ((c as u32) + 32) as char);
        l
    } else {
        c
    }
}

/// The index of the last `.` in `chars`.
fn find_last_dot(chars: &Vec<char>) -> (r: Option<usize>)
    ensures
        match r {
            Some(k) => last_dot(chars@) == k,
            None => last_dot(chars@) == -1,
        },
{
    let mut k: usize = chars.len();
    assert(chars@.take(k as int) =~= chars@);
    while k > 0
        invariant
            k <= chars@.len(),
            last_dot(chars@) == last_dot(chars@.take(k as int)),
        decreases k,
    {
        let ghost pre = chars@.take(k as int);
        if chars[k - 1] == '.' {
            assert(last_dot(pre) == k - 1);
            return Some(k - 1);
        }
        assert(pre.drop_last() =~= chars@.take(k - 1));
        k = k - 1;
    }
    assert(chars@.take(0) =~= Seq::<char>::empty());
    None
}

/// Map a file path to a syntax-highlighting language token, using its
/// extension.
///
/// Returns an empty string when there is no usable extension; the
/// highlighter treats that as "plain text", which is exactly the desired
/// fallback for untitled or extension-less buffers.
pub fn language_from_path(path: Option<&str>) -> (r: String)
    ensures
        r@ == spec_language(
            match path {
                Some(p) => Some(p@),
                None => None,
            },
        ),
{
    let p = match path {
        Some(p) => p,
        None => return String::new(),
    };
    let name = match file_name_of(p) {
        Some(n) => n,
        None => return String::new(),
    };
    let chars = chars_of(name.as_str());
    let dot = match find_last_dot(&chars) {
        Some(k) => k,
        None => return String::new(),
    };
    if dot == 0 {
        return String::new();
    }
    proof {
        lemma_last_dot_bound(chars@);
    }
    let n = chars.len();
    assert(dot < n);
    let mut lower = String::new();
    let mut i = dot + 1;
    while i < chars.len()
        invariant
            dot + 1 <= i <= chars@.len(),
            lower@ == ascii_lower(chars@.subrange(dot + 1, i as int)),
        decreases chars@.len() - i,
    {
        push_char(&mut lower, ascii_lower_char_exec(chars[i]));
        assert(chars@.subrange(dot + 1, i + 1) =~= chars@.subrange(dot + 1, i as int).push(chars@[i as int]));
        assert(lower@ =~= ascii_lower(chars@.subrange(dot + 1, i + 1)));
        i = i + 1;
    }
    assert(chars@.subrange(dot + 1, chars@.len() as int) =~= chars@.skip(dot + 1));
    let l = lower.as_str();
    if str_eq(l, "pyw") {
        "py".to_owned()
    } else if str_eq(l, "mjs") || str_eq(l, "cjs") {
        "js".to_owned()
    } else if str_eq(l, "markdown") {
        "md".to_owned()
    } else if str_eq(l, "yml") {
        "yaml".to_owned()
    } else if str_eq(l, "bash") || str_eq(l, "zsh") {
        "sh".to_owned()
    } else if str_eq(l, "h") {
        "c".to_owned()
    } else if str_eq(l, "cc") || str_eq(l, "cxx") || str_eq(l, "hpp") || str_eq(l, "hh") {
        "cpp".to_owned()
    } else if str_eq(l, "htm") {
        "html".to_owned()
    } else {
        lower
    }
}

/// The search-match ranges (byte ranges) to paint over the buffer, and the
/// index of the focused one.
pub struct MatchHighlights {
    /// Byte ranges of the matches, in buffer order.
    pub ranges: Vec<Range<usize>>,
    /// Index into `ranges` of the focused match, if any.
    pub current: Option<usize>,
}

impl MatchHighlights {
    /// No highlights at all.
    pub fn none() -> (r: MatchHighlights)
        ensures
            r.ranges@.len() == 0,
            r.current is None,
    {
        MatchHighlights { ranges: Vec::new(), current: None }
    }
}


/// Extension matching ignores ASCII case: two paths whose file names have
/// extensions that are equal up to ASCII case get the same token.
pub proof fn law_extension_case_is_ignored(a: Seq<char>, b: Seq<char>)
    requires
        file_name(a) matches Some(na) && file_name(b) matches Some(nb) && extension(na) matches Some(ea)
            && extension(nb) matches Some(eb) && ascii_lower(ea) == ascii_lower(eb),
    ensures
        spec_language(Some(a)) == spec_language(Some(b)),
{
}

/// Untitled buffers, and files whose name has no `.` after its first
/// character (no extension, or a dotfile), are plain text: the token is
/// empty.
pub proof fn law_no_extension_is_plain_text(path: Option<Seq<char>>)
    requires
        path matches Some(p) ==> (file_name(p) matches Some(n) ==> !n.drop_first().contains('.')),
    ensures
        spec_language(path) == Seq::<char>::empty(),
{
    if let Some(p) = path {
        if let Some(n) = file_name(p) {
            lemma_last_dot_bound(n);
            let k = last_dot(n);
            if k > 0 {
                assert(n.drop_first()[k - 1] == '.');
                assert(n.drop_first().contains('.'));
            }
        }
    }
}


/// No dot follows the last one.
proof fn lemma_after_last_dot(s: Seq<char>)
    ensures
        forall|j: int| last_dot(s) < j < s.len() ==> s[j] != '.',
    decreases s.len(),
{
    lemma_last_dot_bound(s);
    if s.len() > 0 && s.last() != '.' {
        lemma_after_last_dot(s.drop_last());
        assert forall|j: int| last_dot(s) < j < s.len() implies s[j] != '.' by {
            if j < s.len() - 1 {
                assert(s[j] == s.drop_last()[j]);
            }
        }
    }
}

/// The extension is what follows the last dot of a name, when that dot is
/// not its first character: a name has one exactly when it holds a dot
/// after its first character, and then the name is a non-empty stem, a
/// dot and the extension, which holds no dot (`jquery.min.js` has `js`).
pub proof fn law_extension_follows_the_last_dot(name: Seq<char>)
    ensures
        extension(name) is Some <==> exists|i: int| 0 < i < name.len() && name[i] == '.',
        extension(name) matches Some(e) ==> {
            &&& !e.contains('.')
            &&& e.len() + 1 < name.len()
            &&& name == name.take(name.len() - e.len() - 1) + seq!['.'] + e
        },
{
    lemma_last_dot_bound(name);
    lemma_after_last_dot(name);
    let k = last_dot(name);
    if k > 0 {
        let e = name.skip(k + 1);
        assert(name[k] == '.');
        assert(!e.contains('.')) by {
            if e.contains('.') {
                let j = choose|j: int| 0 <= j < e.len() && e[j] == '.';
                assert(name[k + 1 + j] == e[j]);
            }
        }
        assert(name =~= name.take(k) + seq!['.'] + e);
    } else {
        assert forall|i: int| 0 < i < name.len() implies name[i] != '.' by {}
    }
}
} // verus!

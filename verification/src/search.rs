//! Text search over a single buffer: a small query model plus a compiled
//! matcher that drives both match highlighting and find/replace.
//!
//! Every mode (plain substring, regex, whole-word, case-(in)sensitive) is
//! expressed as a single regular expression, so the search and replace paths
//! share one engine. Plain queries are escaped before compilation; whole-word
//! queries are wrapped in `\b(?:…)\b`; case-insensitivity is a builder flag.
//!
//! Match positions are byte ranges into the buffer's UTF-8 encoding.
//! Replacement is capture-aware in regex mode (`$1`, `${name}`) and literal
//! in plain mode.

use std::ops::Range;

use regex::Regex;
use vstd::prelude::*;
use vstd::utf8::{decode_utf8, encode_utf8, is_char_boundary};

use crate::error::SearchError;
use crate::text::{byte_len, byte_len_of, lemma_encode_concat};

verus! {

broadcast use vstd::string::group_string_axioms, vstd::slice::group_slice_axioms;

#[verifier::external_type_specification]
#[verifier::external_body]
pub struct ExRegex(Regex);

/// A user-entered search query and its toggles. The default is an empty,
/// plain, case-insensitive query.
#[derive(Debug, Clone, Default)]
pub struct SearchQuery {
    /// The raw text the user typed.
    pub pattern: String,
    /// Match case exactly when `true`; otherwise case-insensitive.
    pub case_sensitive: bool,
    /// Treat `pattern` as a regular expression when `true`; otherwise as a
    /// literal substring.
    pub regex: bool,
    /// Require word boundaries around each match when `true`.
    pub whole_word: bool,
}

impl SearchQuery {
    /// The empty, plain, case-insensitive query.
    pub fn empty() -> (q: SearchQuery)
        ensures
            q.pattern@ == Seq::<char>::empty(),
            !q.case_sensitive,
            !q.regex,
            !q.whole_word,
    {
        SearchQuery { pattern: String::new(), case_sensitive: false, regex: false, whole_word: false }
    }

    /// A copy of the query.
    pub fn duplicate(&self) -> (q: SearchQuery)
        ensures
            q == *self,
    {
        SearchQuery {
            pattern: self.pattern.clone(),
            case_sensitive: self.case_sensitive,
            regex: self.regex,
            whole_word: self.whole_word,
        }
    }
}

/// The characters that have a meaning in a regular expression and are
/// escaped by the engine's `escape`.
pub open spec fn is_meta(c: char) -> bool {
    c == '\\' || c == '.' || c == '+' || c == '*' || c == '?' || c == '(' || c == ')' || c == '|'
        || c == '[' || c == ']' || c == '{' || c == '}' || c == '^' || c == '$' || c == '#'
        || c == '&' || c == '-' || c == '~'
}

/// `s` with a backslash in front of every meta character.
pub open spec fn spec_escape(s: Seq<char>) -> Seq<char>
    decreases s.len(),
{
    if s.len() == 0 {
        Seq::empty()
    } else {
        let c = s.last();
        spec_escape(s.drop_last()) + if is_meta(c) {
            seq!['\\', c]
        } else {
            seq![c]
        }
    }
}

/// The text put in front of a whole-word query.
pub open spec fn word_open() -> Seq<char> {
    seq!['\\', 'b', '(', '?', ':']
}

/// The text put behind a whole-word query.
pub open spec fn word_close() -> Seq<char> {
    seq![')', '\\', 'b']
}

/// The regular-expression source a query compiles to.
pub open spec fn query_source(pattern: Seq<char>, regex: bool, whole_word: bool) -> Seq<char> {
    let core = if regex {
        pattern
    } else {
        spec_escape(pattern)
    };
    if whole_word {
        word_open() + core + word_close()
    } else {
        core
    }
}

/// Whether building a regex from `source` fails, and with which message
/// (`None` when it builds).
pub uninterp spec fn regex_build_error(source: Seq<char>, case_insensitive: bool) -> Option<Seq<char>>;

/// The byte spans, in order, of the successive non-overlapping matches
/// (empty ones included) of the regex built from `source` in `haystack`.
pub uninterp spec fn regex_find_spans(source: Seq<char>, case_insensitive: bool, haystack: Seq<char>) -> Seq<(usize, usize)>;

/// The byte span of the first match of the regex at or after byte `start`
/// of `haystack`, looking at the surrounding context.
pub uninterp spec fn regex_find_at(source: Seq<char>, case_insensitive: bool, haystack: Seq<char>, start: usize) -> Option<(usize, usize)>;

/// `haystack` with every match replaced by `replacement`; capture
/// references are expanded when `expand` holds and taken literally
/// otherwise.
pub uninterp spec fn regex_replace_all(source: Seq<char>, case_insensitive: bool, haystack: Seq<char>, replacement: Seq<char>, expand: bool) -> Seq<char>;

/// The capture-expanded `replacement` for the first match in `haystack`,
/// or `None` when there is no match.
pub uninterp spec fn regex_capture_expansion(source: Seq<char>, case_insensitive: bool, haystack: Seq<char>, replacement: Seq<char>) -> Option<Seq<char>>;

/// Byte ranges as pairs of offsets.
pub open spec fn pairs(v: Seq<Range<usize>>) -> Seq<(usize, usize)> {
    v.map_values(|r: Range<usize>| (r.start, r.end))
}

/// The non-empty spans of `s`, in order.
pub open spec fn nonempty_spans(s: Seq<(usize, usize)>) -> Seq<(usize, usize)>
    decreases s.len(),
{
    if s.len() == 0 {
        Seq::empty()
    } else {
        let rest = nonempty_spans(s.drop_last());
        if s.last().0 != s.last().1 {
            rest.push(s.last())
        } else {
            rest
        }
    }
}

/// The spans of `s` lying entirely within `[lo, hi)`, in order.
pub open spec fn spans_within(s: Seq<(usize, usize)>, lo: usize, hi: usize) -> Seq<(usize, usize)>
    decreases s.len(),
{
    if s.len() == 0 {
        Seq::empty()
    } else {
        let rest = spans_within(s.drop_last(), lo, hi);
        if s.last().0 >= lo && s.last().1 <= hi {
            rest.push(s.last())
        } else {
            rest
        }
    }
}

/// What replacing the match that starts at byte `at` gives: the bytes of
/// the new text and the byte range the replacement occupies, or `None` when
/// no match starts there (or, with captures, none is found in the rest).
pub open spec fn one_replacement(source: Seq<char>, case_insensitive: bool, literal: bool, text: Seq<char>, at: usize, replacement: Seq<char>) -> Option<(Seq<u8>, usize, usize)> {
    let bytes = encode_utf8(text);
    match regex_find_at(source, case_insensitive, text, at) {
        Some(m) if m.0 == at => {
            let expansion = if literal {
                Some(replacement)
            } else {
                regex_capture_expansion(source, case_insensitive, decode_utf8(bytes.skip(at as int)), replacement)
            };
            match expansion {
                Some(e) => Some((bytes.take(at as int) + encode_utf8(e) + bytes.skip(m.1 as int), at, (at + byte_len(e)) as usize)),
                None => None,
            }
        },
        _ => None,
    }
}

/// Escapes the meta characters of a plain query.
///
/// Calls `regex::escape`, whose source prefixes each of the characters
/// `\ . + * ? ( ) | [ ] { } ^ $ # & - ~` with a backslash and copies every
/// other character; the contract states exactly that.
#[verifier::external_body]
fn escape_pattern(pattern: &str) -> (r: String)
    ensures
        r@ == spec_escape(pattern@),
{
    regex::escape(pattern)
}

/// Builds the matcher for `source`.
///
/// Calls `regex::RegexBuilder::new(source).case_insensitive(ci).build()`,
/// turning a build error into its message, and on success wraps the regex
/// with the source and case flag it was built from (and whether
/// replacements are literal). The contract names the outcome: `Ok` exactly
/// when `regex_build_error` is `None`, otherwise the message it names. Which
/// sources build is left to that name.
#[verifier::external_body]
fn build_regex(source: &str, case_insensitive: bool, literal: bool) -> (r: Result<Matcher, String>)
    ensures
        match r {
            Ok(m) => regex_build_error(source@, case_insensitive) is None && m.source() == source@
                && m.case_insensitive() == case_insensitive && m.literal() == literal,
            Err(msg) => regex_build_error(source@, case_insensitive) == Some(msg@),
        },
{
    let mut builder = regex::RegexBuilder::new(source);
    builder.case_insensitive(case_insensitive);
    match builder.build() {
        Ok(regex) => Ok(Matcher {
            regex,
            literal_replacement: literal,
            source: Ghost(source@),
            case_insensitive: Ghost(case_insensitive),
        }),
        Err(err) => Err(err.to_string()),
    }
}

impl SearchQuery {
    /// Compile this query into a [`Matcher`].
    ///
    /// Returns [`SearchError::InvalidRegex`] exactly when the source the
    /// query stands for does not build.
    pub fn compile(&self) -> (r: Result<Matcher, SearchError>)
        ensures
            ({
                let src = query_source(self.pattern@, self.regex, self.whole_word);
                match r {
                    Ok(m) => {
                        &&& regex_build_error(src, !self.case_sensitive) is None
                        &&& m.source() == src
                        &&& m.case_insensitive() == !self.case_sensitive
                        &&& m.literal() == !self.regex
                    },
                    Err(SearchError::InvalidRegex(msg)) => regex_build_error(src, !self.case_sensitive)
                        == Some(msg@),
                }
            }),
    {
        let core = if self.regex {
            self.pattern.clone()
        } else {
            escape_pattern(self.pattern.as_str())
        };
        let bounded = if self.whole_word {
            let mut b = String::new();
            crate::text::push_char(&mut b, '\\');
            crate::text::push_char(&mut b, 'b');
            crate::text::push_char(&mut b, '(');
            crate::text::push_char(&mut b, '?');
            crate::text::push_char(&mut b, ':');
            b.append(core.as_str());
            crate::text::push_char(&mut b, ')');
            crate::text::push_char(&mut b, '\\');
            crate::text::push_char(&mut b, 'b');
            assert(b@ =~= word_open() + core@ + word_close());
            b
        } else {
            core
        };
        match build_regex(bounded.as_str(), !self.case_sensitive, !self.regex) {
            Ok(m) => Ok(m),
            Err(msg) => Err(SearchError::InvalidRegex(msg)),
        }
    }

    /// Whether the query is empty (nothing to search for).
    pub fn is_empty(&self) -> (b: bool)
        ensures
            b == (self.pattern@.len() == 0),
    {
        self.pattern.as_str().is_empty()
    }
}

/// A compiled search query ready to run against buffer text.
///
/// One is made only where its regex is built, together with the source
/// and case flag it records, so the regex always is the one built from
/// `source()` with `case_insensitive()`.
pub struct Matcher {
    regex: Regex,
    /// In plain (non-regex) mode the replacement string is treated literally
    /// (a `$` is just a `$`); in regex mode `$1` / `${name}` expand captures.
    literal_replacement: bool,
    source: Ghost<Seq<char>>,
    case_insensitive: Ghost<bool>,
}

impl Matcher {
    /// The regular-expression source this matcher was built from.
    pub closed spec fn source(&self) -> Seq<char> {
        self.source@
    }

    /// Whether the matcher ignores case.
    pub closed spec fn case_insensitive(&self) -> bool {
        self.case_insensitive@
    }

    /// Whether replacements are taken literally.
    pub closed spec fn literal(&self) -> bool {
        self.literal_replacement
    }

    /// All match spans, empty ones included.
    ///
    /// Calls `Regex::find_iter` and collects each match's byte range. The
    /// contract names the result; the facts stated beside the name (each
    /// span ordered, within the haystack's bytes, and not overlapping the
    /// next) are what the crate documents of the iterator: successive
    /// non-overlapping matches whose ranges are byte offsets, each falling on
    /// character boundaries (a match of a `&str` regex is a sub-slice of the
    /// haystack).
    #[verifier::external_body]
    fn find_spans(&self, text: &str) -> (r: Vec<Range<usize>>)
        ensures
            pairs(r@) == regex_find_spans(self.source(), self.case_insensitive(), text@),
            forall|i: int|
                0 <= i < r@.len() ==> #[trigger] r@[i].start <= r@[i].end <= byte_len(text@),
            forall|i: int|
                #![trigger r@[i]]
                0 <= i < r@.len() ==> is_char_boundary(encode_utf8(text@), r@[i].start as int)
                    && is_char_boundary(encode_utf8(text@), r@[i].end as int),
            forall|i: int| 0 <= i < r@.len() - 1 ==> #[trigger] r@[i].end <= r@[i + 1].start,
    {
        self.regex.find_iter(text).map(|m| m.range()).collect()
    }

    /// The first match at or after byte `at`.
    ///
    /// Calls `Regex::find_at`, which panics when `at` is past the end of the
    /// haystack; `requires` leaves that out. The result is named; beside the
    /// name the contract states that a match starts no earlier than `at`,
    /// ends within the haystack, and that both ends fall on character
    /// boundaries (the crate's `&str` API hands out matches as sub-slices of
    /// the haystack).
    #[verifier::external_body]
    fn first_match_at(&self, text: &str, at: usize) -> (r: Option<(usize, usize)>)
        requires
            at <= byte_len(text@),
        ensures
            r == regex_find_at(self.source(), self.case_insensitive(), text@, at),
            r matches Some(m) ==> at <= m.0 <= m.1 <= byte_len(text@) && is_char_boundary(
                encode_utf8(text@),
                m.0 as int,
            ) && is_char_boundary(encode_utf8(text@), m.1 as int),
    {
        self.regex.find_at(text, at).map(|m| (m.start(), m.end()))
    }

    /// `text` with every match replaced, capture references in
    /// `replacement` expanded.
    ///
    /// Calls `Regex::replace_all` with the replacement as a `&str`, which the
    /// crate expands. The result is named.
    #[verifier::external_body]
    fn replace_every(&self, text: &str, replacement: &str) -> (r: String)
        ensures
            r@ == regex_replace_all(self.source(), self.case_insensitive(), text@, replacement@, true),
    {
        self.regex.replace_all(text, replacement).into_owned()
    }

    /// `text` with every match replaced by `replacement` taken literally.
    ///
    /// Calls `Regex::replace_all` with the replacement wrapped in
    /// `regex::NoExpand`, which the crate inserts as it is. The result is
    /// named.
    #[verifier::external_body]
    fn replace_every_literal(&self, text: &str, replacement: &str) -> (r: String)
        ensures
            r@ == regex_replace_all(self.source(), self.case_insensitive(), text@, replacement@, false),
    {
        self.regex.replace_all(text, regex::NoExpand(replacement)).into_owned()
    }

    /// The capture-expanded replacement for the first match in `haystack`.
    ///
    /// Calls `Regex::captures` and, on a match, `Captures::expand` into an
    /// empty string. The result is named.
    #[verifier::external_body]
    fn expand_first(&self, haystack: &str, replacement: &str) -> (r: Option<String>)
        ensures
            match r {
                Some(s) => regex_capture_expansion(self.source(), self.case_insensitive(), haystack@, replacement@) == Some(s@),
                None => regex_capture_expansion(self.source(), self.case_insensitive(), haystack@, replacement@) is None,
            },
    {
        let caps = self.regex.captures(haystack)?;
        let mut buf = String::new();
        caps.expand(replacement, &mut buf);
        Some(buf)
    }

    /// All non-overlapping, non-empty match byte ranges within `text`, in
    /// order.
    ///
    /// Zero-width matches (e.g. an anchor-only regex) are skipped so callers
    /// never see empty highlights.
    pub fn find_matches(&self, text: &str) -> (r: Vec<Range<usize>>)
        ensures
            pairs(r@) == nonempty_spans(regex_find_spans(self.source(), self.case_insensitive(), text@)),
            forall|i: int| 0 <= i < r@.len() ==> #[trigger] r@[i].start < r@[i].end <= byte_len(text@),
            forall|i: int, j: int| 0 <= i < j < r@.len() ==> r@[i].end <= r@[j].start,
            forall|i: int|
                #![trigger r@[i]]
                0 <= i < r@.len() ==> is_char_boundary(encode_utf8(text@), r@[i].start as int)
                    && is_char_boundary(encode_utf8(text@), r@[i].end as int),
    {
        let all = self.find_spans(text);
        nonempty_matches(&all, text)
    }

    /// Match byte ranges that fall entirely within `scope` (a byte range of
    /// `text`), for search-within-selection.
    pub fn find_matches_in(&self, text: &str, scope: Range<usize>) -> (r: Vec<Range<usize>>)
        ensures
            pairs(r@) == spans_within(
                nonempty_spans(regex_find_spans(self.source(), self.case_insensitive(), text@)),
                scope.start,
                scope.end,
            ),
    {
        let all = self.find_matches(text);
        let ghost spans = pairs(all@);
        let mut out: Vec<Range<usize>> = Vec::new();
        let mut i: usize = 0;
        while i < all.len()
            invariant
                i <= all@.len(),
                spans == pairs(all@),
                pairs(out@) == spans_within(spans.take(i as int), scope.start, scope.end),
            decreases all@.len() - i,
        {
            let s = all[i].start;
            let e = all[i].end;
            proof {
                assert(spans.take(i + 1).drop_last() =~= spans.take(i as int));
                assert(spans.take(i + 1).last() == (s, e));
            }
            if s >= scope.start && e <= scope.end {
                out.push(Range { start: s, end: e });
                assert(pairs(out@) =~= spans_within(spans.take(i as int), scope.start, scope.end).push(
                    (s, e),
                ));
            }
            i = i + 1;
        }
        assert(spans.take(all@.len() as int) =~= spans);
        out
    }

    /// Replace every match in `text` with `replacement`, returning the new
    /// string. Capture references in `replacement` expand in regex mode and
    /// are literal in plain mode.
    pub fn replace_all(&self, text: &str, replacement: &str) -> (r: String)
        ensures
            r@ == regex_replace_all(self.source(), self.case_insensitive(), text@, replacement@, !self.literal()),
    {
        if self.literal_replacement {
            self.replace_every_literal(text, replacement)
        } else {
            self.replace_every(text, replacement)
        }
    }

    /// Replace the single match starting at byte offset `at` with
    /// `replacement`, returning the new string and the byte range the
    /// replacement now occupies. Returns `None` when no match starts at
    /// `at`.
    pub fn replace_one_at(&self, text: &str, at: usize, replacement: &str) -> (r: Option<(String, Range<usize>)>)
        requires
            at <= byte_len(text@),
        ensures
            match one_replacement(self.source(), self.case_insensitive(), self.literal(), text@, at, replacement@) {
                Some((bytes, start, end)) => r matches Some((out, range)) && encode_utf8(out@) == bytes
                    && range.start == start && range.end == end,
                None => r is None,
            },
    {
        let m = self.first_match_at(text, at);
        let (start, end) = match m {
            Some(m) => m,
            None => return None,
        };
        if start != at {
            return None;
        }
        let (_, rest) = text.split_at(start);
        proof {
            vstd::utf8::encode_utf8_decode_utf8(rest@);
        }
        let expanded = if self.literal_replacement {
            replacement.to_owned()
        } else {
            match self.expand_first(rest, replacement) {
                Some(e) => e,
                None => return None,
            }
        };
        Some(splice(text, start, end, expanded.as_str()))
    }
}

/// Whether `spans` are match spans of `text`: each within the text and on
/// character boundaries, in order, each ending before the next begins.
pub open spec fn match_spans_of(spans: Seq<Range<usize>>, text: Seq<char>) -> bool {
    &&& forall|i: int| 0 <= i < spans.len() ==> #[trigger] spans[i].start <= spans[i].end <= byte_len(text)
    &&& forall|i: int| 0 <= i < spans.len() - 1 ==> #[trigger] spans[i].end <= spans[i + 1].start
    &&& forall|i: int|
        #![trigger spans[i]]
        0 <= i < spans.len() ==> is_char_boundary(encode_utf8(text), spans[i].start as int)
            && is_char_boundary(encode_utf8(text), spans[i].end as int)
}

/// The non-empty spans among the match spans `all` of `text`, in order:
/// zero-width matches (e.g. of an anchor-only regex) are skipped so callers
/// never see empty highlights.
pub fn nonempty_matches(all: &Vec<Range<usize>>, text: &str) -> (r: Vec<Range<usize>>)
    requires
        match_spans_of(all@, text@),
    ensures
        pairs(r@) == nonempty_spans(pairs(all@)),
        forall|i: int| 0 <= i < r@.len() ==> #[trigger] r@[i].start < r@[i].end <= byte_len(text@),
        forall|i: int, j: int| 0 <= i < j < r@.len() ==> r@[i].end <= r@[j].start,
        forall|i: int|
            #![trigger r@[i]]
            0 <= i < r@.len() ==> is_char_boundary(encode_utf8(text@), r@[i].start as int)
                && is_char_boundary(encode_utf8(text@), r@[i].end as int),
{
    let ghost spans = pairs(all@);
    let mut out: Vec<Range<usize>> = Vec::new();
    let mut i: usize = 0;
    let ghost mut last_end: usize = 0;
    while i < all.len()
        invariant
            i <= all@.len(),
            spans == pairs(all@),
            pairs(out@) == nonempty_spans(spans.take(i as int)),
            forall|k: int| 0 <= k < all@.len() ==> #[trigger] all@[k].start <= all@[k].end <= byte_len(text@),
            forall|k: int| 0 <= k < all@.len() - 1 ==> #[trigger] all@[k].end <= all@[k + 1].start,
            forall|k: int| 0 <= k < out@.len() ==> #[trigger] out@[k].start < out@[k].end <= byte_len(text@),
            forall|k: int|
                #![trigger all@[k]]
                0 <= k < all@.len() ==> is_char_boundary(encode_utf8(text@), all@[k].start as int)
                    && is_char_boundary(encode_utf8(text@), all@[k].end as int),
            forall|k: int|
                #![trigger out@[k]]
                0 <= k < out@.len() ==> is_char_boundary(encode_utf8(text@), out@[k].start as int)
                    && is_char_boundary(encode_utf8(text@), out@[k].end as int),
            forall|k: int| 0 <= k < out@.len() ==> #[trigger] out@[k].end <= last_end,
            forall|a: int, b: int| 0 <= a < b < out@.len() ==> out@[a].end <= out@[b].start,
            i < all@.len() ==> last_end <= all@[i as int].start,
        decreases all@.len() - i,
    {
        let s = all[i].start;
        let e = all[i].end;
        proof {
            assert(spans.take(i + 1).drop_last() =~= spans.take(i as int));
            assert(spans.take(i + 1).last() == (s, e));
        }
        assert(all@[i as int].start <= all@[i as int].end <= byte_len(text@));
        if s != e {
            let ghost before = out@;
            out.push(Range { start: s, end: e });
            assert forall|k: int| 0 <= k < out@.len() implies #[trigger] out@[k].start < out@[k].end
                <= byte_len(text@) && is_char_boundary(encode_utf8(text@), out@[k].start as int)
                && is_char_boundary(encode_utf8(text@), out@[k].end as int) by {
                if k < before.len() {
                    assert(out@[k] == before[k]);
                }
            }
            assert forall|a: int, b: int| 0 <= a < b < out@.len() implies out@[a].end <= out@[b].start by {
                assert(out@[a] == before[a]);
                if b < before.len() {
                    assert(out@[b] == before[b]);
                } else {
                    assert(before[a].end <= last_end);
                }
            }
            assert(pairs(out@) =~= nonempty_spans(spans.take(i as int)).push((s, e)));
            proof {
                last_end = e;
            }
            assert forall|k: int| 0 <= k < out@.len() implies #[trigger] out@[k].end <= last_end by {
                if k < before.len() {
                    assert(out@[k] == before[k]);
                }
            }
        } else {
            proof {
                last_end = e;
            }
        }
        if i + 1 < all.len() {
            assert(all@[i as int].end <= all@[i + 1].start);
        }
        i = i + 1;
    }
    assert(spans.take(all@.len() as int) =~= spans);
    out
}

/// `text` with its bytes `[start, end)` replaced by `insert`, and the byte
/// range `insert` then occupies. Both ends must fall on character
/// boundaries.
pub fn splice(text: &str, start: usize, end: usize, insert: &str) -> (r: (String, Range<usize>))
    requires
        start <= end <= byte_len(text@),
        is_char_boundary(encode_utf8(text@), start as int),
        is_char_boundary(encode_utf8(text@), end as int),
    ensures
        encode_utf8(r.0@) == encode_utf8(text@).take(start as int) + encode_utf8(insert@) + encode_utf8(text@).skip(end as int),
        r.1.start == start,
        r.1.end == start + byte_len(insert@),
{
    let (prefix, _) = text.split_at(start);
    let (_, tail) = text.split_at(end);
    let mut out = prefix.to_owned();
    out.append(insert);
    let new_end = byte_len_of(out.as_str());
    out.append(tail);
    proof {
        lemma_encode_concat(prefix@, insert@);
        lemma_encode_concat(prefix@ + insert@, tail@);
        assert(out@ == prefix@ + insert@ + tail@);
    }
    (out, Range { start, end: new_end })
}


/// Searching within a selection keeps exactly the matches that lie inside
/// it: every kept span is one of the matches and lies within `[lo, hi]`,
/// and every match inside the scope is kept.
pub proof fn law_scoped_matches_are_those_inside(m: Seq<(usize, usize)>, lo: usize, hi: usize)
    ensures
        ({
            let r = spans_within(m, lo, hi);
            &&& r.len() <= m.len()
            &&& forall|k: int| 0 <= k < r.len() ==> lo <= (#[trigger] r[k]).0 && r[k].1 <= hi && m.contains(r[k])
            &&& forall|k: int| 0 <= k < m.len() && lo <= (#[trigger] m[k]).0 && m[k].1 <= hi ==> r.contains(m[k])
        }),
    decreases m.len(),
{
    if m.len() > 0 {
        let init = m.drop_last();
        law_scoped_matches_are_those_inside(init, lo, hi);
        let rest = spans_within(init, lo, hi);
        let r = spans_within(m, lo, hi);
        assert forall|k: int| 0 <= k < r.len() implies lo <= (#[trigger] r[k]).0 && r[k].1 <= hi && m.contains(r[k]) by {
            if k < rest.len() {
                assert(r[k] == rest[k]);
                let j = choose|j: int| 0 <= j < init.len() && init[j] == rest[k];
                assert(m[j] == init[j]);
            } else {
                assert(r[k] == m.last());
                assert(m[m.len() - 1] == m.last());
            }
        }
        assert forall|k: int| 0 <= k < m.len() && lo <= (#[trigger] m[k]).0 && m[k].1 <= hi implies r.contains(m[k]) by {
            if k < init.len() {
                assert(init[k] == m[k]);
                assert(rest.contains(init[k]));
                let j = choose|j: int| 0 <= j < rest.len() && rest[j] == init[k];
                assert(r[j] == rest[j]);
            } else {
                assert(m[k] == m.last());
                assert(r[r.len() - 1] == m.last());
            }
        }
    }
}

} // verus!

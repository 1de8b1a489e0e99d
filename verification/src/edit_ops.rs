//! Pure text-buffer edits backing the editor's cut/paste menu actions.
//!
//! Editor cursors are measured in characters, so these operate on a
//! character range `[start, end)` over `text` and return the new caret
//! position (also a character index). A reversed range is normalised and
//! both ends are clamped to the buffer's character length.

use vstd::prelude::*;
use crate::text::{byte_at, byte_at_of, byte_len_of, chars_of, string_from_chars};

verus! {

broadcast use vstd::string::group_string_axioms;

/// The smaller end of the selection `[start, end)`, clamped to `len`.
pub open spec fn sel_lo(len: int, start: int, end: int) -> int {
    let m = if start <= end { start } else { end };
    if m <= len { m } else { len }
}

/// The larger end of the selection `[start, end)`, clamped to `len`.
pub open spec fn sel_hi(len: int, start: int, end: int) -> int {
    let m = if start <= end { end } else { start };
    if m <= len { m } else { len }
}

/// The characters covered by the selection `[start, end)` of `t`.
pub open spec fn spec_selected(t: Seq<char>, start: int, end: int) -> Seq<char> {
    t.subrange(sel_lo(t.len() as int, start, end), sel_hi(t.len() as int, start, end))
}

/// `t` with the selection `[start, end)` replaced by `ins`.
pub open spec fn spec_replaced(t: Seq<char>, start: int, end: int, ins: Seq<char>) -> Seq<char> {
    t.take(sel_lo(t.len() as int, start, end)) + ins + t.skip(sel_hi(t.len() as int, start, end))
}

/// The byte offset of character index `char_idx` within `text`, clamped to
/// the end of the string.
pub fn byte_offset(text: &str, char_idx: usize) -> (b: usize)
    ensures
        b == byte_at(text@, if char_idx <= text@.len() { char_idx as int } else { text@.len() as int }),
{
    let chars = chars_of(text);
    let total = byte_len_of(text);
    let n = if char_idx <= chars.len() { char_idx } else { chars.len() };
    byte_at_of(&chars, n, total)
}

/// Normalise a possibly-reversed selection to `(lo, hi)` character indices,
/// clamped to the buffer's character length.
pub fn normalize(text: &str, start: usize, end: usize) -> (r: (usize, usize))
    ensures
        r.0 == sel_lo(text@.len() as int, start as int, end as int),
        r.1 == sel_hi(text@.len() as int, start as int, end as int),
        r.0 <= r.1 <= text@.len(),
{
    let len = chars_of(text).len();
    let lo0 = if start <= end { start } else { end };
    let hi0 = if start <= end { end } else { start };
    let lo = if lo0 <= len { lo0 } else { len };
    let hi = if hi0 <= len { hi0 } else { len };
    (lo, hi)
}

/// The substring covered by the character range `[start, end)`.
pub fn selected_text(text: &str, start: usize, end: usize) -> (r: String)
    ensures
        r@ == spec_selected(text@, start as int, end as int),
{
    let (lo, hi) = normalize(text, start, end);
    let chars = chars_of(text);
    string_from_chars(&chars, lo, hi)
}

/// Delete the character range `[start, end)` from `text` in place. Returns
/// the new caret character index (the start of what was the selection).
///
/// An empty selection (`start == end`) leaves the text as it was and returns
/// that position (clamped to the text).
pub fn delete_range(text: &mut String, start: usize, end: usize) -> (caret: usize)
    ensures
        final(text)@ == spec_replaced(old(text)@, start as int, end as int, Seq::empty()),
        caret == sel_lo(old(text)@.len() as int, start as int, end as int),
{
    let (lo, hi) = normalize(text.as_str(), start, end);
    if lo == hi {
        assert(old(text)@.take(lo as int) + Seq::<char>::empty() + old(text)@.skip(lo as int)
            =~= old(text)@);
        return lo;
    }
    let chars = chars_of(text.as_str());
    let mut out = string_from_chars(&chars, 0, lo);
    let tail = string_from_chars(&chars, hi, chars.len());
    out.append(tail.as_str());
    assert(out@ =~= spec_replaced(old(text)@, start as int, end as int, Seq::empty()));
    *text = out;
    lo
}

/// Replace the character range `[start, end)` of `text` with `insert`.
/// Returns the new caret character index (just past the inserted text).
///
/// With an empty selection this inserts `insert` at the caret.
pub fn replace_range(text: &mut String, start: usize, end: usize, insert: &str) -> (caret: usize)
    ensures
        final(text)@ == spec_replaced(old(text)@, start as int, end as int, insert@),
        caret == sel_lo(old(text)@.len() as int, start as int, end as int) + insert@.len(),
{
    let (lo, hi) = normalize(text.as_str(), start, end);
    let chars = chars_of(text.as_str());
    let mut out = string_from_chars(&chars, 0, lo);
    out.append(insert);
    let tail = string_from_chars(&chars, hi, chars.len());
    out.append(tail.as_str());
    assert(out@ =~= spec_replaced(old(text)@, start as int, end as int, insert@));
    let ins_len = chars_of(insert).len();
    *text = out;
    let new_len = chars_of(text.as_str()).len();
    assert(new_len == lo + ins_len + (old(text)@.len() - hi));
    lo + ins_len
}

/// A reversed selection covers the same characters.
pub proof fn law_selection_is_symmetric(t: Seq<char>, start: int, end: int)
    ensures
        spec_selected(t, start, end) == spec_selected(t, end, start),
{
}

/// After replacing a selection, the characters between the returned caret's
/// start and the caret are exactly the inserted text.
pub proof fn law_replace_then_select(t: Seq<char>, start: int, end: int, ins: Seq<char>)
    requires
        0 <= start,
        0 <= end,
    ensures
        ({
            let lo = sel_lo(t.len() as int, start, end);
            spec_selected(spec_replaced(t, start, end, ins), lo, lo + ins.len()) == ins
        }),
{
    let lo = sel_lo(t.len() as int, start, end);
    let r = spec_replaced(t, start, end, ins);
    assert(r.subrange(lo, lo + ins.len()) =~= ins);
}

/// Replacing a selection with the text it already holds changes nothing.
pub proof fn law_replace_with_selection_is_identity(t: Seq<char>, start: int, end: int)
    requires
        0 <= start,
        0 <= end,
    ensures
        spec_replaced(t, start, end, spec_selected(t, start, end)) == t,
{
    let lo = sel_lo(t.len() as int, start, end);
    let hi = sel_hi(t.len() as int, start, end);
    assert(t.take(lo) + t.subrange(lo, hi) + t.skip(hi) =~= t);
}

/// Cut followed by paste at the caret restores the buffer: deleting
/// a selection and then inserting the deleted characters at the returned
/// caret gives back the text as it was.
pub proof fn law_cut_then_paste_restores(t: Seq<char>, start: int, end: int)
    requires
        0 <= start,
        0 <= end,
    ensures
        ({
            let lo = sel_lo(t.len() as int, start, end);
            spec_replaced(spec_replaced(t, start, end, Seq::empty()), lo, lo, spec_selected(t, start, end)) == t
        }),
{
    let lo = sel_lo(t.len() as int, start, end);
    let hi = sel_hi(t.len() as int, start, end);
    let d = spec_replaced(t, start, end, Seq::empty());
    assert(d =~= t.take(lo) + t.skip(hi));
    assert(sel_lo(d.len() as int, lo, lo) == lo);
    assert(d.take(lo) + t.subrange(lo, hi) + d.skip(lo) =~= t);
}

/// An edit changes the length by the inserted length minus the selected
/// length.
pub proof fn law_replace_length(t: Seq<char>, start: int, end: int, ins: Seq<char>)
    requires
        0 <= start,
        0 <= end,
    ensures
        spec_replaced(t, start, end, ins).len() == t.len() - spec_selected(t, start, end).len() + ins.len(),
{
}

} // verus!

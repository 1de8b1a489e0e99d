//! Font fallback ordering.
//!
//! The editor installs its bundled monospace face first in each font family
//! and slots a discovered system emoji face directly after it, so emoji
//! codepoints (which the bundled face declines) resolve to the system face
//! while the bundled face keeps winning every glyph it carries. The ordering
//! rule lives here; loading the fonts is the application's job.

use vstd::prelude::*;
use crate::path::str_eq;
use crate::workspace::texts;

verus! {

/// The family name the bundled regular face is registered under.
pub const CASKAYDIA: &'static str = "CaskaydiaCove Nerd Font";

/// The font-data key a discovered system emoji face is registered under.
pub const SYSTEM_EMOJI: &'static str = "frext-system-emoji";

/// A probe emoji (grinning face) whose glyph is checked for a drawable
/// outline when validating a candidate emoji font.
pub const PROBE_EMOJI: char = '\u{1F600}';

#[verifier::external_type_specification]
#[verifier::external_body]
pub struct ExFace<'a>(ttf_parser::Face<'a>);

/// Whether `ttf_parser::Face::parse` accepts face `index` of `bytes`.
pub uninterp spec fn face_parses(bytes: Seq<u8>, index: u32) -> bool;

/// The glyph `ttf_parser::Face::glyph_index` maps `c` to in face `index`
/// of `bytes`.
pub uninterp spec fn face_glyph(bytes: Seq<u8>, index: u32, c: char) -> Option<u16>;

/// Whether `ttf_parser::Face::glyph_bounding_box` finds an outline extent
/// for `glyph` in face `index` of `bytes`.
pub uninterp spec fn glyph_has_outline(bytes: Seq<u8>, index: u32, glyph: u16) -> bool;

/// A parsed font face, with the bytes and face index it was parsed from.
pub struct FontFace<'a> {
    face: ttf_parser::Face<'a>,
    bytes: Ghost<Seq<u8>>,
    index: Ghost<u32>,
}

/// Parse face `index` of `bytes`.
///
/// Calls `ttf_parser::Face::parse`; the contract names whether it succeeds
/// and records what the face was parsed from, which the face's queries
/// below are stated over.
#[verifier::external_body]
fn parse_face<'a>(bytes: &'a [u8], index: u32) -> (r: Option<FontFace<'a>>)
    ensures
        r is Some <==> face_parses(bytes@, index),
        r matches Some(f) ==> f.bytes@ == bytes@ && f.index@ == index,
{
    match ttf_parser::Face::parse(bytes, index) {
        Ok(face) => Some(FontFace { face, bytes: Ghost(bytes@), index: Ghost(index) }),
        Err(_) => None,
    }
}

/// The glyph the face maps `c` to.
///
/// Calls `ttf_parser::Face::glyph_index` and hands out the glyph id's
/// number. The result is named: what the font maps the character to.
#[verifier::external_body]
fn glyph_index(face: &FontFace, c: char) -> (r: Option<u16>)
    ensures
        r == face_glyph(face.bytes@, face.index@, c),
{
    face.face.glyph_index(c).map(|g| g.0)
}

/// Whether the glyph has an outline.
///
/// Calls `ttf_parser::Face::glyph_bounding_box`, which returns `None` when
/// the glyph has no outline (for instance a colour-bitmap-only glyph). The
/// result is named.
#[verifier::external_body]
fn glyph_outlined(face: &FontFace, glyph: u16) -> (r: bool)
    ensures
        r == glyph_has_outline(face.bytes@, face.index@, glyph),
{
    face.face.glyph_bounding_box(ttf_parser::GlyphId(glyph)).is_some()
}

/// Whether face `index` of `bytes` can draw the probe emoji: it parses,
/// maps the probe to a glyph, and that glyph has an outline.
pub open spec fn drawable_emoji(bytes: Seq<u8>, index: u32) -> bool {
    &&& face_parses(bytes, index)
    &&& match face_glyph(bytes, index, PROBE_EMOJI) {
        Some(g) => glyph_has_outline(bytes, index, g),
        None => false,
    }
}

/// Whether the face in `font_bytes` at `face_index` has a glyph for the
/// probe emoji with a non-empty outline, the only kind of glyph the editor's
/// renderer can draw. An unparsable font, an unmapped probe and an
/// outline-less (bitmap-only) glyph are all rejected.
pub fn font_has_drawable_emoji(font_bytes: &[u8], face_index: u32) -> (r: bool)
    ensures
        r == drawable_emoji(font_bytes@, face_index),
{
    let face = match parse_face(font_bytes, face_index) {
        Some(f) => f,
        None => return false,
    };
    let glyph = match glyph_index(&face, PROBE_EMOJI) {
        Some(g) => g,
        None => return false,
    };
    glyph_outlined(&face, glyph)
}

/// System emoji font family names to try, in order of preference; each is
/// matched as a substring of a face's family names. Outline fonts come
/// first because only those can be drawn; colour-bitmap fonts are still
/// listed (a host may have only one) and are then rejected by the outline
/// check.
pub const EMOJI_CANDIDATES: [&'static str; 10] = [
    "Noto Emoji",
    "OpenMoji",
    "Twemoji Mozilla",
    "Symbola",
    "Apple Color Emoji",
    "Segoe UI Emoji",
    "Noto Color Emoji",
    "Twemoji",
    "Emoji One",
    "Emoji",
];

/// Whether `needle` occurs in `hay`.
pub open spec fn has_sub(hay: Seq<char>, needle: Seq<char>) -> bool {
    exists|i: int| 0 <= i && i + needle.len() <= hay.len() && #[trigger] hay.subrange(i, i + needle.len()) == needle
}

/// Whether one of a face's family names contains `candidate`.
pub open spec fn face_matches(families: Seq<Seq<char>>, candidate: Seq<char>) -> bool {
    exists|k: int| 0 <= k < families.len() && has_sub(#[trigger] families[k], candidate)
}

/// The faces among the first `n` whose families match `candidate`, in
/// order, each paired with the candidate's index `c`.
pub open spec fn matching_faces(faces: Seq<Seq<Seq<char>>>, candidate: Seq<char>, c: usize, n: int) -> Seq<(usize, usize)>
    decreases n,
{
    if n <= 0 {
        Seq::empty()
    } else if face_matches(faces[n - 1], candidate) {
        matching_faces(faces, candidate, c, n - 1).push((c, (n - 1) as usize))
    } else {
        matching_faces(faces, candidate, c, n - 1)
    }
}

/// The faces to try for an emoji font, in order: for each of the first `n`
/// candidates in preference order, every face whose families contain it.
pub open spec fn emoji_attempts(faces: Seq<Seq<Seq<char>>>, n: int) -> Seq<(usize, usize)>
    decreases n,
{
    if n <= 0 {
        Seq::empty()
    } else {
        emoji_attempts(faces, n - 1) + matching_faces(faces, EMOJI_CANDIDATES@[n - 1]@, (n - 1) as usize, faces.len() as int)
    }
}

/// Whether `needle` occurs in `hay`.
pub fn contains_text(hay: &str, needle: &str) -> (r: bool)
    ensures
        r == has_sub(hay@, needle@),
{
    let h = crate::text::chars_of(hay);
    let n = crate::text::chars_of(needle);
    if n.len() == 0 {
        assert(hay@.subrange(0, 0int + needle@.len()) =~= needle@);
        return true;
    }
    if n.len() > h.len() {
        return false;
    }
    let last = h.len() - n.len();
    let mut i: usize = 0;
    while i <= last
        invariant
            h@ == hay@,
            n@ == needle@,
            1 <= n@.len() <= h@.len(),
            h@.len() <= usize::MAX,
            last == h@.len() - n@.len(),
            i <= last + 1,
            forall|j: int| 0 <= j < i ==> #[trigger] h@.subrange(j, j + n@.len()) != n@,
        decreases last + 1 - i,
    {
        let mut k: usize = 0;
        let mut same = true;
        while k < n.len() && same
            invariant
                h@ == hay@,
                n@ == needle@,
                1 <= n@.len() <= h@.len(),
                h@.len() <= usize::MAX,
                last == h@.len() - n@.len(),
                i <= last,
                k <= n@.len(),
                h@.subrange(i as int, i + k) == n@.take(k as int),
                !same ==> k < n@.len() && h@[i + k] != n@[k as int],
            decreases n@.len() - k + if same { 1int } else { 0int },
        {
            if h[i + k] == n[k] {
                assert(h@.subrange(i as int, i + k + 1) =~= h@.subrange(i as int, i + k).push(h@[i + k]));
                assert(n@.take(k + 1) =~= n@.take(k as int).push(n@[k as int]));
                k = k + 1;
            } else {
                same = false;
            }
        }
        if k == n.len() {
            assert(n@.take(k as int) =~= n@);
            assert(h@.subrange(i as int, i + n@.len()) == n@);
            return true;
        }
        assert(h@.subrange(i as int, i + n@.len())[k as int] != n@[k as int]);
        i = i + 1;
    }
    proof {
        assert forall|j: int| 0 <= j && j + needle@.len() <= hay@.len() implies #[trigger] hay@.subrange(j, j + needle@.len()) != needle@ by {
            assert(j < i);
        }
    }
    false
}

/// The order in which to try the host's faces for an emoji font, given
/// each face's family names: for each candidate in preference order,
/// every face whose families contain it, as `(candidate, face)` index pairs.
pub fn emoji_face_order(faces: &Vec<Vec<String>>) -> (r: Vec<(usize, usize)>)
    ensures
        r@ == emoji_attempts(faces@.map_values(|f: Vec<String>| texts(f@)), EMOJI_CANDIDATES@.len() as int),
{
    let ghost fv = faces@.map_values(|f: Vec<String>| texts(f@));
    let cands = EMOJI_CANDIDATES;
    let mut out: Vec<(usize, usize)> = Vec::new();
    let mut c: usize = 0;
    while c < cands.len()
        invariant
            cands@ == EMOJI_CANDIDATES@,
            c <= cands@.len(),
            fv == faces@.map_values(|f: Vec<String>| texts(f@)),
            out@ == emoji_attempts(fv, c as int),
        decreases cands@.len() - c,
    {
        let candidate = cands[c];
        let ghost base = out@;
        let mut f: usize = 0;
        while f < faces.len()
            invariant
                cands@ == EMOJI_CANDIDATES@,
                c < cands@.len(),
                candidate == cands@[c as int],
                fv == faces@.map_values(|f: Vec<String>| texts(f@)),
                base == emoji_attempts(fv, c as int),
                f <= faces@.len(),
                out@ == base + matching_faces(fv, candidate@, c, f as int),
            decreases faces@.len() - f,
        {
            let families = &faces[f];
            assert(fv[f as int] == texts(families@));
            let mut hit = false;
            let mut k: usize = 0;
            while k < families.len()
                invariant
                    k <= families@.len(),
                    fv[f as int] == texts(families@),
                    hit == exists|q: int| 0 <= q < k && has_sub(#[trigger] texts(families@)[q], candidate@),
                decreases families@.len() - k,
            {
                if contains_text(families[k].as_str(), candidate) {
                    hit = true;
                }
                assert(texts(families@)[k as int] == families@[k as int]@);
                k = k + 1;
            }
            if hit {
                out.push((c, f));
                assert(out@ =~= base + matching_faces(fv, candidate@, c, f + 1));
            } else {
                assert(out@ =~= base + matching_faces(fv, candidate@, c, f + 1));
            }
            f = f + 1;
        }
        assert(out@ =~= emoji_attempts(fv, c + 1));
        c = c + 1;
    }
    out
}

/// The index of the first occurrence of `x` in `s`, or `s.len()` when `x`
/// does not occur.
pub open spec fn first_at(s: Seq<Seq<char>>, x: Seq<char>) -> int
    decreases s.len(),
{
    if s.len() == 0 {
        0
    } else if s[0] == x {
        0
    } else {
        1 + first_at(s.drop_first(), x)
    }
}

/// The family list after placing `name` behind `anchor`.
pub open spec fn spec_insert_after(s: Seq<Seq<char>>, anchor: Seq<char>, name: Seq<char>) -> Seq<Seq<char>> {
    if s.contains(name) {
        s
    } else if first_at(s, anchor) < s.len() {
        s.insert(first_at(s, anchor) + 1, name)
    } else {
        s.push(name)
    }
}

proof fn lemma_first_at(s: Seq<Seq<char>>, x: Seq<char>)
    ensures
        0 <= first_at(s, x) <= s.len(),
        first_at(s, x) < s.len() ==> s[first_at(s, x)] == x,
        forall|j: int| 0 <= j < first_at(s, x) ==> s[j] != x,
        s.contains(x) <==> first_at(s, x) < s.len(),
    decreases s.len(),
{
    if s.len() > 0 && s[0] != x {
        lemma_first_at(s.drop_first(), x);
        assert forall|j: int| 0 <= j < first_at(s, x) implies s[j] != x by {
            if j > 0 {
                assert(s[j] == s.drop_first()[j - 1]);
            }
        }
        if s.contains(x) {
            let k = choose|k: int| 0 <= k < s.len() && s[k] == x;
            assert(s.drop_first()[k - 1] == x);
        }
        if s.drop_first().contains(x) {
            let k = choose|k: int| 0 <= k < s.drop_first().len() && s.drop_first()[k] == x;
            assert(s[k + 1] == x);
        }
    } else if s.len() > 0 {
        assert(s[0] == x);
    }
}

/// Placing a name a second time changes nothing: the first call leaves the
/// name in the list, and a present name is never inserted again.
pub proof fn law_insert_after_is_idempotent(s: Seq<Seq<char>>, anchor: Seq<char>, name: Seq<char>)
    ensures
        spec_insert_after(spec_insert_after(s, anchor, name), anchor, name)
            == spec_insert_after(s, anchor, name),
{
    let once = spec_insert_after(s, anchor, name);
    if !s.contains(name) {
        lemma_first_at(s, anchor);
        if first_at(s, anchor) < s.len() {
            assert(once[first_at(s, anchor) + 1] == name);
        } else {
            assert(once[s.len() as int] == name);
        }
        assert(once.contains(name));
    }
}

/// When the anchor is present and the name is new, the name ends up directly
/// behind the first occurrence of the anchor, and every other entry keeps its
/// relative order.
pub proof fn law_insert_after_sits_behind_anchor(s: Seq<Seq<char>>, anchor: Seq<char>, name: Seq<char>)
    requires
        s.contains(anchor),
        !s.contains(name),
    ensures
        ({
            let r = spec_insert_after(s, anchor, name);
            let k = first_at(s, anchor);
            &&& r.len() == s.len() + 1
            &&& r[k] == anchor
            &&& r[k + 1] == name
            &&& r.remove(k + 1) == s
        }),
{
    lemma_first_at(s, anchor);
    let r = spec_insert_after(s, anchor, name);
    let k = first_at(s, anchor);
    assert(r.remove(k + 1) =~= s);
}

/// Insert `name` immediately after the first occurrence of `anchor` in
/// `list`; when `anchor` is absent, append `name`. A no-op when `name` is
/// already present, so repeated calls stay idempotent.
pub fn insert_after(list: &mut Vec<String>, anchor: &str, name: &str)
    ensures
        texts(final(list)@) == spec_insert_after(texts(old(list)@), anchor@, name@),
{
    let ghost start = texts(list@);
    let n = list.len();
    let mut i: usize = 0;
    while i < n
        invariant
            i <= n == list@.len(),
            texts(list@) == start,
            start == texts(old(list)@),
            forall|j: int| 0 <= j < i ==> start[j] != name@,
        decreases n - i,
    {
        assert(start[i as int] == list@[i as int]@);
        if str_eq(list[i].as_str(), name) {
            assert(start[i as int] == name@);
            assert(start.contains(name@));
            return;
        }
        i = i + 1;
    }
    assert(!start.contains(name@));
    proof {
        lemma_first_at(start, anchor@);
    }
    let mut k: usize = 0;
    while k < n
        invariant
            k <= n == list@.len(),
            texts(list@) == start,
            start == texts(old(list)@),
            !start.contains(name@),
            forall|j: int| 0 <= j < k ==> start[j] != anchor@,
            0 <= first_at(start, anchor@) <= start.len(),
            first_at(start, anchor@) < start.len() ==> start[first_at(start, anchor@)] == anchor@,
            forall|j: int| 0 <= j < first_at(start, anchor@) ==> start[j] != anchor@,
        decreases n - k,
    {
        assert(start[k as int] == list@[k as int]@);
        if str_eq(list[k].as_str(), anchor) {
            assert(first_at(start, anchor@) == k);
            list.insert(k + 1, name.to_owned());
            assert(texts(list@) =~= start.insert(k + 1, name@));
            return;
        }
        k = k + 1;
    }
    assert(first_at(start, anchor@) == n);
    list.push(name.to_owned());
    assert(texts(list@) =~= start.push(name@));
}

} // verus!

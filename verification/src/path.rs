//! The editor's model of filesystem paths.
//!
//! Paths are held as text (`String`, `/`-separated). Like the standard
//! library's `Path`, they are compared and taken apart component by
//! component: a path is absolute when it starts with `/`, and its parts are
//! the `/`-separated segments that are neither empty nor `.`, except that a
//! relative path that begins with a `.` segment keeps it as its first part.
//! So `a//b/./c/` and `a/b/c` name the same path, while `./a` and `a` do not.

use vstd::prelude::*;
use crate::text::{chars_of, push_char, string_from_chars};

verus! {

broadcast use vstd::string::group_string_axioms;

/// Whether a segment is a real path component (not empty and not `.`).
pub open spec fn keep(seg: Seq<char>) -> bool {
    seg.len() > 0 && seg != seq!['.']
}

/// The components found in the first `i` characters of `s`, and the segment
/// still being read.
pub open spec fn split_state(s: Seq<char>, i: int) -> (Seq<Seq<char>>, Seq<char>)
    decreases i,
{
    if i <= 0 {
        (Seq::empty(), Seq::empty())
    } else {
        let prev = split_state(s, i - 1);
        if s[i - 1] == '/' {
            (if keep(prev.1) { prev.0.push(prev.1) } else { prev.0 }, Seq::empty())
        } else {
            (prev.0, prev.1.push(s[i - 1]))
        }
    }
}

/// The real components of a path: its segments that are neither empty nor
/// `.`.
pub open spec fn body_parts(s: Seq<char>) -> Seq<Seq<char>> {
    let st = split_state(s, s.len() as int);
    if keep(st.1) { st.0.push(st.1) } else { st.0 }
}

/// Whether a path begins with a `.` segment (`.` itself, or `./...`).
pub open spec fn lead_dot(s: Seq<char>) -> bool {
    s.len() > 0 && s[0] == '.' && (s.len() == 1 || s[1] == '/')
}

/// The components of a path: a leading `.` segment, when there is one,
/// then the real components.
pub open spec fn parts(s: Seq<char>) -> Seq<Seq<char>> {
    if lead_dot(s) {
        seq![seq!['.']] + body_parts(s)
    } else {
        body_parts(s)
    }
}

/// Components that render back to themselves: none is empty or holds a
/// separator, and all but the first are real components.
pub open spec fn ok_parts(ps: Seq<Seq<char>>) -> bool {
    forall|k: int| 0 <= k < ps.len() ==> (#[trigger] ps[k]).len() > 0 && !ps[k].contains('/') && (k > 0 ==> keep(ps[k]))
}

/// Real components only, none holding a separator.
pub open spec fn clean_parts(ps: Seq<Seq<char>>) -> bool {
    forall|k: int| 0 <= k < ps.len() ==> keep(#[trigger] ps[k]) && !ps[k].contains('/')
}

/// Whether a path is absolute (starts at the root).
pub open spec fn is_absolute(s: Seq<char>) -> bool {
    s.len() > 0 && s[0] == '/'
}

/// What identifies a path: whether it is absolute, and its components.
pub open spec fn path_key(s: Seq<char>) -> (bool, Seq<Seq<char>>) {
    (is_absolute(s), parts(s))
}

/// Two paths name the same location.
pub open spec fn same_path(a: Seq<char>, b: Seq<char>) -> bool {
    path_key(a) == path_key(b)
}

/// Components joined with `/`.
pub open spec fn join_parts(ps: Seq<Seq<char>>) -> Seq<char>
    decreases ps.len(),
{
    if ps.len() == 0 {
        Seq::empty()
    } else if ps.len() == 1 {
        ps[0]
    } else {
        join_parts(ps.drop_last()) + seq!['/'] + ps.last()
    }
}

/// The text of a path with the given root flag and components.
pub open spec fn render(absolute: bool, ps: Seq<Seq<char>>) -> Seq<char> {
    if absolute {
        seq!['/'] + join_parts(ps)
    } else {
        join_parts(ps)
    }
}

/// The final component of a path, unless there is none or it is `..` or
/// `.`.
pub open spec fn file_name(s: Seq<char>) -> Option<Seq<char>> {
    let ps = parts(s);
    if ps.len() == 0 || ps.last() == seq!['.', '.'] || ps.last() == seq!['.'] {
        None
    } else {
        Some(ps.last())
    }
}

/// The path without its final component, or `None` when it has no
/// component to remove.
pub open spec fn parent(s: Seq<char>) -> Option<Seq<char>> {
    let ps = parts(s);
    if ps.len() == 0 {
        None
    } else {
        Some(render(is_absolute(s), ps.drop_last()))
    }
}

/// Whether `base`'s components begin `p`'s (and both agree on the root).
pub open spec fn starts_with(p: Seq<char>, base: Seq<char>) -> bool {
    is_absolute(p) == is_absolute(base) && parts(base).len() <= parts(p).len() && parts(p).take(
        parts(base).len() as int,
    ) == parts(base)
}

/// `p` relative to `base`, when `base` is a prefix of it.
pub open spec fn strip_prefix(p: Seq<char>, base: Seq<char>) -> Option<Seq<char>> {
    if starts_with(p, base) {
        Some(join_parts(parts(p).skip(parts(base).len() as int)))
    } else {
        None
    }
}

/// `name` joined onto `base`: an absolute `name` replaces `base`; otherwise
/// it is appended after a separator (none is added when `base` is empty or
/// already ends with one).
pub open spec fn join(base: Seq<char>, name: Seq<char>) -> Seq<char> {
    if is_absolute(name) || base.len() == 0 {
        name
    } else if base.last() == '/' {
        base + name
    } else {
        base + seq!['/'] + name
    }
}

/// The texts of a sequence of strings.
pub open spec fn views(v: Seq<String>) -> Seq<Seq<char>> {
    v.map_values(|s: String| s@)
}

/// A path taken apart: whether it is absolute, and its components.
pub struct PathKey {
    pub absolute: bool,
    pub parts: Vec<String>,
}

impl PathKey {
    /// The identity this key stands for.
    pub open spec fn key(&self) -> (bool, Seq<Seq<char>>) {
        (self.absolute, views(self.parts@))
    }
}

/// Whether a segment held as characters is a real component.
fn keep_exec(seg: &Vec<char>) -> (b: bool)
    ensures
        b == keep(seg@),
{
    if seg.len() == 0 {
        false
    } else if seg.len() == 1 && seg[0] == '.' {
        assert(seg@ =~= seq!['.']);
        false
    } else {
        proof {
            if seg@ == seq!['.'] {
                assert(seg@.len() == 1);
                assert(seg@[0] == '.');
            }
        }
        true
    }
}

/// Split a path into its root flag and components.
pub fn path_key_of(p: &str) -> (k: PathKey)
    ensures
        k.key() == path_key(p@),
{
    let chars = chars_of(p);
    let lead = chars.len() > 0 && chars[0] == '.' && (chars.len() == 1 || chars[1] == '/');
    let ghost first: Seq<Seq<char>> = if lead_dot(p@) { seq![seq!['.']] } else { Seq::empty() };
    let mut done: Vec<String> = Vec::new();
    if lead {
        let mut dot = String::new();
        push_char(&mut dot, '.');
        done.push(dot);
        assert(views(done@) =~= first);
    } else {
        assert(views(done@) =~= first);
    }
    let mut cur: Vec<char> = Vec::new();
    let mut i: usize = 0;
    assert(first + split_state(p@, 0).0 =~= first);
    while i < chars.len()
        invariant
            i <= chars@.len(),
            chars@ == p@,
            first == (if lead_dot(p@) { seq![seq!['.']] } else { Seq::<Seq<char>>::empty() }),
            views(done@) == first + split_state(p@, i as int).0,
            cur@ == split_state(p@, i as int).1,
        decreases chars@.len() - i,
    {
        let c = chars[i];
        let ghost prev = split_state(p@, i as int);
        if c == '/' {
            assert(p@[i as int] == '/');
            assert(split_state(p@, i + 1) == (if keep(prev.1) { prev.0.push(prev.1) } else { prev.0 }, Seq::<char>::empty()));
            if keep_exec(&cur) {
                let seg = string_from_chars(&cur, 0, cur.len());
                assert(seg@ =~= cur@);
                let ghost before = done@;
                done.push(seg);
                assert(done@ =~= before.push(seg));
                assert(views(done@) =~= views(before).push(seg@));
                assert(views(done@) =~= first + split_state(p@, i as int).0.push(cur@));
            }
            cur = Vec::new();
            assert(views(done@) =~= first + split_state(p@, i + 1).0);
            assert(cur@ =~= split_state(p@, i + 1).1);
        } else {
            assert(p@[i as int] == c);
            cur.push(c);
        }
        i = i + 1;
    }
    if keep_exec(&cur) {
        let seg = string_from_chars(&cur, 0, cur.len());
        assert(seg@ =~= cur@);
        let ghost before = done@;
        done.push(seg);
        assert(done@ =~= before.push(seg));
        assert(views(done@) =~= views(before).push(seg@));
        assert(views(done@) =~= first + split_state(p@, p@.len() as int).0.push(cur@));
    }
    assert(lead == lead_dot(p@));
    assert(views(done@) =~= parts(p@));
    let absolute = chars.len() > 0 && chars[0] == '/';
    PathKey { absolute, parts: done }
}

/// Whether two strings hold the same text.
pub fn str_eq(a: &str, b: &str) -> (r: bool)
    ensures
        r == (a@ == b@),
{
    let x = chars_of(a);
    let y = chars_of(b);
    if x.len() != y.len() {
        return false;
    }
    let mut i: usize = 0;
    while i < x.len()
        invariant
            i <= x@.len() == y@.len(),
            x@ == a@,
            y@ == b@,
            x@.take(i as int) == y@.take(i as int),
        decreases x@.len() - i,
    {
        if x[i] != y[i] {
            assert(x@[i as int] != y@[i as int]);
            return false;
        }
        assert(x@.take(i + 1) =~= x@.take(i as int).push(x@[i as int]));
        assert(y@.take(i + 1) =~= y@.take(i as int).push(y@[i as int]));
        i = i + 1;
    }
    assert(x@ =~= x@.take(x@.len() as int));
    assert(y@ =~= y@.take(y@.len() as int));
    true
}

/// Whether the first `n` components of two keys agree.
fn parts_prefix_eq(a: &Vec<String>, b: &Vec<String>, n: usize) -> (r: bool)
    requires
        n <= a@.len(),
        n <= b@.len(),
    ensures
        r == (views(a@).take(n as int) == views(b@).take(n as int)),
{
    let mut i: usize = 0;
    while i < n
        invariant
            i <= n <= a@.len(),
            n <= b@.len(),
            views(a@).take(i as int) == views(b@).take(i as int),
        decreases n - i,
    {
        if !str_eq(a[i].as_str(), b[i].as_str()) {
            assert(views(a@).take(n as int)[i as int] != views(b@).take(n as int)[i as int]);
            return false;
        }
        assert(views(a@).take(i + 1) =~= views(a@).take(i as int).push(a@[i as int]@));
        assert(views(b@).take(i + 1) =~= views(b@).take(i as int).push(b@[i as int]@));
        i = i + 1;
    }
    true
}

/// Whether two paths name the same location.
pub fn same_path_exec(a: &str, b: &str) -> (r: bool)
    ensures
        r == same_path(a@, b@),
{
    let ka = path_key_of(a);
    let kb = path_key_of(b);
    if ka.absolute != kb.absolute || ka.parts.len() != kb.parts.len() {
        assert(views(ka.parts@).len() == ka.parts@.len());
        assert(views(kb.parts@).len() == kb.parts@.len());
        return false;
    }
    let r = parts_prefix_eq(&ka.parts, &kb.parts, ka.parts.len());
    assert(views(ka.parts@).take(ka.parts@.len() as int) =~= views(ka.parts@));
    assert(views(kb.parts@).take(kb.parts@.len() as int) =~= views(kb.parts@));
    r
}

/// Whether `base`'s components begin `p`'s.
pub fn starts_with_exec(p: &str, base: &str) -> (r: bool)
    ensures
        r == starts_with(p@, base@),
{
    let kp = path_key_of(p);
    let kb = path_key_of(base);
    if kp.absolute != kb.absolute || kb.parts.len() > kp.parts.len() {
        return false;
    }
    let r = parts_prefix_eq(&kp.parts, &kb.parts, kb.parts.len());
    assert(views(kb.parts@).take(kb.parts@.len() as int) =~= views(kb.parts@));
    r
}

/// Components `ps[from..]` joined with `/`.
pub fn join_parts_from(ps: &Vec<String>, from: usize) -> (r: String)
    requires
        from <= ps@.len(),
    ensures
        r@ == join_parts(views(ps@).skip(from as int)),
{
    let mut r = String::new();
    let mut i = from;
    while i < ps.len()
        invariant
            from <= i <= ps@.len(),
            r@ == join_parts(views(ps@).subrange(from as int, i as int)),
        decreases ps@.len() - i,
    {
        let ghost before = views(ps@).subrange(from as int, i as int);
        let ghost after = views(ps@).subrange(from as int, i + 1);
        assert(after.drop_last() =~= before);
        if i > from {
            push_char(&mut r, '/');
        } else {
            assert(before.len() == 0);
        }
        r.append(ps[i].as_str());
        if i > from {
            assert(r@ =~= join_parts(after));
        } else {
            assert(r@ =~= join_parts(after));
        }
        i = i + 1;
    }
    assert(views(ps@).subrange(from as int, ps@.len() as int) =~= views(ps@).skip(from as int));
    r
}

/// The final component of a path, unless there is none or it is `..`.
pub fn file_name_of(p: &str) -> (r: Option<String>)
    ensures
        match r {
            Some(s) => file_name(p@) == Some(s@),
            None => file_name(p@) is None,
        },
{
    let k = path_key_of(p);
    let n = k.parts.len();
    if n == 0 {
        return None;
    }
    let last = k.parts[n - 1].clone();
    let dots = chars_of(last.as_str());
    if dots.len() == 2 && dots[0] == '.' && dots[1] == '.' {
        assert(last@ =~= seq!['.', '.']);
        return None;
    }
    if dots.len() == 1 && dots[0] == '.' {
        assert(last@ =~= seq!['.']);
        return None;
    }
    assert(views(k.parts@).last() == last@);
    Some(last)
}

/// `p` relative to `base`, when `base` is a prefix of it.
pub fn strip_prefix_exec(p: &str, base: &str) -> (r: Option<String>)
    ensures
        match r {
            Some(s) => strip_prefix(p@, base@) == Some(s@),
            None => strip_prefix(p@, base@) is None,
        },
{
    if !starts_with_exec(p, base) {
        return None;
    }
    let kp = path_key_of(p);
    let kb = path_key_of(base);
    let rest = join_parts_from(&kp.parts, kb.parts.len());
    Some(rest)
}

/// The text of a path with the given root flag and components `ps[..n]`.
pub fn render_exec(absolute: bool, ps: &Vec<String>, n: usize) -> (r: String)
    requires
        n <= ps@.len(),
    ensures
        r@ == render(absolute, views(ps@).take(n as int)),
{
    let mut prefix: Vec<String> = Vec::new();
    let mut i: usize = 0;
    while i < n
        invariant
            i <= n <= ps@.len(),
            views(prefix@) == views(ps@).take(i as int),
        decreases n - i,
    {
        let ghost before = prefix@;
        let item = ps[i].clone();
        prefix.push(item);
        assert(prefix@ =~= before.push(item));
        assert(views(prefix@) =~= views(before).push(ps@[i as int]@));
        assert(views(prefix@) =~= views(ps@).take(i + 1));
        i = i + 1;
    }
    let body = join_parts_from(&prefix, 0);
    assert(views(prefix@).skip(0) =~= views(prefix@));
    if absolute {
        let mut r = String::new();
        push_char(&mut r, '/');
        r.append(body.as_str());
        r
    } else {
        body
    }
}

/// The path without its final component.
pub fn parent_exec(p: &str) -> (r: Option<String>)
    ensures
        match r {
            Some(s) => parent(p@) == Some(s@),
            None => parent(p@) is None,
        },
{
    let k = path_key_of(p);
    if k.parts.len() == 0 {
        return None;
    }
    let r = render_exec(k.absolute, &k.parts, k.parts.len() - 1);
    assert(views(k.parts@).take(k.parts@.len() - 1) =~= views(k.parts@).drop_last());
    Some(r)
}

/// `name` joined onto `base`.
pub fn join_exec(base: &str, name: &str) -> (r: String)
    ensures
        r@ == join(base@, name@),
{
    let b = chars_of(base);
    let n = chars_of(name);
    if (n.len() > 0 && n[0] == '/') || b.len() == 0 {
        return name.to_owned();
    }
    let mut r = base.to_owned();
    if b[b.len() - 1] != '/' {
        push_char(&mut r, '/');
    }
    r.append(name);
    r
}


/// The state after `i` characters depends on those characters only.
proof fn lemma_split_prefix(s: Seq<char>, t: Seq<char>, i: int)
    requires
        0 <= i <= s.len(),
        i <= t.len(),
        s.take(i) == t.take(i),
    ensures
        split_state(s, i) == split_state(t, i),
    decreases i,
{
    if i > 0 {
        assert(s.take(i - 1) =~= s.take(i).take(i - 1));
        assert(t.take(i - 1) =~= t.take(i).take(i - 1));
        lemma_split_prefix(s, t, i - 1);
        assert(s[i - 1] == s.take(i)[i - 1]);
        assert(t[i - 1] == t.take(i)[i - 1]);
    }
}

/// Every component is a real one and holds no separator, and so does the
/// segment still being read.
proof fn lemma_split_parts_clean(s: Seq<char>, i: int)
    requires
        0 <= i <= s.len(),
    ensures
        forall|k: int| 0 <= k < split_state(s, i).0.len() ==> keep(#[trigger] split_state(s, i).0[k])
            && !split_state(s, i).0[k].contains('/'),
        !split_state(s, i).1.contains('/'),
    decreases i,
{
    if i > 0 {
        lemma_split_parts_clean(s, i - 1);
        let prev = split_state(s, i - 1);
        if s[i - 1] != '/' {
            let cur = prev.1.push(s[i - 1]);
            assert forall|k: int| 0 <= k < cur.len() implies cur[k] != '/' by {
                if k < prev.1.len() {
                    assert(cur[k] == prev.1[k]);
                    if prev.1[k] == '/' {
                        assert(prev.1.contains('/'));
                    }
                }
            }
            assert(split_state(s, i).1 == cur);
        } else {
            assert(split_state(s, i).1 =~= Seq::<char>::empty());
        }
    }
}

/// The real components of a path are real components holding no separator.
proof fn lemma_body_clean(s: Seq<char>)
    ensures
        clean_parts(body_parts(s)),
{
    lemma_split_parts_clean(s, s.len() as int);
}

/// The components of a path render back to themselves, and are all real
/// ones unless the path begins with a `.` segment.
proof fn lemma_parts_ok(s: Seq<char>)
    ensures
        ok_parts(parts(s)),
        !lead_dot(s) ==> clean_parts(parts(s)),
{
    lemma_body_clean(s);
    if lead_dot(s) {
        let ps = parts(s);
        assert(!seq!['.'].contains('/')) by {
            if seq!['.'].contains('/') {
                let k = choose|k: int| 0 <= k < seq!['.'].len() && seq!['.'][k] == '/';
            }
        }
        assert forall|k: int| 0 <= k < ps.len() implies (#[trigger] ps[k]).len() > 0 && !ps[k].contains('/') && (k > 0
            ==> keep(ps[k])) by {
            if k > 0 {
                assert(ps[k] == body_parts(s)[k - 1]);
            }
        }
    }
}

/// Reading text with no separator only extends the pending segment.
proof fn lemma_split_no_slash(x: Seq<char>, i: int)
    requires
        0 <= i <= x.len(),
        !x.contains('/'),
    ensures
        split_state(x, i) == (Seq::<Seq<char>>::empty(), x.take(i)),
    decreases i,
{
    if i > 0 {
        lemma_split_no_slash(x, i - 1);
        assert(x[i - 1] != '/');
        assert(x.take(i) =~= x.take(i - 1).push(x[i - 1]));
    } else {
        assert(x.take(0) =~= Seq::<char>::empty());
    }
}

/// After text ending in a separator, the components of what follows are
/// appended to those read so far.
proof fn lemma_split_after_slash(a: Seq<char>, b: Seq<char>, j: int)
    requires
        a.len() > 0,
        a.last() == '/',
        0 <= j <= b.len(),
    ensures
        split_state(a + b, a.len() + j) == (body_parts(a) + split_state(b, j).0, split_state(b, j).1),
    decreases j,
{
    let s = a + b;
    if j == 0 {
        assert(s.take(a.len() as int) =~= a.take(a.len() as int));
        lemma_split_prefix(s, a, a.len() as int);
        assert(split_state(a, a.len() as int).1 =~= Seq::<char>::empty());
        assert(body_parts(a) == split_state(a, a.len() as int).0);
        assert(body_parts(a) + split_state(b, 0).0 =~= body_parts(a));
    } else {
        lemma_split_after_slash(a, b, j - 1);
        assert(s[a.len() + j - 1] == b[j - 1]);
        let prev = split_state(b, j - 1);
        if b[j - 1] == '/' {
            if keep(prev.1) {
                assert((body_parts(a) + prev.0).push(prev.1) =~= body_parts(a) + prev.0.push(prev.1));
            }
        }
    }
}

/// The components of text ending in a separator followed by more text: a
/// leading `.` of what follows is no longer leading.
proof fn lemma_parts_after_slash(a: Seq<char>, b: Seq<char>)
    requires
        a.len() > 0,
        a.last() == '/',
    ensures
        body_parts(a + b) == body_parts(a) + body_parts(b),
        parts(a + b) == parts(a) + body_parts(b),
{
    lemma_split_after_slash(a, b, b.len() as int);
    let st = split_state(b, b.len() as int);
    assert((a + b).len() == a.len() + b.len());
    if keep(st.1) {
        assert((body_parts(a) + st.0).push(st.1) =~= body_parts(a) + st.0.push(st.1));
    }
    if a.len() >= 2 {
        assert((a + b)[1] == a[1]);
    }
    assert((a + b)[0] == a[0]);
    assert(lead_dot(a + b) == lead_dot(a));
    if lead_dot(a) {
        assert(seq![seq!['.']] + (body_parts(a) + body_parts(b)) =~= (seq![seq!['.']] + body_parts(a)) + body_parts(b));
    }
}

/// A trailing separator adds no component.
proof fn lemma_parts_push_slash(x: Seq<char>)
    ensures
        parts(x.push('/')) == parts(x),
{
    let y = x.push('/');
    assert(y.take(x.len() as int) =~= x.take(x.len() as int));
    lemma_split_prefix(y, x, x.len() as int);
    assert(y[x.len() as int] == '/');
    if x.len() >= 1 {
        assert(y[0] == x[0]);
    }
    if x.len() >= 2 {
        assert(y[1] == x[1]);
    }
    assert(lead_dot(y) == lead_dot(x));
}

/// A single real component is its own only component.
proof fn lemma_parts_single(x: Seq<char>)
    requires
        keep(x),
        !x.contains('/'),
    ensures
        parts(x) == seq![x],
        !lead_dot(x),
{
    lemma_split_no_slash(x, x.len() as int);
    assert(x.take(x.len() as int) =~= x);
    if x[0] == '.' && x.len() == 1 {
        assert(x =~= seq!['.']);
    }
    if x.len() > 1 {
        assert(x.contains(x[1]));
    }
}

/// Joining components that render back to themselves and taking the result
/// apart gives them back.
proof fn lemma_parts_of_join(ps: Seq<Seq<char>>)
    requires
        ok_parts(ps),
    ensures
        parts(join_parts(ps)) == ps,
        ps.len() > 0 ==> join_parts(ps).len() >= ps[0].len() && join_parts(ps).take(ps[0].len() as int) == ps[0],
        ps.len() == 0 ==> join_parts(ps).len() == 0,
        clean_parts(ps) ==> !lead_dot(join_parts(ps)),
    decreases ps.len(),
{
    if ps.len() == 1 {
        let x = ps[0];
        assert(ps =~= seq![x]);
        assert(x.take(x.len() as int) =~= x);
        if keep(x) {
            lemma_parts_single(x);
        } else {
            assert(x =~= seq!['.']);
            assert(split_state(x, 0).1 =~= Seq::<char>::empty());
            assert(split_state(x, 1).1 =~= seq!['.']);
            assert(body_parts(x) =~= Seq::<Seq<char>>::empty());
            assert(parts(x) =~= seq![seq!['.']]);
        }
    } else if ps.len() > 1 {
        let init = ps.drop_last();
        assert forall|k: int| 0 <= k < init.len() implies (#[trigger] init[k]).len() > 0 && !init[k].contains('/') && (k
            > 0 ==> keep(init[k])) by {
            assert(init[k] == ps[k]);
        }
        lemma_parts_of_join(init);
        let a = join_parts(init).push('/');
        assert(join_parts(ps) =~= a + ps.last());
        lemma_parts_after_slash(a, ps.last());
        lemma_parts_push_slash(join_parts(init));
        assert(keep(ps[ps.len() - 1]));
        lemma_parts_single(ps.last());
        assert(body_parts(ps.last()) == parts(ps.last()));
        assert(ps =~= init + seq![ps.last()]);
        assert(init[0] == ps[0]);
        assert(join_parts(ps).take(ps[0].len() as int) =~= join_parts(init).take(ps[0].len() as int));
        if clean_parts(ps) {
            assert forall|k: int| 0 <= k < init.len() implies keep(#[trigger] init[k]) && !init[k].contains('/') by {
                assert(init[k] == ps[k]);
            }
            if join_parts(ps).len() >= 2 && join_parts(init).len() >= 2 {
                assert(join_parts(ps)[1] == join_parts(init)[1]);
            }
            if join_parts(init).len() == 1 {
                assert(join_parts(ps)[1] == '/');
            }
            assert(join_parts(ps)[0] == join_parts(init)[0]);
        }
    } else {
        assert(parts(Seq::<char>::empty()) =~= Seq::<Seq<char>>::empty()) by {
            assert(split_state(Seq::<char>::empty(), 0).1 =~= Seq::<char>::empty());
        }
    }
    if ps.len() > 0 && clean_parts(ps) {
        let x = ps[0];
        let j = join_parts(ps);
        assert(j[0] == j.take(x.len() as int)[0]);
        if x.len() > 1 {
            assert(j[1] == j.take(x.len() as int)[1]);
            assert(x.contains(x[1]));
        } else {
            assert(x.len() == 1);
            if x[0] == '.' {
                assert(x =~= seq!['.']);
            }
        }
    }
}

/// The empty path has no component.
proof fn lemma_parts_empty()
    ensures
        parts(Seq::<char>::empty()) == Seq::<Seq<char>>::empty(),
{
    assert(split_state(Seq::<char>::empty(), 0).1 =~= Seq::<char>::empty());
    assert(parts(Seq::<char>::empty()) =~= Seq::<Seq<char>>::empty());
}

/// The components found so far only grow as the text is read.
proof fn lemma_split_grows(s: Seq<char>, i: int, j: int)
    requires
        0 <= i <= j <= s.len(),
    ensures
        split_state(s, i).0.len() <= split_state(s, j).0.len(),
        split_state(s, i).0.len() > 0 ==> split_state(s, j).0[0] == split_state(s, i).0[0],
    decreases j - i,
{
    if i < j {
        lemma_split_grows(s, i, j - 1);
    }
}

/// A non-empty relative path has a component.
proof fn lemma_relative_has_parts(s: Seq<char>)
    requires
        s.len() > 0,
        s[0] != '/',
    ensures
        parts(s).len() > 0,
{
    if !lead_dot(s) {
        let j = if exists|k: int| 0 < k < s.len() && s[k] == '/' {
            choose|k: int| 0 < k < s.len() && s[k] == '/' && forall|m: int| 0 < m < k ==> s[m] != '/'
        } else {
            s.len() as int
        };
        if exists|k: int| 0 < k < s.len() && s[k] == '/' {
            lemma_first_slash(s);
        }
        let seg = s.take(j);
        assert(!seg.contains('/')) by {
            if seg.contains('/') {
                let m = choose|m: int| 0 <= m < seg.len() && seg[m] == '/';
                assert(s[m] == seg[m]);
            }
        }
        lemma_split_no_slash(seg, j);
        assert(seg.take(j) =~= seg);
        lemma_split_prefix(s, seg, j);
        assert(split_state(s, j) == (Seq::<Seq<char>>::empty(), seg));
        assert(keep(seg)) by {
            assert(seg[0] == s[0]);
            if seg =~= seq!['.'] {
                assert(j == 1);
                if j < s.len() {
                    assert(s[1] == '/');
                }
            }
        }
        if j < s.len() {
            assert(split_state(s, j + 1).0 =~= seq![seg]);
            lemma_split_grows(s, j + 1, s.len() as int);
        }
    }
}

/// The first separator after the start, when there is one.
proof fn lemma_first_slash(s: Seq<char>)
    requires
        exists|k: int| 0 < k < s.len() && s[k] == '/',
    ensures
        exists|k: int| 0 < k < s.len() && s[k] == '/' && forall|m: int| 0 < m < k ==> s[m] != '/',
    decreases s.len(),
{
    let k = choose|k: int| 0 < k < s.len() && s[k] == '/';
    lemma_first_slash_below(s, k);
}

/// Below a separator at `k` there is a first one.
proof fn lemma_first_slash_below(s: Seq<char>, k: int)
    requires
        0 < k < s.len(),
        s[k] == '/',
    ensures
        exists|j: int| 0 < j < s.len() && s[j] == '/' && forall|m: int| 0 < m < j ==> s[m] != '/',
    decreases k,
{
    if exists|m: int| 0 < m < k && s[m] == '/' {
        let m = choose|m: int| 0 < m < k && s[m] == '/';
        lemma_first_slash_below(s, m);
    } else {
        assert(forall|m: int| 0 < m < k ==> s[m] != '/');
    }
}

/// A path under `base` is recovered by joining `base` with its relative
/// form: taking a path relative to a directory and joining it back onto
/// that directory names the same location.
pub proof fn law_join_undoes_strip_prefix(p: Seq<char>, base: Seq<char>)
    requires
        starts_with(p, base),
    ensures
        strip_prefix(p, base) matches Some(rel) && same_path(join(base, rel), p),
{
    let nb = parts(base).len() as int;
    let tail = parts(p).skip(nb);
    let rel = join_parts(tail);
    lemma_parts_ok(p);
    assert forall|k: int| 0 <= k < tail.len() implies (#[trigger] tail[k]).len() > 0 && !tail[k].contains('/') && (k > 0
        ==> keep(tail[k])) by {
        assert(tail[k] == parts(p)[k + nb]);
    }
    lemma_parts_of_join(tail);
    assert(!is_absolute(rel)) by {
        if tail.len() > 0 {
            assert(rel[0] == rel.take(tail[0].len() as int)[0]);
            assert(tail[0].contains(tail[0][0]));
        }
    }
    assert(parts(p) =~= parts(base) + tail);
    if base.len() == 0 {
        lemma_parts_empty();
    } else {
        lemma_parts_join(base, rel);
        if nb == 0 && lead_dot(p) {
            if !is_absolute(base) {
                lemma_relative_has_parts(base);
            }
        }
        if nb > 0 || !lead_dot(p) {
            assert forall|k: int| 0 <= k < tail.len() implies keep(#[trigger] tail[k]) && !tail[k].contains('/') by {
                assert(tail[k] == parts(p)[k + nb]);
            }
        }
    }
}

/// The components of `name` joined onto a non-empty `base`, for a relative
/// `name`: a leading `.` of `name` is dropped.
proof fn lemma_parts_join(base: Seq<char>, name: Seq<char>)
    requires
        !is_absolute(name),
        base.len() > 0,
    ensures
        parts(join(base, name)) == parts(base) + body_parts(name),
        is_absolute(join(base, name)) == is_absolute(base),
{
    let j = join(base, name);
    if base.last() == '/' {
        assert(j == base + name);
        lemma_parts_after_slash(base, name);
        assert(j[0] == base[0]);
    } else {
        let a = base.push('/');
        assert(j =~= a + name);
        lemma_parts_after_slash(a, name);
        lemma_parts_push_slash(base);
        assert(j[0] == base[0]);
    }
}

/// Joining clean components onto `base` and taking the result relative to
/// `base` gives the joined components back.
pub proof fn law_strip_prefix_undoes_join(base: Seq<char>, ps: Seq<Seq<char>>)
    requires
        clean_parts(ps),
    ensures
        strip_prefix(join(base, join_parts(ps)), base) == Some(join_parts(ps)),
{
    let rel = join_parts(ps);
    lemma_parts_of_join(ps);
    assert(!is_absolute(rel)) by {
        if ps.len() > 0 {
            assert(rel[0] == rel.take(ps[0].len() as int)[0]);
            assert(ps[0].contains(ps[0][0]));
        }
    }
    let j = join(base, rel);
    if base.len() == 0 {
        lemma_parts_empty();
        assert(parts(j).take(0) =~= parts(base));
        assert(parts(j).skip(0) =~= ps);
    } else {
        lemma_parts_join(base, rel);
        assert(body_parts(rel) == ps);
        assert(parts(j).take(parts(base).len() as int) =~= parts(base));
        assert(parts(j).skip(parts(base).len() as int) =~= ps);
    }
}

/// What a path is relative to a base is made of real components, unless
/// the base has none and the path begins with a `.` segment.
pub proof fn lemma_strip_prefix_clean(p: Seq<char>, base: Seq<char>)
    requires
        starts_with(p, base),
        parts(base).len() > 0 || !lead_dot(p),
    ensures
        clean_parts(parts(p).skip(parts(base).len() as int)),
{
    lemma_parts_ok(p);
    let nb = parts(base).len() as int;
    let tail = parts(p).skip(nb);
    assert forall|k: int| 0 <= k < tail.len() implies keep(#[trigger] tail[k]) && !tail[k].contains('/') by {
        assert(tail[k] == parts(p)[k + nb]);
    }
}


/// A path relative to itself is empty.
pub proof fn lemma_strip_prefix_self(b: Seq<char>)
    ensures
        strip_prefix(b, b) == Some(Seq::<char>::empty()),
{
    assert(parts(b).take(parts(b).len() as int) =~= parts(b));
    assert(parts(b).skip(parts(b).len() as int) =~= Seq::<Seq<char>>::empty());
}

} // verus!

//! The order paths are kept in: component by component, as the standard
//! library's `Path` compares them. The root comes before any other
//! component, a leading `.` before `..`, and `..` before a named component;
//! named components compare by their text, and a path that is a proper
//! prefix of another comes first.

use vstd::prelude::*;
use crate::path::{is_absolute, parts, path_key, path_key_of, same_path};
use crate::text::{chars_of, lemma_lex_total, lemma_lex_trans, lex_less, lex_lt};

verus! {

/// Where a component sorts among the kinds of component: `.` first, then
/// `..`, then named ones.
pub open spec fn rank(c: Seq<char>) -> int {
    if c == seq!['.'] {
        1
    } else if c == seq!['.', '.'] {
        2
    } else {
        3
    }
}

/// Whether component `x` sorts before component `y`.
pub open spec fn comp_lt(x: Seq<char>, y: Seq<char>) -> bool {
    rank(x) < rank(y) || (rank(x) == rank(y) && lex_lt(x, y))
}

/// Whether component list `p` sorts before `q`: at the first component
/// where they differ, or `p` being a proper prefix of `q`.
pub open spec fn parts_lt(p: Seq<Seq<char>>, q: Seq<Seq<char>>) -> bool
    decreases p.len(),
{
    if p.len() == 0 {
        q.len() > 0
    } else if q.len() == 0 {
        false
    } else if p[0] != q[0] {
        comp_lt(p[0], q[0])
    } else {
        parts_lt(p.drop_first(), q.drop_first())
    }
}

/// Whether the path identified by `a` sorts before the one identified by
/// `b`. An absolute path starts with the root, which sorts before every
/// other component.
pub open spec fn key_lt(a: (bool, Seq<Seq<char>>), b: (bool, Seq<Seq<char>>)) -> bool {
    if a.0 == b.0 {
        parts_lt(a.1, b.1)
    } else if a.0 {
        b.1.len() > 0
    } else {
        a.1.len() == 0
    }
}

/// Whether path `a` sorts before path `b`.
pub open spec fn path_lt(a: Seq<char>, b: Seq<char>) -> bool {
    key_lt(path_key(a), path_key(b))
}

/// The component order is a strict total order.
proof fn lemma_comp_order(x: Seq<char>, y: Seq<char>, z: Seq<char>)
    ensures
        !comp_lt(x, x),
        !(comp_lt(x, y) && comp_lt(y, x)),
        x != y ==> comp_lt(x, y) || comp_lt(y, x),
        comp_lt(x, y) && comp_lt(y, z) ==> comp_lt(x, z),
{
    lemma_lex_total(x, y);
    if rank(x) == rank(y) && rank(x) < 3 && x != y {
        assert(false);
    }
    if comp_lt(x, y) && comp_lt(y, z) && rank(x) == rank(y) && rank(y) == rank(z) {
        lemma_lex_trans(x, y, z);
    }
}

/// The component-list order is a strict total order.
proof fn lemma_parts_order(p: Seq<Seq<char>>, q: Seq<Seq<char>>, r: Seq<Seq<char>>)
    ensures
        !parts_lt(p, p),
        !(parts_lt(p, q) && parts_lt(q, p)),
        p != q ==> parts_lt(p, q) || parts_lt(q, p),
        parts_lt(p, q) && parts_lt(q, r) ==> parts_lt(p, r),
    decreases p.len(),
{
    if p.len() > 0 {
        lemma_comp_order(p[0], p[0], p[0]);
        lemma_parts_order(p.drop_first(), p.drop_first(), p.drop_first());
    }
    if p.len() > 0 && q.len() > 0 {
        lemma_comp_order(p[0], q[0], q[0]);
        lemma_comp_order(q[0], p[0], p[0]);
        if r.len() > 0 {
            lemma_comp_order(p[0], q[0], r[0]);
            lemma_comp_order(p[0], r[0], r[0]);
            lemma_comp_order(r[0], p[0], p[0]);
        }
        lemma_parts_order(p.drop_first(), q.drop_first(), r.drop_first());
        if p != q && p[0] == q[0] {
            assert(p.drop_first() != q.drop_first()) by {
                if p.drop_first() == q.drop_first() {
                    assert(p =~= seq![p[0]] + p.drop_first());
                    assert(q =~= seq![q[0]] + q.drop_first());
                }
            }
        }
    } else if p.len() == 0 && q.len() == 0 {
        assert(p =~= q);
    }
}

/// The path order is a strict total order on locations: no path sorts
/// before itself or one naming the same location, of two different
/// locations one sorts first, and it is transitive.
pub proof fn law_path_order_is_total(a: Seq<char>, b: Seq<char>, c: Seq<char>)
    ensures
        same_path(a, b) ==> !path_lt(a, b) && !path_lt(b, a),
        !same_path(a, b) ==> path_lt(a, b) || path_lt(b, a),
        !(path_lt(a, b) && path_lt(b, a)),
        path_lt(a, b) && path_lt(b, c) ==> path_lt(a, c),
{
    lemma_parts_order(parts(a), parts(b), parts(c));
    lemma_parts_order(parts(a), parts(a), parts(a));
    lemma_parts_order(parts(b), parts(a), parts(c));
    if !same_path(a, b) && is_absolute(a) == is_absolute(b) {
        assert(parts(a) != parts(b));
    }
    if path_lt(a, b) && path_lt(b, c) {
        if is_absolute(a) == is_absolute(c) && is_absolute(a) != is_absolute(b) {
            if is_absolute(a) {
                assert(parts(b).len() == 0);
            } else {
                assert(parts(a).len() == 0);
            }
        }
        if is_absolute(a) == is_absolute(b) && is_absolute(a) != is_absolute(c) && !is_absolute(a) {
            assert(parts(b).len() == 0);
            if parts(a).len() > 0 {
                assert(parts_lt(parts(a), parts(b)));
            }
        }
        if is_absolute(a) != is_absolute(b) && is_absolute(b) == is_absolute(c) && is_absolute(a) {
            assert(parts(b).len() > 0);
        }
    }
}

/// Whether component `x` sorts before component `y`.
fn comp_less(x: &String, y: &String) -> (r: bool)
    ensures
        r == comp_lt(x@, y@),
{
    let rx = rank_of(x);
    let ry = rank_of(y);
    if rx != ry {
        return rx < ry;
    }
    let a = chars_of(x.as_str());
    let b = chars_of(y.as_str());
    lex_less(&a, &b)
}

/// The rank of a component.
fn rank_of(x: &String) -> (r: u8)
    ensures
        r == rank(x@),
{
    let c = chars_of(x.as_str());
    if c.len() == 1 && c[0] == '.' {
        assert(x@ =~= seq!['.']);
        1
    } else if c.len() == 2 && c[0] == '.' && c[1] == '.' {
        assert(x@ =~= seq!['.', '.']);
        2
    } else {
        proof {
            if x@ == seq!['.'] {
                assert(x@[0] == '.');
            }
            if x@ == seq!['.', '.'] {
                assert(x@[0] == '.' && x@[1] == '.');
            }
        }
        3
    }
}

/// The texts of a vector of strings.
pub open spec fn strs(v: Seq<String>) -> Seq<Seq<char>> {
    v.map_values(|s: String| s@)
}

/// Whether component list `p` sorts before `q`.
fn parts_less(p: &Vec<String>, q: &Vec<String>) -> (r: bool)
    ensures
        r == parts_lt(strs(p@), strs(q@)),
{
    let ghost sp = strs(p@);
    let ghost sq = strs(q@);
    let mut i: usize = 0;
    assert(sp.skip(0) =~= sp);
    assert(sq.skip(0) =~= sq);
    while i < p.len() && i < q.len()
        invariant
            i <= p@.len(),
            i <= q@.len(),
            sp == strs(p@),
            sq == strs(q@),
            parts_lt(sp, sq) == parts_lt(sp.skip(i as int), sq.skip(i as int)),
        decreases p@.len() - i,
    {
        let x = &p[i];
        let y = &q[i];
        assert(sp.skip(i as int)[0] == x@);
        assert(sq.skip(i as int)[0] == y@);
        proof {
            lemma_comp_order(x@, y@, y@);
        }
        if comp_less(x, y) {
            return true;
        }
        if comp_less(y, x) {
            return false;
        }
        assert(sp.skip(i as int).drop_first() =~= sp.skip(i + 1));
        assert(sq.skip(i as int).drop_first() =~= sq.skip(i + 1));
        i = i + 1;
    }
    i < q.len()
}

/// Whether path `a` sorts before path `b`.
pub fn path_less(a: &str, b: &str) -> (r: bool)
    ensures
        r == path_lt(a@, b@),
{
    let ka = path_key_of(a);
    let kb = path_key_of(b);
    assert(strs(ka.parts@) == crate::path::views(ka.parts@));
    assert(strs(kb.parts@) == crate::path::views(kb.parts@));
    if ka.absolute == kb.absolute {
        parts_less(&ka.parts, &kb.parts)
    } else if ka.absolute {
        kb.parts.len() > 0
    } else {
        ka.parts.len() == 0
    }
}

} // verus!

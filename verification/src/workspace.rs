//! The optional file-tree workspace: a root directory shown in the sidebar
//! plus the set of directories the user has expanded.

use vstd::prelude::*;
use crate::path::{
    file_name, file_name_of, join, join_parts, path_key, same_path, same_path_exec, starts_with, strip_prefix, join_exec,
    strip_prefix_exec,
};
use crate::path_order::{path_less, path_lt};
use crate::text::{chars_of, lex_less, lex_lt, to_lowercase, unicode_lowercase};

verus! {

broadcast use vstd::string::group_string_axioms;

/// What identifies a path (root flag and components).
pub type PathId = (bool, Seq<Seq<char>>);

/// The identities of a sequence of paths.
pub open spec fn keys_of(s: Seq<Seq<char>>) -> Set<PathId> {
    Set::new(|k: PathId| exists|i: int| 0 <= i < s.len() && path_key(s[i]) == k)
}

/// No two paths of `s` name the same location.
pub open spec fn distinct_paths(s: Seq<Seq<char>>) -> bool {
    forall|i: int, j: int| 0 <= i < s.len() && 0 <= j < s.len() && i != j ==> !same_path(s[i], s[j])
}

/// Where a path ends up when `from` is renamed to `to`: `from` itself
/// becomes `to`, a path under `from` moves under `to`, anything else stays.
pub open spec fn migrate(p: Seq<char>, from: Seq<char>, to: Seq<char>) -> Seq<char> {
    if same_path(p, from) {
        to
    } else {
        match strip_prefix(p, from) {
            Some(rest) => join(to, rest),
            None => p,
        }
    }
}

/// The texts of a vector of strings.
pub open spec fn texts(v: Seq<String>) -> Seq<Seq<char>> {
    v.map_values(|s: String| s@)
}

/// Each path of `s` sorts before every later one.
pub open spec fn sorted_paths(s: Seq<Seq<char>>) -> bool {
    forall|i: int, j: int| 0 <= i < j < s.len() ==> path_lt(#[trigger] s[i], #[trigger] s[j])
}

/// A directory opened in the sidebar, with the set of expanded sub-folders.
///
/// The expanded set is stored so the tree reopens exactly as the user left
/// it across sessions. The entries are kept in path order, and no two name
/// the same directory.
#[derive(Debug)]
pub struct Workspace {
    root: String,
    expanded: Vec<String>,
}

impl Workspace {
    #[verifier::type_invariant]
    spec fn inv(self) -> bool {
        &&& distinct_paths(texts(self.expanded@))
        &&& sorted_paths(texts(self.expanded@))
    }

    /// The root directory shown at the top of the file tree.
    pub closed spec fn root_view(&self) -> Seq<char> {
        self.root@
    }

    /// The expanded directories, in path order.
    pub closed spec fn entries(&self) -> Seq<Seq<char>> {
        texts(self.expanded@)
    }

    /// The set of expanded directories, by identity.
    pub open spec fn dirs(&self) -> Set<PathId> {
        keys_of(self.entries())
    }

    /// Create a workspace rooted at `root` with nothing expanded.
    pub fn new(root: String) -> (w: Workspace)
        ensures
            w.root_view() == root@,
            w.entries().len() == 0,
            w.dirs() == Set::<PathId>::empty(),
    {
        let w = Workspace { root, expanded: Vec::new() };
        assert(w.dirs() =~= Set::<PathId>::empty());
        w
    }

    /// A copy of this workspace.
    pub fn duplicate(&self) -> (w: Workspace)
        ensures
            w.root_view() == self.root_view(),
            w.entries() == self.entries(),
    {
        proof {
            use_type_invariant(self);
        }
        let mut list: Vec<String> = Vec::new();
        let mut i: usize = 0;
        while i < self.expanded.len()
            invariant
                i <= self.expanded@.len(),
                texts(list@) == texts(self.expanded@).take(i as int),
            decreases self.expanded@.len() - i,
        {
            let ghost before = list@;
            let item = self.expanded[i].clone();
            list.push(item);
            assert(list@ =~= before.push(item));
            assert(texts(list@) =~= texts(before).push(self.expanded@[i as int]@));
            assert(texts(list@) =~= texts(self.expanded@).take(i + 1));
            i = i + 1;
        }
        assert(texts(self.expanded@).take(self.expanded@.len() as int) =~= texts(self.expanded@));
        Workspace { root: self.root.clone(), expanded: list }
    }

    /// The root directory shown at the top of the file tree.
    pub fn root(&self) -> (r: &String)
        ensures
            r@ == self.root_view(),
    {
        &self.root
    }

    /// The expanded directories.
    pub fn expanded(&self) -> (r: &Vec<String>)
        ensures
            texts(r@) == self.entries(),
            sorted_paths(self.entries()),
    {
        proof {
            use_type_invariant(self);
        }
        &self.expanded
    }

    /// The index of the entry naming `dir`, if any.
    fn position(&self, dir: &str) -> (r: Option<usize>)
        ensures
            match r {
                Some(i) => i < self.entries().len() && same_path(self.entries()[i as int], dir@),
                None => forall|i: int| 0 <= i < self.entries().len() ==> !same_path(self.entries()[i], dir@),
            },
    {
        let mut i: usize = 0;
        while i < self.expanded.len()
            invariant
                i <= self.expanded@.len(),
                forall|k: int| 0 <= k < i ==> !same_path(texts(self.expanded@)[k], dir@),
            decreases self.expanded@.len() - i,
        {
            if same_path_exec(self.expanded[i].as_str(), dir) {
                return Some(i);
            }
            i = i + 1;
        }
        None
    }

    /// Where `dir` goes among the entries: before the first entry it sorts
    /// before, or at the end.
    fn insertion_point(&self, dir: &str) -> (r: usize)
        ensures
            r <= self.entries().len(),
            forall|j: int| 0 <= j < r ==> !path_lt(dir@, #[trigger] self.entries()[j]),
            r < self.entries().len() ==> path_lt(dir@, self.entries()[r as int]),
    {
        let mut i: usize = 0;
        while i < self.expanded.len()
            invariant
                i <= self.expanded@.len(),
                forall|j: int| 0 <= j < i ==> !path_lt(dir@, #[trigger] texts(self.expanded@)[j]),
            decreases self.expanded@.len() - i,
        {
            if path_less(dir, self.expanded[i].as_str()) {
                return i;
            }
            i = i + 1;
        }
        i
    }

    /// Whether `dir` is currently expanded.
    pub fn is_expanded(&self, dir: &str) -> (b: bool)
        ensures
            b == self.dirs().contains(path_key(dir@)),
    {
        let r = self.position(dir).is_some();
        proof {
            if self.dirs().contains(path_key(dir@)) {
                let i = choose|i: int| 0 <= i < self.entries().len() && path_key(self.entries()[i]) == path_key(dir@);
                assert(same_path(self.entries()[i], dir@));
            }
        }
        r
    }

    /// Record `dir` as expanded or collapsed. Returns `true` if the expanded
    /// set actually changed (so the caller can decide whether to persist).
    pub fn set_expanded(&mut self, dir: &str, expanded: bool) -> (changed: bool)
        ensures
            final(self).root_view() == old(self).root_view(),
            final(self).dirs() == if expanded {
                old(self).dirs().insert(path_key(dir@))
            } else {
                old(self).dirs().remove(path_key(dir@))
            },
            changed == (old(self).dirs().contains(path_key(dir@)) != expanded),
    {
        proof {
            use_type_invariant(&*self);
        }
        let pos = self.position(dir);
        let ghost before = texts(self.expanded@);
        proof {
            if old(self).dirs().contains(path_key(dir@)) {
                let i = choose|i: int| 0 <= i < before.len() && path_key(before[i]) == path_key(dir@);
                assert(same_path(before[i], dir@));
            }
        }
        match pos {
            Some(i) => {
                if expanded {
                    false
                } else {
                    let mut list = Vec::new();
                    std::mem::swap(&mut list, &mut self.expanded);
                    list.remove(i);
                    let ghost after = texts(list@);
                    assert(after =~= before.remove(i as int));
                    assert(keys_of(after) =~= keys_of(before).remove(path_key(dir@))) by {
                        assert forall|k: PathId| keys_of(after).contains(k) implies keys_of(before).remove(path_key(dir@)).contains(k) by {
                            let j = choose|j: int| 0 <= j < after.len() && path_key(after[j]) == k;
                            if j < i {
                                assert(after[j] == before[j]);
                                assert(!same_path(before[j], before[i as int]));
                            } else {
                                assert(after[j] == before[j + 1]);
                                assert(!same_path(before[j + 1], before[i as int]));
                            }
                        }
                        assert forall|k: PathId| keys_of(before).remove(path_key(dir@)).contains(k) implies keys_of(after).contains(k) by {
                            let j = choose|j: int| 0 <= j < before.len() && path_key(before[j]) == k;
                            assert(j != i);
                            if j < i {
                                assert(after[j] == before[j]);
                            } else {
                                assert(after[j - 1] == before[j]);
                            }
                        }
                    }
                    assert(distinct_paths(after)) by {
                        assert forall|a: int, b: int| 0 <= a < after.len() && 0 <= b < after.len() && a != b implies !same_path(after[a], after[b]) by {
                            let a2 = if a < i { a } else { a + 1 };
                            let b2 = if b < i { b } else { b + 1 };
                            assert(after[a] == before[a2]);
                            assert(after[b] == before[b2]);
                        }
                    }
                    assert(sorted_paths(after)) by {
                        assert forall|a: int, b: int| 0 <= a < b < after.len() implies path_lt(#[trigger] after[a], #[trigger] after[b]) by {
                            let a2 = if a < i { a } else { a + 1 };
                            let b2 = if b < i { b } else { b + 1 };
                            assert(after[a] == before[a2]);
                            assert(after[b] == before[b2]);
                        }
                    }
                    self.expanded = list;
                    true
                }
            },
            None => {
                if expanded {
                    let at = self.insertion_point(dir);
                    let mut list = Vec::new();
                    std::mem::swap(&mut list, &mut self.expanded);
                    list.insert(at, dir.to_owned());
                    let ghost after = texts(list@);
                    let ghost at_i = at as int;
                    assert(after =~= before.insert(at_i, dir@));
                    assert(forall|j: int| 0 <= j < at_i ==> after[j] == before[j]);
                    assert(forall|j: int| at_i < j < after.len() ==> after[j] == before[j - 1]);
                    assert(after[at_i] == dir@);
                    assert(keys_of(after) =~= keys_of(before).insert(path_key(dir@))) by {
                        assert forall|k: PathId| keys_of(after).contains(k) implies keys_of(before).insert(path_key(dir@)).contains(k) by {
                            let j = choose|j: int| 0 <= j < after.len() && path_key(after[j]) == k;
                            if j < at_i {
                                assert(after[j] == before[j]);
                            } else if j > at_i {
                                assert(after[j] == before[j - 1]);
                            }
                        }
                        assert forall|k: PathId| keys_of(before).insert(path_key(dir@)).contains(k) implies keys_of(after).contains(k) by {
                            if k == path_key(dir@) {
                                assert(after[at_i] == dir@);
                            } else {
                                let j = choose|j: int| 0 <= j < before.len() && path_key(before[j]) == k;
                                if j < at_i {
                                    assert(after[j] == before[j]);
                                } else {
                                    assert(after[j + 1] == before[j]);
                                }
                            }
                        }
                    }
                    assert(distinct_paths(after)) by {
                        assert forall|a: int, b: int| 0 <= a < after.len() && 0 <= b < after.len() && a != b implies !same_path(after[a], after[b]) by {
                            let a2 = if a < at_i { a } else { a - 1 };
                            let b2 = if b < at_i { b } else { b - 1 };
                            if a != at_i && b != at_i {
                                assert(after[a] == before[a2]);
                                assert(after[b] == before[b2]);
                            } else if a == at_i {
                                assert(after[b] == before[b2]);
                            } else {
                                assert(after[a] == before[a2]);
                            }
                        }
                    }
                    assert(sorted_paths(after)) by {
                        assert forall|a: int, b: int| 0 <= a < b < after.len() implies path_lt(#[trigger] after[a], #[trigger] after[b]) by {
                            if b < at_i {
                                assert(after[a] == before[a]);
                                assert(after[b] == before[b]);
                            } else if a > at_i {
                                assert(after[a] == before[a - 1]);
                                assert(after[b] == before[b - 1]);
                            } else if a == at_i {
                                assert(after[b] == before[b - 1]);
                                if b - 1 > at_i {
                                    crate::path_order::law_path_order_is_total(dir@, before[at_i], before[b - 1]);
                                }
                            } else if b == at_i {
                                assert(after[a] == before[a]);
                                crate::path_order::law_path_order_is_total(before[a], dir@, dir@);
                            } else {
                                assert(after[a] == before[a]);
                                assert(after[b] == before[b - 1]);
                            }
                        }
                    }
                    self.expanded = list;
                    true
                } else {
                    assert(keys_of(before) =~= keys_of(before).remove(path_key(dir@)));
                    false
                }
            },
        }
    }

    /// A workspace rooted at `root` with the given directories expanded
    /// (repeats collapse into one entry), as when it is read back from a
    /// saved session.
    pub fn from_parts(root: String, dirs: Vec<String>) -> (w: Workspace)
        ensures
            w.root_view() == root@,
            w.dirs() == keys_of(texts(dirs@)),
    {
        let mut w = Workspace::new(root);
        let mut i: usize = 0;
        while i < dirs.len()
            invariant
                i <= dirs@.len(),
                w.root_view() == root@,
                w.dirs() == keys_of(texts(dirs@).take(i as int)),
            decreases dirs@.len() - i,
        {
            w.set_expanded(dirs[i].as_str(), true);
            proof {
                let t = texts(dirs@);
                assert(t.take(i + 1) =~= t.take(i as int).push(t[i as int]));
                lemma_keys_of_push(t.take(i as int), t[i as int]);
            }
            i = i + 1;
        }
        assert(texts(dirs@).take(dirs@.len() as int) =~= texts(dirs@));
        w
    }

    /// Move expanded entries along with a rename of `from` to `to`: `from`
    /// itself becomes `to`, and an entry under `from` moves under `to`.
    pub fn migrate_dirs(&mut self, from: &str, to: &str)
        ensures
            final(self).root_view() == old(self).root_view(),
            final(self).dirs() == keys_of(old(self).entries().map_values(|p: Seq<char>| migrate(p, from@, to@))),
    {
        let mut old_list = Vec::new();
        std::mem::swap(&mut old_list, &mut self.expanded);
        let ghost src = texts(old_list@);
        let ghost moved = src.map_values(|p: Seq<char>| migrate(p, from@, to@));
        assert(self.dirs() =~= keys_of(moved.take(0)));
        let mut i: usize = 0;
        while i < old_list.len()
            invariant
                i <= old_list@.len(),
                src == texts(old_list@),
                moved == src.map_values(|p: Seq<char>| migrate(p, from@, to@)),
                self.root_view() == old(self).root_view(),
                self.dirs() == keys_of(moved.take(i as int)),
            decreases old_list@.len() - i,
        {
            let d = old_list[i].as_str();
            let target = if same_path_exec(d, from) {
                to.to_owned()
            } else {
                match strip_prefix_exec(d, from) {
                    Some(rest) => join_exec(to, rest.as_str()),
                    None => d.to_owned(),
                }
            };
            assert(target@ == moved[i as int]);
            self.set_expanded(target.as_str(), true);
            proof {
                assert(moved.take(i + 1) =~= moved.take(i as int).push(moved[i as int]));
                lemma_keys_of_push(moved.take(i as int), moved[i as int]);
            }
            i = i + 1;
        }
        assert(moved.take(old_list@.len() as int) =~= moved);
    }

    /// Drop the entries whose flag in `keep` is false (entries that no longer
    /// point at a directory on disk). Returns whether anything was dropped.
    pub fn retain_dirs(&mut self, keep: &Vec<bool>) -> (dropped: bool)
        requires
            keep@.len() == old(self).entries().len(),
        ensures
            final(self).root_view() == old(self).root_view(),
            final(self).dirs() == keys_of(
                Seq::new(old(self).entries().len(), |i: int| i).filter(|i: int| keep@[i]).map_values(
                    |i: int| old(self).entries()[i],
                ),
            ),
            dropped == exists|i: int| 0 <= i < keep@.len() && !keep@[i],
    {
        let mut old_list = Vec::new();
        std::mem::swap(&mut old_list, &mut self.expanded);
        let ghost src = texts(old_list@);
        let ghost kept = Seq::new(src.len(), |i: int| i).filter(|i: int| keep@[i]).map_values(|i: int| src[i]);
        let mut dropped = false;
        let mut i: usize = 0;
        assert(self.dirs() =~= keys_of(kept_upto(src, keep@, 0)));
        while i < old_list.len()
            invariant
                i <= old_list@.len() == keep@.len(),
                src == texts(old_list@),
                self.root_view() == old(self).root_view(),
                self.dirs() == keys_of(kept_upto(src, keep@, i as int)),
                dropped == exists|k: int| 0 <= k < i && !keep@[k],
            decreases old_list@.len() - i,
        {
            if keep[i] {
                self.set_expanded(old_list[i].as_str(), true);
                proof {
                    lemma_keys_of_push(kept_upto(src, keep@, i as int), src[i as int]);
                }
            } else {
                dropped = true;
            }
            i = i + 1;
        }
        proof {
            lemma_kept_upto_full(src, keep@);
        }
        dropped
    }
}

/// The entries among the first `n` of `src` whose flag is set, in order.
pub open spec fn kept_upto(src: Seq<Seq<char>>, keep: Seq<bool>, n: int) -> Seq<Seq<char>>
    decreases n,
{
    if n <= 0 {
        Seq::empty()
    } else if keep[n - 1] {
        kept_upto(src, keep, n - 1).push(src[n - 1])
    } else {
        kept_upto(src, keep, n - 1)
    }
}

/// Keeping entries by flag, written out recursively, is the filter over
/// indices.
proof fn lemma_kept_upto_full(src: Seq<Seq<char>>, keep: Seq<bool>)
    requires
        keep.len() == src.len(),
    ensures
        kept_upto(src, keep, src.len() as int) == Seq::new(src.len(), |i: int| i).filter(|i: int| keep[i]).map_values(|i: int| src[i]),
{
    lemma_kept_upto_filter(src, keep, src.len() as int);
}

proof fn lemma_kept_upto_filter(src: Seq<Seq<char>>, keep: Seq<bool>, n: int)
    requires
        0 <= n <= src.len(),
        keep.len() == src.len(),
    ensures
        kept_upto(src, keep, n) == Seq::new(n as nat, |i: int| i).filter(|i: int| keep[i]).map_values(|i: int| src[i]),
    decreases n,
{
    let idx = Seq::new(n as nat, |i: int| i);
    let f = |i: int| keep[i];
    if n == 0 {
        assert(idx =~= Seq::<int>::empty());
        assert(idx.filter(f) =~= Seq::<int>::empty());
    } else {
        lemma_kept_upto_filter(src, keep, n - 1);
        let prev = Seq::new((n - 1) as nat, |i: int| i);
        assert(idx.drop_last() =~= prev);
        assert(idx.filter(f) == if f(idx.last()) { idx.drop_last().filter(f).push(idx.last()) } else { idx.drop_last().filter(f) }) by {
            reveal_with_fuel(Seq::filter, 1);
        }
        if keep[n - 1] {
            assert(idx.filter(f).map_values(|i: int| src[i]) =~= prev.filter(f).map_values(|i: int| src[i]).push(src[n - 1]));
        }
    }
}

/// Adding one path adds its identity.
pub proof fn lemma_keys_of_push(s: Seq<Seq<char>>, p: Seq<char>)
    ensures
        keys_of(s.push(p)) == keys_of(s).insert(path_key(p)),
{
    let t = s.push(p);
    assert forall|k: PathId| keys_of(t).contains(k) implies keys_of(s).insert(path_key(p)).contains(k) by {
        let j = choose|j: int| 0 <= j < t.len() && path_key(t[j]) == k;
        if j < s.len() {
            assert(t[j] == s[j]);
        }
    }
    assert forall|k: PathId| keys_of(s).insert(path_key(p)).contains(k) implies keys_of(t).contains(k) by {
        if k == path_key(p) {
            assert(t[s.len() as int] == p);
        } else {
            let j = choose|j: int| 0 <= j < s.len() && path_key(s[j]) == k;
            assert(t[j] == s[j]);
        }
    }
    assert(keys_of(t) =~= keys_of(s).insert(path_key(p)));
}


/// The key a directory listing is sorted by: the entry's file name,
/// lowercased (empty when the path has no file name).
pub open spec fn name_key(p: Seq<char>) -> Seq<char> {
    match file_name(p) {
        Some(n) => unicode_lowercase(n),
        None => Seq::empty(),
    }
}

/// The entries of `s` whose sort key is `k`, in order.
pub open spec fn with_key(s: Seq<Seq<char>>, k: Seq<char>) -> Seq<Seq<char>>
    decreases s.len(),
{
    if s.len() == 0 {
        Seq::empty()
    } else if name_key(s.last()) == k {
        with_key(s.drop_last(), k).push(s.last())
    } else {
        with_key(s.drop_last(), k)
    }
}

/// Whether the entries of `s` are in order of their sort keys.
pub open spec fn sorted_by_name(s: Seq<Seq<char>>) -> bool {
    forall|i: int, j: int| 0 <= i < j < s.len() ==> !lex_lt(name_key(s[j]), name_key(s[i]))
}

/// Keeping the entries with one key distributes over concatenation.
proof fn lemma_with_key_concat(a: Seq<Seq<char>>, b: Seq<Seq<char>>, k: Seq<char>)
    ensures
        with_key(a + b, k) == with_key(a, k) + with_key(b, k),
    decreases b.len(),
{
    if b.len() == 0 {
        assert(a + b =~= a);
        assert(with_key(a, k) + with_key(b, k) =~= with_key(a, k));
    } else {
        assert((a + b).drop_last() =~= a + b.drop_last());
        assert((a + b).last() == b.last());
        lemma_with_key_concat(a, b.drop_last(), k);
        if name_key(b.last()) == k {
            assert(with_key(a, k) + with_key(b.drop_last(), k).push(b.last()) =~= (with_key(a, k) + with_key(
                b.drop_last(),
                k,
            )).push(b.last()));
        }
    }
}

/// Keeping the entries with key `k` of a single entry.
proof fn lemma_with_key_single(x: Seq<char>, k: Seq<char>)
    ensures
        with_key(seq![x], k) == if name_key(x) == k {
            seq![x]
        } else {
            Seq::<Seq<char>>::empty()
        },
{
    let s = seq![x];
    assert(s.drop_last() =~= Seq::<Seq<char>>::empty());
    assert(s.last() == x);
    assert(with_key(s.drop_last(), k) == Seq::<Seq<char>>::empty());
    assert(Seq::<Seq<char>>::empty().push(x) =~= seq![x]);
}

/// No entry of `s` has key `k`, so keeping those with key `k` keeps nothing.
proof fn lemma_with_key_none(s: Seq<Seq<char>>, k: Seq<char>)
    requires
        forall|m: int| 0 <= m < s.len() ==> name_key(#[trigger] s[m]) != k,
    ensures
        with_key(s, k) == Seq::<Seq<char>>::empty(),
    decreases s.len(),
{
    if s.len() > 0 {
        assert(name_key(s[s.len() - 1]) != k);
        lemma_with_key_none(s.drop_last(), k);
    }
}

/// The sort key of a path.
fn name_key_of(p: &str) -> (k: Vec<char>)
    ensures
        k@ == name_key(p@),
{
    match file_name_of(p) {
        Some(n) => {
            let lower = to_lowercase(n.as_str());
            chars_of(lower.as_str())
        },
        None => Vec::new(),
    }
}

/// `paths` sorted case-insensitively by file name, keeping the order of
/// entries whose names compare equal.
///
/// The result is in key order, and for every key it holds exactly the
/// entries of `paths` with that key, in the order they came in; together
/// these fix the result.
pub fn sort_by_name(paths: Vec<String>) -> (r: Vec<String>)
    ensures
        sorted_by_name(texts(r@)),
        forall|k: Seq<char>| #[trigger] with_key(texts(r@), k) == with_key(texts(paths@), k),
{
    let mut out: Vec<String> = Vec::new();
    let mut keys: Vec<Vec<char>> = Vec::new();
    let mut i: usize = 0;
    while i < paths.len()
        invariant
            i <= paths@.len(),
            keys@.len() == out@.len(),
            forall|m: int| 0 <= m < keys@.len() ==> (#[trigger] keys@[m])@ == name_key(out@[m]@),
            sorted_by_name(texts(out@)),
            forall|k: Seq<char>| #[trigger] with_key(texts(out@), k) == with_key(texts(paths@.take(i as int)), k),
        decreases paths@.len() - i,
    {
        let p = paths[i].clone();
        let key = name_key_of(p.as_str());
        let mut pos = out.len();
        while pos > 0 && lex_less(&key, &keys[pos - 1])
            invariant
                pos <= out@.len() == keys@.len(),
                key@ == name_key(p@),
                forall|m: int| 0 <= m < keys@.len() ==> (#[trigger] keys@[m])@ == name_key(out@[m]@),
                forall|m: int| pos <= m < out@.len() ==> lex_lt(key@, #[trigger] keys@[m]@),
            decreases pos,
        {
            pos = pos - 1;
        }
        let ghost before = texts(out@);
        let ghost bkeys = keys@;
        proof {
            assert forall|m: int| pos <= m < before.len() implies lex_lt(name_key(p@), name_key(#[trigger] before[m])) by {
                assert(bkeys[m]@ == name_key(out@[m]@));
            }
            if pos > 0 {
                assert(!lex_lt(name_key(p@), name_key(before[pos - 1]))) by {
                    assert(bkeys[pos - 1]@ == name_key(out@[pos - 1]@));
                }
            }
        }
        out.insert(pos, p);
        keys.insert(pos, key);
        proof {
            let after = texts(out@);
            assert(after =~= before.take(pos as int) + seq![p@] + before.skip(pos as int));
            assert forall|m: int| 0 <= m < keys@.len() implies (#[trigger] keys@[m])@ == name_key(out@[m]@) by {
                if m < pos {
                    assert(keys@[m] == bkeys[m]);
                } else if m > pos {
                    assert(keys@[m] == bkeys[m - 1]);
                }
            }
            assert forall|a: int, b: int| 0 <= a < b < after.len() implies !lex_lt(name_key(after[b]), name_key(after[a])) by {
                let kp = name_key(p@);
                if b < pos {
                    assert(after[a] == before[a] && after[b] == before[b]);
                } else if b == pos {
                    assert(after[a] == before[a]);
                    if a < pos - 1 {
                        assert(!lex_lt(name_key(before[pos - 1]), name_key(before[a])));
                    } else {
                        crate::text::lemma_lex_total(name_key(before[a]), name_key(before[a]));
                    }
                    crate::text::lemma_lex_le_trans(name_key(before[a]), name_key(before[pos - 1]), kp);
                } else if a == pos {
                    assert(after[b] == before[b - 1]);
                    crate::text::lemma_lex_total(kp, name_key(before[b - 1]));
                } else if a < pos {
                    assert(after[a] == before[a] && after[b] == before[b - 1]);
                    crate::text::lemma_lex_total(kp, name_key(before[b - 1]));
                    if a < pos - 1 {
                        assert(!lex_lt(name_key(before[pos - 1]), name_key(before[a])));
                    } else {
                        crate::text::lemma_lex_total(name_key(before[a]), name_key(before[a]));
                    }
                    crate::text::lemma_lex_le_trans(name_key(before[a]), name_key(before[pos - 1]), kp);
                    crate::text::lemma_lex_le_trans(name_key(before[a]), kp, name_key(before[b - 1]));
                } else {
                    assert(after[a] == before[a - 1] && after[b] == before[b - 1]);
                }
            }
            let done = texts(paths@.take(i + 1));
            assert(done =~= texts(paths@.take(i as int)).push(p@));
            assert(done.drop_last() =~= texts(paths@.take(i as int)));
            assert(done.last() == p@);
            assert forall|k: Seq<char>| #[trigger] with_key(after, k) == with_key(done, k) by {
                lemma_with_key_concat(before.take(pos as int) + seq![p@], before.skip(pos as int), k);
                lemma_with_key_concat(before.take(pos as int), seq![p@], k);
                lemma_with_key_concat(before.take(pos as int), before.skip(pos as int), k);
                assert(before =~= before.take(pos as int) + before.skip(pos as int));
                assert(seq![p@].drop_last() =~= Seq::<Seq<char>>::empty());
                if name_key(p@) == k {
                    let rest = before.skip(pos as int);
                    assert forall|m: int| 0 <= m < rest.len() implies name_key(#[trigger] rest[m]) != k by {
                        assert(rest[m] == before[m + pos]);
                        crate::text::lemma_lex_total(k, name_key(before[m + pos]));
                    }
                    lemma_with_key_none(rest, k);
                    assert(with_key(before.take(pos as int), k) + with_key(rest, k) =~= with_key(before.take(pos as int), k));
                    lemma_with_key_single(p@, k);
                    assert(with_key(done, k) =~= with_key(texts(paths@.take(i as int)), k).push(p@));
                    assert(with_key(after, k) =~= with_key(before.take(pos as int), k).push(p@));
                } else {
                    lemma_with_key_single(p@, k);
                    assert(with_key(done, k) == with_key(texts(paths@.take(i as int)), k));
                    assert(with_key(after, k) =~= with_key(before.take(pos as int), k) + with_key(before.skip(pos as int), k));
                }
            }
        }
        i = i + 1;
    }
    assert(paths@.take(paths@.len() as int) =~= paths@);
    out
}

/// The children of a directory split into sub-directories and files (each
/// entry is a path with whether it is a directory), each part sorted by
/// name as [`sort_by_name`] does.
pub fn split_entries(entries: Vec<(String, bool)>) -> (r: (Vec<String>, Vec<String>))
    ensures
        sorted_by_name(texts(r.0@)),
        sorted_by_name(texts(r.1@)),
        forall|k: Seq<char>| #[trigger] with_key(texts(r.0@), k) == with_key(entries_of(entries@, true), k),
        forall|k: Seq<char>| #[trigger] with_key(texts(r.1@), k) == with_key(entries_of(entries@, false), k),
{
    let mut dirs: Vec<String> = Vec::new();
    let mut files: Vec<String> = Vec::new();
    let mut i: usize = 0;
    while i < entries.len()
        invariant
            i <= entries@.len(),
            texts(dirs@) == entries_of(entries@.take(i as int), true),
            texts(files@) == entries_of(entries@.take(i as int), false),
        decreases entries@.len() - i,
    {
        let (p, is_dir) = (entries[i].0.clone(), entries[i].1);
        assert(entries@.take(i + 1).drop_last() =~= entries@.take(i as int));
        assert(entries@.take(i + 1).last() == entries@[i as int]);
        if is_dir {
            let ghost before = dirs@;
            dirs.push(p);
            assert(texts(dirs@) =~= texts(before).push(p@));
        } else {
            let ghost before = files@;
            files.push(p);
            assert(texts(files@) =~= texts(before).push(p@));
        }
        i = i + 1;
    }
    assert(entries@.take(entries@.len() as int) =~= entries@);
    (sort_by_name(dirs), sort_by_name(files))
}

/// The paths of the entries whose directory flag is `dir`, in order.
pub open spec fn entries_of(s: Seq<(String, bool)>, dir: bool) -> Seq<Seq<char>>
    decreases s.len(),
{
    if s.len() == 0 {
        Seq::empty()
    } else if s.last().1 == dir {
        entries_of(s.drop_last(), dir).push(s.last().0@)
    } else {
        entries_of(s.drop_last(), dir)
    }
}


/// Renaming a directory moves everything under it to the same place under
/// the new name: a path's position relative to the renamed directory is its
/// position relative to the new one.
pub proof fn law_rename_keeps_relative_position(p: Seq<char>, from: Seq<char>, to: Seq<char>)
    requires
        starts_with(p, from),
        crate::path::parts(from).len() > 0 || !crate::path::lead_dot(p),
    ensures
        strip_prefix(migrate(p, from, to), to) == strip_prefix(p, from),
{
    let tail = crate::path::parts(p).skip(crate::path::parts(from).len() as int);
    crate::path::lemma_strip_prefix_clean(p, from);
    if same_path(p, from) {
        assert(tail =~= Seq::<Seq<char>>::empty());
        crate::path::lemma_strip_prefix_self(to);
    } else {
        crate::path::law_strip_prefix_undoes_join(to, tail);
    }
}

} // verus!

//! An ordered prefix tree keyed by `Charlike` symbols.
//!
//! Children are kept sorted by the strict symbol order, and insertion
//! rejects a key sequence that already carries data.  A trie denotes a
//! partial map from symbol sequences to values, given by `spec_lookup`.

use vstd::prelude::*;

use crate::flat::{
    Charlike, CharlikeV, charlike_eq, charlike_lt, expansion_shaped, spec_charlike_lt,
    spec_charlike_views, spec_str_lt,
};

verus! {

/// A node of the trie: optional data, and children sorted by key.
#[derive(Debug)]
pub struct Trie<V> {
    /// If this node has data, here it is.
    pub data: Option<V>,
    /// The outgoing edges, in strictly increasing key order.
    pub children: Vec<(Charlike, Trie<V>)>,
}

impl<V> Trie<V> {
    /// Well-formedness: children keys strictly increase, and every child is
    /// well-formed.
    pub open spec fn wf(self) -> bool
        decreases self,
    {
        &&& forall|i: int, j: int|
            0 <= i < j < self.children@.len() ==> spec_charlike_lt(
                #[trigger] self.children@[i].0@,
                #[trigger] self.children@[j].0@,
            )
        &&& forall|i: int|
            0 <= i < self.children@.len() ==> (#[trigger] self.children@[i].1).wf()
    }

    /// The value stored under a key sequence, if any.
    pub open spec fn spec_lookup(self, path: Seq<CharlikeV>) -> Option<V>
        decreases self,
    {
        if path.len() == 0 {
            self.data
        } else {
            spec_lookup_children(self.children@, path)
        }
    }
}

/// The value stored under a non-empty key sequence, looked up among a list
/// of children: the first child whose key is the sequence's head is
/// descended into.
pub open spec fn spec_lookup_children<V>(cs: Seq<(Charlike, Trie<V>)>, path: Seq<CharlikeV>) -> Option<V>
    decreases cs,
{
    if cs.len() == 0 {
        None
    } else if cs[0].0@ == path[0] {
        cs[0].1.spec_lookup(path.drop_first())
    } else {
        spec_lookup_children(cs.drop_first(), path)
    }
}

/// The position of the first child carrying the given key, if any.
pub open spec fn spec_find_key<V>(cs: Seq<(Charlike, Trie<V>)>, k: CharlikeV) -> Option<int>
    decreases cs.len(),
{
    if cs.len() == 0 {
        None
    } else if cs[0].0@ == k {
        Some(0)
    } else {
        match spec_find_key(cs.drop_first(), k) {
            None => None,
            Some(i) => Some(i + 1),
        }
    }
}

/// Looking a non-empty sequence up among children descends into the first
/// child keyed by its head, and fails without one.
pub proof fn lemma_lookup_children_is_find<V>(cs: Seq<(Charlike, Trie<V>)>, path: Seq<CharlikeV>)
    requires
        path.len() > 0,
    ensures
        match spec_find_key(cs, path[0]) {
            None => spec_lookup_children(cs, path) is None,
            Some(i) => {
                &&& 0 <= i < cs.len()
                &&& cs[i].0@ == path[0]
                &&& forall|j: int| 0 <= j < i ==> (#[trigger] cs[j].0@) != path[0]
                &&& spec_lookup_children(cs, path) == cs[i].1.spec_lookup(path.drop_first())
            },
        },
    decreases cs.len(),
{
    if cs.len() == 0 {
    } else if cs[0].0@ == path[0] {
    } else {
        lemma_lookup_children_is_find(cs.drop_first(), path);
        match spec_find_key(cs.drop_first(), path[0]) {
            None => {},
            Some(i) => {
                assert forall|j: int| 0 <= j < i + 1 implies (#[trigger] cs[j].0@)
                    != path[0] by {
                    if j > 0 {
                        assert(cs.drop_first()[j - 1] == cs[j]);
                    }
                }
                assert(cs.drop_first()[i] == cs[i + 1]);
            },
        }
    }
}

/// A key that occurs first at a position is found at that position.
pub proof fn lemma_find_key_at<V>(cs: Seq<(Charlike, Trie<V>)>, k: CharlikeV, idx: int)
    requires
        0 <= idx < cs.len(),
        cs[idx].0@ == k,
        forall|j: int| 0 <= j < idx ==> (#[trigger] cs[j].0@) != k,
    ensures
        spec_find_key(cs, k) == Some(idx),
    decreases cs.len(),
{
    if idx == 0 {
    } else {
        lemma_find_key_at(cs.drop_first(), k, idx - 1);
    }
}

/// A key that no child carries is not found.
pub proof fn lemma_find_key_none<V>(cs: Seq<(Charlike, Trie<V>)>, k: CharlikeV)
    requires
        forall|j: int| 0 <= j < cs.len() ==> (#[trigger] cs[j].0@) != k,
    ensures
        spec_find_key(cs, k) is None,
    decreases cs.len(),
{
    if cs.len() > 0 {
        lemma_find_key_none(cs.drop_first(), k);
    }
}

/// A key is found among children exactly when some child carries it.
pub proof fn lemma_find_key_none_iff<V>(cs: Seq<(Charlike, Trie<V>)>, k: CharlikeV)
    ensures
        (spec_find_key(cs, k) is None) <==> (forall|j: int|
            0 <= j < cs.len() ==> (#[trigger] cs[j].0@) != k),
    decreases cs.len(),
{
    if cs.len() > 0 {
        lemma_find_key_none_iff(cs.drop_first(), k);
        if spec_find_key(cs, k) is None {
            assert forall|j: int| 0 <= j < cs.len() implies (#[trigger] cs[j].0@) != k by {
                if j > 0 {
                    assert(cs.drop_first()[j - 1] == cs[j]);
                }
            }
        } else {
            if cs[0].0@ != k {
                assert(!(spec_find_key(cs.drop_first(), k) is None));
                let j0 = choose|j: int|
                    0 <= j < cs.drop_first().len() && (#[trigger] cs.drop_first()[j].0@) == k;
                assert(cs[j0 + 1] == cs.drop_first()[j0]);
            }
        }
    }
}

/// The lexicographic order on character sequences never holds both ways.
pub proof fn lemma_str_lt_asymmetric(a: Seq<char>, b: Seq<char>)
    ensures
        !(spec_str_lt(a, b) && spec_str_lt(b, a)),
    decreases a.len(),
{
    if a.len() > 0 && b.len() > 0 && a[0] == b[0] {
        lemma_str_lt_asymmetric(a.drop_first(), b.drop_first());
    }
}

/// Two character sequences are ordered one way or the other, or equal.
pub proof fn lemma_str_lt_total(a: Seq<char>, b: Seq<char>)
    ensures
        spec_str_lt(a, b) || spec_str_lt(b, a) || a == b,
    decreases a.len(),
{
    if a.len() == 0 && b.len() == 0 {
        assert(a =~= b);
    } else if a.len() > 0 && b.len() > 0 && a[0] == b[0] {
        lemma_str_lt_total(a.drop_first(), b.drop_first());
        if a.drop_first() == b.drop_first() {
            assert(a =~= seq![a[0]] + a.drop_first());
            assert(b =~= seq![b[0]] + b.drop_first());
        }
    }
}

/// The lexicographic order on character sequences is transitive.
pub proof fn lemma_str_lt_transitive(a: Seq<char>, b: Seq<char>, c: Seq<char>)
    requires
        spec_str_lt(a, b),
        spec_str_lt(b, c),
    ensures
        spec_str_lt(a, c),
    decreases a.len(),
{
    if a.len() > 0 && b.len() > 0 && c.len() > 0 && a[0] == b[0] && b[0] == c[0] {
        lemma_str_lt_transitive(a.drop_first(), b.drop_first(), c.drop_first());
    }
}

/// The symbol order never holds both ways.
pub proof fn lemma_charlike_lt_asymmetric(a: CharlikeV, b: CharlikeV)
    ensures
        !(spec_charlike_lt(a, b) && spec_charlike_lt(b, a)),
{
    match (a, b) {
        (CharlikeV::Dynamic(x), CharlikeV::Dynamic(y)) => {
            lemma_str_lt_asymmetric(x, y);
        },
        _ => {},
    }
}

/// Two symbols are ordered one way or the other, or equal.
pub proof fn lemma_charlike_lt_total(a: CharlikeV, b: CharlikeV)
    ensures
        spec_charlike_lt(a, b) || spec_charlike_lt(b, a) || a == b,
{
    match (a, b) {
        (CharlikeV::Dynamic(x), CharlikeV::Dynamic(y)) => {
            lemma_str_lt_total(x, y);
        },
        _ => {},
    }
}

/// The symbol order is transitive.
pub proof fn lemma_charlike_lt_transitive(a: CharlikeV, b: CharlikeV, c: CharlikeV)
    requires
        spec_charlike_lt(a, b),
        spec_charlike_lt(b, c),
    ensures
        spec_charlike_lt(a, c),
{
    match (a, b) {
        (CharlikeV::Dynamic(x), CharlikeV::Dynamic(y)) => {
            match c {
                CharlikeV::Dynamic(z) => {
                    lemma_str_lt_transitive(x, y, z);
                },
                _ => {},
            }
        },
        _ => {},
    }
}


/// The structural invariant path expansions give a trie: every node under a
/// dynamic edge has exactly one child, keyed by a separator, since a
/// capture is always followed by a separator.
pub open spec fn dyn_sep_wf<V>(t: Trie<V>) -> bool
    decreases t,
{
    &&& forall|i: int|
        0 <= i < t.children@.len() ==> ((#[trigger] t.children@[i].0@) is Dynamic
            ==> t.children@[i].1.children@.len() == 1 && t.children@[i].1.children@[0].0@
            is Separator)
    &&& forall|i: int| 0 <= i < t.children@.len() ==> dyn_sep_wf((#[trigger] t.children@[i]).1)
}

/// A shaped key sequence stays shaped when its head is dropped.
pub proof fn lemma_shaped_drop(path: Seq<Charlike>)
    requires
        expansion_shaped(spec_charlike_views(path)),
        path.len() > 0,
    ensures
        expansion_shaped(spec_charlike_views(path.subrange(1, path.len() as int))),
{
    let rest = path.subrange(1, path.len() as int);
    lemma_charlike_views_elementwise(path);
    lemma_charlike_views_elementwise(rest);
    assert forall|i: int|
        0 <= i < spec_charlike_views(rest).len() implies ((#[trigger] spec_charlike_views(rest)[i])
        is Dynamic ==> i + 1 < spec_charlike_views(rest).len() && spec_charlike_views(rest)[i + 1]
        is Separator) by {
        assert(spec_charlike_views(rest)[i] == rest[i]@);
        assert(rest[i] == path[i + 1]);
        assert(spec_charlike_views(path)[i + 1] == path[i + 1]@);
        if spec_charlike_views(rest)[i] is Dynamic {
            assert(spec_charlike_views(path)[i + 2] is Separator);
            assert(spec_charlike_views(rest)[i + 1] == rest[i + 1]@);
            assert(rest[i + 1] == path[i + 2]);
        }
    }
}

impl<V> Trie<V> {
    /// Build a new, empty trie.
    pub fn new() -> (r: Trie<V>)
        ensures
            r.data is None,
            r.children@.len() == 0,
            r.wf(),
            forall|q: Seq<CharlikeV>| #[trigger] r.spec_lookup(q) is None,
    {
        let r = Trie { data: None, children: Vec::new() };
        proof {
            assert forall|q: Seq<CharlikeV>| #[trigger] r.spec_lookup(q) is None by {
                if q.len() != 0 {
                    assert(spec_lookup_children(r.children@, q) is None);
                }
            }
        }
        r
    }

    /// Whether the trie already carries data under this key sequence.
    pub fn has_path(&self, path: &[Charlike]) -> (r: bool)
        ensures
            r == (self.spec_lookup(spec_charlike_views(path@)) is Some),
        decreases *self,
    {
        proof {
            lemma_charlike_views_elementwise(path@);
        }
        if path.len() == 0 {
            self.data.is_some()
        } else {
            let ghost pv = spec_charlike_views(path@);
            let n = self.children.len();
            let mut idx: usize = 0;
            while idx < n
                invariant
                    n == self.children@.len(),
                    idx <= n,
                    path@.len() > 0,
                    pv == spec_charlike_views(path@),
                    pv.len() == path@.len(),
                    pv[0] == path@[0]@,
                    forall|j: int| 0 <= j < idx ==> (#[trigger] self.children@[j].0@) != pv[0],
                decreases n - idx,
            {
                if charlike_eq(&self.children[idx].0, &path[0]) {
                    let sub = self.children[idx].1.has_path(&path[1..path.len()]);
                    proof {
                        lemma_find_key_at(self.children@, pv[0], idx as int);
                        lemma_lookup_children_is_find(self.children@, pv);
                        lemma_charlike_views_elementwise(path@);
                        lemma_charlike_views_elementwise(path@.drop_first());
                        assert(path@.subrange(1, path@.len() as int) =~= path@.drop_first());
                        assert(spec_charlike_views(path@.drop_first()) =~= pv.drop_first());
                    }
                    return sub;
                }
                idx = idx + 1;
            }
            proof {
                lemma_find_key_none(self.children@, pv[0]);
                lemma_lookup_children_is_find(self.children@, pv);
            }
            false
        }
    }

    /// Store a value under a key sequence that carries none yet.  Children
    /// stay sorted; every other key sequence keeps its value.
    fn insert_new(self, path: &[Charlike], data: V) -> (r: Trie<V>)
        requires
            self.wf(),
            self.spec_lookup(spec_charlike_views(path@)) is None,
        ensures
            r.wf(),
            r.spec_lookup(spec_charlike_views(path@)) == Some(data),
            forall|q: Seq<CharlikeV>|
                q != spec_charlike_views(path@) ==> #[trigger] r.spec_lookup(q)
                    == self.spec_lookup(q),
            path@.len() == 0 ==> r.children@ == self.children@,
            (path@.len() > 0 && self.children@.len() == 1 && self.children@[0].0@ is Separator
                && path@[0]@ is Separator) ==> r.children@.len() == 1 && r.children@[0].0@
                is Separator,
            (path@.len() > 0 && self.children@.len() == 0) ==> r.children@.len() == 1
                && r.children@[0].0@ == path@[0]@,
            (dyn_sep_wf(self) && expansion_shaped(spec_charlike_views(path@))) ==> dyn_sep_wf(r),
        decreases path@.len(),
    {
        let ghost s0 = self;
        let ghost pv = spec_charlike_views(path@);
        proof {
            lemma_charlike_views_elementwise(path@);
        }
        let Trie { data: old_data, children } = self;
        if path.len() == 0 {
            let r = Trie { data: Some(data), children };
            proof {
                assert forall|q: Seq<CharlikeV>| q != pv implies #[trigger] r.spec_lookup(q)
                    == s0.spec_lookup(q) by {
                    if q.len() == 0 {
                        assert(q =~= pv);
                    }
                }
            }
            r
        } else {
            let ghost kv = path@[0]@;
            let n = children.len();
            let mut idx: usize = 0;
            while idx < n
                invariant
                    n == children@.len(),
                    idx <= n,
                    path@.len() > 0,
                    kv == path@[0]@,
                    children == s0.children,
                    forall|j: int|
                        0 <= j < idx ==> spec_charlike_lt(
                            (#[trigger] children@[j].0@),
                            kv,
                        ),
                ensures
                    idx <= n,
                    n == children@.len(),
                    children == s0.children,
                    forall|j: int|
                        0 <= j < idx ==> spec_charlike_lt(
                            (#[trigger] children@[j].0@),
                            kv,
                        ),
                    idx < n ==> !spec_charlike_lt(children@[idx as int].0@, kv),
                decreases n - idx,
            {
                if !charlike_lt(&children[idx].0, &path[0]) {
                    break;
                }
                idx = idx + 1;
            }
            proof {
                assert forall|j: int| 0 <= j < idx implies (#[trigger] children@[j].0@)
                    != kv by {
                    lemma_charlike_lt_asymmetric(children@[j].0@, kv);
                }
                lemma_charlike_views_elementwise(path@);
                lemma_charlike_views_elementwise(path@.drop_first());
                assert(path@.subrange(1, path@.len() as int) =~= path@.drop_first());
                assert(spec_charlike_views(path@.drop_first()) =~= pv.drop_first());
            }
            let found = if idx < n {
                charlike_eq(&children[idx].0, &path[0])
            } else {
                false
            };
            if found {
                proof {
                    lemma_find_key_at(children@, kv, idx as int);
                    lemma_lookup_children_is_find(children@, pv);
                }
                let mut cs = children;
                let (k, child) = cs.remove(idx);
                let ghost rest = path@.subrange(1, path@.len() as int);
                proof {
                    if dyn_sep_wf(s0) && expansion_shaped(pv) {
                        lemma_shaped_drop(path@);
                        lemma_charlike_views_elementwise(rest);
                    }
                }
                let child2 = child.insert_new(&path[1..path.len()], data);
                cs.insert(idx, (k, child2));
                let r = Trie { data: old_data, children: cs };
                proof {
                    assert(cs@ =~= s0.children@.update(idx as int, (k, child2)));
                    lemma_insert_new_update(s0, r, pv, idx as int, child2, data);
                    if s0.children@.len() == 1 && s0.children@[0].0@ is Separator && kv
                        is Separator {
                        assert(r.children@.len() == 1 && r.children@[0].0@ is Separator);
                    }
                    if dyn_sep_wf(s0) && expansion_shaped(pv) {
                        assert(rest.len() > 0 ==> spec_charlike_views(rest)[0] == rest[0]@);
                        if kv is Dynamic {
                            assert(pv[0] is Dynamic);
                            assert(pv[1] is Separator);
                            assert(rest.len() > 0);
                            assert(spec_charlike_views(rest)[0] == pv[1]);
                            assert(rest[0]@ is Separator);
                            assert(child.children@.len() == 1 && child.children@[0].0@
                                is Separator);
                            assert(child2.children@.len() == 1 && child2.children@[0].0@
                                is Separator);
                        }
                        assert forall|i: int| 0 <= i < r.children@.len() implies ((
                        #[trigger] r.children@[i].0@) is Dynamic ==> r.children@[i].1.children@
                            .len() == 1 && r.children@[i].1.children@[0].0@ is Separator) by {
                            if i != idx {
                                assert(r.children@[i] == s0.children@[i]);
                            }
                        }
                        assert forall|i: int| 0 <= i < r.children@.len() implies dyn_sep_wf(
                            (#[trigger] r.children@[i]).1,
                        ) by {
                            if i != idx {
                                assert(r.children@[i] == s0.children@[i]);
                            }
                        }
                        assert(dyn_sep_wf(r));
                    }
                }
                r
            } else {
                proof {
                    if n == 1 && s0.children@[0].0@ is Separator && kv is Separator {
                        assert(!spec_charlike_lt(s0.children@[0].0@, kv));
                        assert(idx == 0);
                        assert(false);
                    }
                    if dyn_sep_wf(s0) && expansion_shaped(pv) {
                        lemma_shaped_drop(path@);
                        lemma_charlike_views_elementwise(path@.subrange(1, path@.len() as int));
                    }
                }
                let ghost rest = path@.subrange(1, path@.len() as int);
                let fresh = Trie::new().insert_new(&path[1..path.len()], data);
                let mut cs = children;
                cs.insert(idx, (path[0].duplicate(), fresh));
                let r = Trie { data: old_data, children: cs };
                proof {
                    assert forall|j: int| 0 <= j < s0.children@.len() implies (
                    #[trigger] s0.children@[j].0@) != kv by {
                        if j >= idx {
                            if j == idx {
                                lemma_charlike_lt_total(s0.children@[j].0@, kv);
                            } else {
                                lemma_charlike_lt_total(s0.children@[idx as int].0@, kv);
                                lemma_charlike_lt_transitive(
                                    kv,
                                    s0.children@[idx as int].0@,
                                    s0.children@[j].0@,
                                );
                            }
                            lemma_charlike_lt_asymmetric(s0.children@[j].0@, kv);
                        } else {
                            lemma_charlike_lt_asymmetric(s0.children@[j].0@, kv);
                        }
                    }
                    lemma_insert_new_child(s0, r, pv, idx as int, fresh, data);
                    if s0.children@.len() == 0 {
                        assert(r.children@.len() == 1 && r.children@[0].0@ == kv);
                    }
                    if dyn_sep_wf(s0) && expansion_shaped(pv) {
                        if kv is Dynamic {
                            assert(pv[0] is Dynamic);
                            assert(pv[1] is Separator);
                            assert(rest.len() > 0);
                            assert(spec_charlike_views(rest)[0] == rest[0]@);
                            assert(spec_charlike_views(rest)[0] == pv[1]);
                            assert(fresh.children@.len() == 1 && fresh.children@[0].0@
                                is Separator);
                        }
                        assert forall|i: int| 0 <= i < r.children@.len() implies ((
                        #[trigger] r.children@[i].0@) is Dynamic ==> r.children@[i].1.children@
                            .len() == 1 && r.children@[i].1.children@[0].0@ is Separator) by {
                            if i < idx {
                                assert(r.children@[i] == s0.children@[i]);
                            } else if i > idx {
                                assert(r.children@[i] == s0.children@[i - 1]);
                            }
                        }
                        assert forall|i: int| 0 <= i < r.children@.len() implies dyn_sep_wf(
                            (#[trigger] r.children@[i]).1,
                        ) by {
                            if i < idx {
                                assert(r.children@[i] == s0.children@[i]);
                            } else if i > idx {
                                assert(r.children@[i] == s0.children@[i - 1]);
                            }
                        }
                        assert(dyn_sep_wf(r));
                    }
                }
                r
            }
        }
    }

    /// Adds the given element to the trie.  If an element already exists at
    /// that position, fails, returning the old trie and the element.
    pub fn add(self, path: &[Charlike], data: V) -> (r: Result<Trie<V>, (Trie<V>, V)>)
        requires
            self.wf(),
        ensures
            match r {
                Ok(t) => {
                    &&& self.spec_lookup(spec_charlike_views(path@)) is None
                    &&& t.wf()
                    &&& t.spec_lookup(spec_charlike_views(path@)) == Some(data)
                    &&& forall|q: Seq<CharlikeV>|
                        q != spec_charlike_views(path@) ==> #[trigger] t.spec_lookup(q)
                            == self.spec_lookup(q)
                    &&& (dyn_sep_wf(self) && expansion_shaped(spec_charlike_views(path@)))
                        ==> dyn_sep_wf(t)
                },
                Err(e) => {
                    &&& e.0 == self
                    &&& e.1 == data
                    &&& self.spec_lookup(spec_charlike_views(path@)) is Some
                },
            },
    {
        if self.has_path(path) {
            Err((self, data))
        } else {
            Ok(self.insert_new(path, data))
        }
    }
}

/// Replacing the child at the position found for a key sequence's head, by
/// one that maps the tail to the new value and keeps every other tail,
/// yields a trie that maps the sequence to the value and keeps every other
/// sequence.
proof fn lemma_insert_new_update<V>(
    s0: Trie<V>,
    r: Trie<V>,
    pv: Seq<CharlikeV>,
    idx: int,
    child2: Trie<V>,
    data: V,
)
    requires
        s0.wf(),
        pv.len() > 0,
        0 <= idx < s0.children@.len(),
        s0.children@[idx].0@ == pv[0],
        forall|j: int| 0 <= j < idx ==> (#[trigger] s0.children@[j].0@) != pv[0],
        r.data == s0.data,
        r.children@ =~= s0.children@.update(idx, (s0.children@[idx].0, child2)),
        child2.wf(),
        child2.spec_lookup(pv.drop_first()) == Some(data),
        forall|q2: Seq<CharlikeV>|
            q2 != pv.drop_first() ==> #[trigger] child2.spec_lookup(q2)
                == s0.children@[idx].1.spec_lookup(q2),
    ensures
        r.wf(),
        r.spec_lookup(pv) == Some(data),
        forall|q: Seq<CharlikeV>|
            q != pv ==> #[trigger] r.spec_lookup(q) == s0.spec_lookup(q),
{
    assert(r.children@.len() == s0.children@.len());
    assert(forall|j: int|
        0 <= j < r.children@.len() ==> (#[trigger] r.children@[j].0) == s0.children@[j].0);
    assert(r.wf());
    lemma_find_key_at(r.children@, pv[0], idx);
    lemma_lookup_children_is_find(r.children@, pv);
    assert(r.spec_lookup(pv) == Some(data));
    assert forall|q: Seq<CharlikeV>| q != pv implies #[trigger] r.spec_lookup(q)
        == s0.spec_lookup(q) by {
        if q.len() == 0 {
        } else {
            lemma_lookup_children_is_find(s0.children@, q);
            lemma_lookup_children_is_find(r.children@, q);
            match spec_find_key(s0.children@, q[0]) {
                None => {
                    lemma_find_key_none_iff(s0.children@, q[0]);
                    lemma_find_key_none(r.children@, q[0]);
                },
                Some(i) => {
                    lemma_find_key_at(r.children@, q[0], i);
                    if i == idx {
                        assert(q[0] == pv[0]);
                        if q.drop_first() == pv.drop_first() {
                            assert(q =~= seq![q[0]] + q.drop_first());
                            assert(pv =~= seq![pv[0]] + pv.drop_first());
                            assert(false);
                        }
                    }
                },
            }
        }
    }
}

/// Inserting, at the sorted position for a key sequence's head, a fresh
/// child that maps the tail to a value and nothing else, yields a trie that
/// maps the sequence to the value and keeps every other sequence.
proof fn lemma_insert_new_child<V>(
    s0: Trie<V>,
    r: Trie<V>,
    pv: Seq<CharlikeV>,
    idx: int,
    fresh: Trie<V>,
    data: V,
)
    requires
        s0.wf(),
        pv.len() > 0,
        0 <= idx <= s0.children@.len(),
        forall|j: int| 0 <= j < idx ==> spec_charlike_lt((#[trigger] s0.children@[j].0@), pv[0]),
        idx < s0.children@.len() ==> !spec_charlike_lt(s0.children@[idx].0@, pv[0]),
        forall|j: int| 0 <= j < s0.children@.len() ==> (#[trigger] s0.children@[j].0@) != pv[0],
        r.data == s0.data,
        r.children@.len() == s0.children@.len() + 1,
        r.children@[idx].0@ == pv[0],
        r.children@[idx].1 == fresh,
        forall|j: int| 0 <= j < idx ==> #[trigger] r.children@[j] == s0.children@[j],
        forall|j: int|
            idx < j < r.children@.len() ==> #[trigger] r.children@[j] == s0.children@[j - 1],
        fresh.wf(),
        fresh.spec_lookup(pv.drop_first()) == Some(data),
        forall|q2: Seq<CharlikeV>|
            q2 != pv.drop_first() ==> #[trigger] fresh.spec_lookup(q2) is None,
    ensures
        r.wf(),
        r.spec_lookup(pv) == Some(data),
        forall|q: Seq<CharlikeV>|
            q != pv ==> #[trigger] r.spec_lookup(q) == s0.spec_lookup(q),
{
    assert forall|i: int, j: int| 0 <= i < j < r.children@.len() implies spec_charlike_lt(
        #[trigger] r.children@[i].0@,
        #[trigger] r.children@[j].0@,
    ) by {
        if i == idx {
            if idx < s0.children@.len() {
                lemma_charlike_lt_total(s0.children@[idx].0@, pv[0]);
                if idx < j - 1 {
                    lemma_charlike_lt_transitive(
                        pv[0],
                        s0.children@[idx].0@,
                        s0.children@[j - 1].0@,
                    );
                }
            }
        } else if j == idx {
        } else if i < idx && j > idx {
        } else {
        }
    }
    assert forall|i: int| 0 <= i < r.children@.len() implies (
    #[trigger] r.children@[i].1).wf() by {
        if i < idx {
        } else if i == idx {
        } else {
        }
    }
    assert(r.wf());
    assert forall|j: int| 0 <= j < idx implies (#[trigger] r.children@[j].0@) != pv[0] by {
        lemma_charlike_lt_asymmetric(r.children@[j].0@, pv[0]);
    }
    lemma_find_key_at(r.children@, pv[0], idx);
    lemma_lookup_children_is_find(r.children@, pv);
    assert(r.spec_lookup(pv) == Some(data));
    assert forall|q: Seq<CharlikeV>| q != pv implies #[trigger] r.spec_lookup(q)
        == s0.spec_lookup(q) by {
        if q.len() == 0 {
        } else if q[0] == pv[0] {
            lemma_find_key_at(r.children@, q[0], idx);
            lemma_lookup_children_is_find(r.children@, q);
            lemma_find_key_none(s0.children@, q[0]);
            lemma_lookup_children_is_find(s0.children@, q);
            if q.drop_first() == pv.drop_first() {
                assert(q =~= seq![q[0]] + q.drop_first());
                assert(pv =~= seq![pv[0]] + pv.drop_first());
                assert(false);
            }
            assert(fresh.spec_lookup(q.drop_first()) is None);
        } else {
            lemma_lookup_children_is_find(s0.children@, q);
            lemma_lookup_children_is_find(r.children@, q);
            match spec_find_key(s0.children@, q[0]) {
                None => {
                    lemma_find_key_none_iff(s0.children@, q[0]);
                    assert forall|j: int| 0 <= j < r.children@.len() implies (
                    #[trigger] r.children@[j].0@) != q[0] by {
                        if j < idx {
                            assert(r.children@[j] == s0.children@[j]);
                        } else if j > idx {
                            assert(r.children@[j] == s0.children@[j - 1]);
                        }
                    }
                    lemma_find_key_none(r.children@, q[0]);
                },
                Some(i) => {
                    let i2: int = if i < idx {
                        i
                    } else {
                        i + 1
                    };
                    assert(r.children@[i2] == s0.children@[i]);
                    assert forall|j: int| 0 <= j < i2 implies (#[trigger] r.children@[j].0@)
                        != q[0] by {
                        if j < idx {
                            assert(r.children@[j] == s0.children@[j]);
                        } else if j == idx {
                        } else {
                            assert(r.children@[j] == s0.children@[j - 1]);
                        }
                    }
                    lemma_find_key_at(r.children@, q[0], i2);
                },
            }
        }
    }
}

/// A symbol list and its value list agree element by element.
pub proof fn lemma_charlike_views_elementwise(s: Seq<Charlike>)
    ensures
        spec_charlike_views(s).len() == s.len(),
        forall|i: int| 0 <= i < s.len() ==> #[trigger] spec_charlike_views(s)[i] == s[i]@,
    decreases s.len(),
{
    if s.len() > 0 {
        lemma_charlike_views_elementwise(s.drop_last());
        assert forall|i: int| 0 <= i < s.len() implies #[trigger] spec_charlike_views(s)[i]
            == s[i]@ by {
            if i < s.len() - 1 {
                assert(s.drop_last()[i] == s[i]);
                assert(spec_charlike_views(s.drop_last())[i] == s.drop_last()[i]@);
            }
        }
    }
}

} // verus!

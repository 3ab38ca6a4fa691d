//! A tree whose edges are strings: each node holds items under string keys, and child nodes
//! under string keys. A value is stored at a path of keys, the last of which names the item.
use vstd::prelude::*;

use crate::strmap::{find, key_view, lemma_find_insert, raw_position, sorted_keys, StrMap};
use crate::text::owned;

verus! {

/// The keys of a path, as character sequences.
pub open spec fn path_view(path: Seq<&str>) -> Seq<Seq<char>> {
    path.map_values(|s: &str| s@)
}

/// A tree of items keyed by strings. Items and children are each kept in increasing key order.
pub struct Node<V> {
    /// All items present on this node.
    pub(crate) items: StrMap<V>,
    /// All child nodes, in increasing key order.
    pub(crate) children: Vec<(String, Node<V>)>,
}

impl<V> Node<V> {
    /// The items of this node, in increasing key order.
    pub closed spec fn spec_items(&self) -> Seq<(Seq<char>, V)> {
        self.items.entries_view()
    }

    /// The children of this node, in increasing key order.
    pub closed spec fn spec_children(&self) -> Seq<(Seq<char>, Node<V>)> {
        key_view(self.children@)
    }

    #[verifier::type_invariant]
    spec fn inv(&self) -> bool {
        sorted_keys(key_view(self.children@))
    }

    /// A child node is smaller than its parent.
    pub proof fn lemma_child_decreases(&self, i: int)
        requires
            0 <= i < self.spec_children().len(),
        ensures
            decreases_to!(*self => self.spec_children()[i].1),
    {
        assert(self.spec_children()[i].1 == self.children@[i].1);
        assert(decreases_to!(self.children => self.children@));
        assert(decreases_to!(self.children@ => self.children@[i]));
    }

    /// The value stored at `path`: the last key names an item, the keys before it name the
    /// children leading to it.
    pub closed spec fn lookup(&self, path: Seq<Seq<char>>) -> Option<V>
        decreases *self, path.len(),
    {
        if path.len() == 0 {
            None
        } else if path.len() == 1 {
            find(self.items.entries_view(), path[0])
        } else {
            match child_position(key_view(self.children@), path[0]) {
                Some(i) => {
                    if 0 <= i < self.children@.len() {
                        proof {
                            self.lemma_child_decreases(i);
                        }
                        self.children@[i].1.lookup(path.drop_first())
                    } else {
                        None
                    }
                },
                None => None,
            }
        }
    }

    /// A node with no items or children.
    pub fn new() -> (r: Self)
        ensures
            r.spec_items() == Seq::<(Seq<char>, V)>::empty(),
            r.spec_children() == Seq::<(Seq<char>, Node<V>)>::empty(),
            forall|q: Seq<Seq<char>>| r.lookup(q) is None,
    {
        let r = Node { items: StrMap::new(), children: Vec::new() };
        proof {
            assert(r.spec_children() =~= Seq::<(Seq<char>, Node<V>)>::empty());
            assert forall|q: Seq<Seq<char>>| r.lookup(q) is None by {
                if q.len() > 1 {
                    assert(child_position(key_view(r.children@), q[0]) is None);
                }
            }
        }
        r
    }

    /// The same as [`Node::new`].
    pub fn default() -> (r: Self)
        ensures
            r.spec_items() == Seq::<(Seq<char>, V)>::empty(),
            r.spec_children() == Seq::<(Seq<char>, Node<V>)>::empty(),
            forall|q: Seq<Seq<char>>| r.lookup(q) is None,
    {
        Self::new()
    }

    /// The number of items of this node.
    pub fn num_items(&self) -> (r: usize)
        ensures
            r == self.spec_items().len(),
    {
        self.items.len()
    }

    /// The `i`th item of this node, in key order.
    pub fn item_at(&self, i: usize) -> (r: (&String, &V))
        requires
            i < self.spec_items().len(),
        ensures
            r.0@ == self.spec_items()[i as int].0,
            *r.1 == self.spec_items()[i as int].1,
    {
        self.items.entry_at(i)
    }

    /// The number of children of this node.
    pub fn num_children(&self) -> (r: usize)
        ensures
            r == self.spec_children().len(),
    {
        self.children.len()
    }

    /// The `i`th child of this node, in key order.
    pub fn child_at(&self, i: usize) -> (r: (&String, &Node<V>))
        requires
            i < self.spec_children().len(),
        ensures
            r.0@ == self.spec_children()[i as int].0,
            *r.1 == self.spec_children()[i as int].1,
    {
        let e = &self.children[i];
        (&e.0, &e.1)
    }

    /// Stores `value` at `path`; the nodes on the way are created where they are missing.
    /// Every other path keeps its value.
    pub fn insert(&mut self, path: &[&str], value: V)
        requires
            path@.len() > 0,
        ensures
            final(self).lookup(path_view(path@)) == Some(value),
            forall|q: Seq<Seq<char>>|
                q != path_view(path@) ==> #[trigger] final(self).lookup(q) == old(self).lookup(q),
        decreases path@.len(),
    {
        proof {
            use_type_invariant(&*self);
        }
        let ghost pv = path_view(path@);
        if path.len() == 1 {
            let ghost old_items = self.items.entries_view();
            let mut items: StrMap<V> = StrMap::new();
            std::mem::swap(&mut items, &mut self.items);
            items.insert(owned(path[0]), value);
            self.items = items;
            proof {
                assert forall|q: Seq<Seq<char>>| q.len() == 1 implies #[trigger] self.lookup(q)
                    == (if q == pv {
                    Some(value)
                } else {
                    old(self).lookup(q)
                }) by {
                    lemma_find_insert(old_items, pv[0], value, q[0]);
                    if q[0] == pv[0] {
                        assert(q =~= pv);
                    }
                }
                assert forall|q: Seq<Seq<char>>| q.len() != 1 implies #[trigger] self.lookup(q)
                    == old(self).lookup(q) by {
                    assert(self.children@ == old(self).children@);
                }
            }
        } else {
            let key = path[0];
            let rest = vstd::slice::slice_subrange(path, 1, path.len());
            let ghost rv = path_view(rest@);
            proof {
                assert(rv =~= pv.drop_first());
            }
            let (i, found) = raw_position(&self.children, key);
            let ghost old_kids = key_view(self.children@);
            let mut children: Vec<(String, Node<V>)> = Vec::new();
            std::mem::swap(&mut children, &mut self.children);
            if found {
                let (k, mut child) = children.remove(i);
                let ghost old_child = child;
                child.insert(rest, value);
                children.insert(i, (k, child));
                proof {
                    assert(key_view(children@) =~= old_kids.update(
                        i as int,
                        (old_kids[i as int].0, child),
                    ));
                    lemma_sorted_update(old_kids, i as int, child);
                    lemma_child_position(old_kids, i as int);
                    lemma_child_position(key_view(children@), i as int);
                    assert(old_kids[i as int].1 == old_child);
                }
                self.children = children;
                proof {
                    self.lemma_lookup_other_child(*old(self), i as int, pv);
                    assert(self.spec_children()[i as int].1 == child);
                    assert(self.lookup(pv) == child.lookup(rv));
                }
            } else {
                let mut child: Node<V> = Node::new();
                child.insert(rest, value);
                let name = owned(key);
                proof {
                    lemma_absent_before(old_kids, key@, i as int);
                    crate::strmap::lemma_insert_at(old_kids, key@, child, i as int);
                    crate::strmap::lemma_insert_sorted(old_kids, key@, child);
                }
                children.insert(i, (name, child));
                proof {
                    assert(key_view(children@) =~= old_kids.insert(i as int, (key@, child)));
                    lemma_child_position(key_view(children@), i as int);
                }
                self.children = children;
                proof {
                    self.lemma_lookup_new_child(*old(self), i as int, pv);
                }
            }
        }
    }

    /// After replacing the child at `i`, paths through other children keep their values.
    proof fn lemma_lookup_other_child(&self, old_node: Node<V>, i: int, pv: Seq<Seq<char>>)
        requires
            self.items == old_node.items,
            sorted_keys(key_view(self.children@)),
            sorted_keys(key_view(old_node.children@)),
            0 <= i < self.children@.len(),
            self.children@.len() == old_node.children@.len(),
            pv.len() > 1,
            key_view(self.children@)[i].0 == pv[0],
            forall|j: int|
                0 <= j < self.children@.len() && j != i ==> #[trigger] self.children@[j]
                    == old_node.children@[j],
            key_view(self.children@)[i].0 == key_view(old_node.children@)[i].0,
            forall|q: Seq<Seq<char>>|
                q != pv.drop_first() ==> #[trigger] self.children@[i].1.lookup(q)
                    == old_node.children@[i].1.lookup(q),
        ensures
            forall|q: Seq<Seq<char>>| q != pv ==> #[trigger] self.lookup(q) == old_node.lookup(q),
            self.lookup(pv) == self.children@[i].1.lookup(pv.drop_first()),
    {
        lemma_child_position(key_view(self.children@), i);
        lemma_child_position(key_view(old_node.children@), i);
        assert forall|q: Seq<Seq<char>>| q != pv implies #[trigger] self.lookup(q) == old_node.lookup(
            q,
        ) by {
            if q.len() > 1 {
                let kids = key_view(self.children@);
                let okids = key_view(old_node.children@);
                match child_position(kids, q[0]) {
                    Some(j) => {
                        lemma_child_position_some(kids, q[0]);
                        lemma_child_position(kids, j);
                        assert(kids[j].0 == okids[j].0);
                        lemma_child_position(okids, j);
                        if j == i {
                            if q.drop_first() == pv.drop_first() {
                                assert forall|t: int| 0 <= t < q.len() implies q[t] == pv[t] by {
                                    if t > 0 {
                                        assert(q[t] == q.drop_first()[t - 1]);
                                        assert(pv[t] == pv.drop_first()[t - 1]);
                                    }
                                }
                                assert(q =~= pv);
                            }
                        } else {
                            assert(self.children@[j] == old_node.children@[j]);
                            assert(self.lookup(q) == self.children@[j].1.lookup(q.drop_first()));
                            assert(old_node.lookup(q) == old_node.children@[j].1.lookup(q.drop_first()));
                        }
                    },
                    None => {
                        lemma_child_position_none(kids, q[0]);
                        if let Some(j) = child_position(okids, q[0]) {
                            lemma_child_position_some(okids, q[0]);
                            lemma_child_position(okids, j);
                            assert(kids[j].0 == okids[j].0);
                        }
                    },
                }
            }
        }
    }

    /// After adding a child at `i` holding only `pv.drop_first()`, every other path keeps its
    /// value, and `pv` is looked up in the new child.
    proof fn lemma_lookup_new_child(&self, old_node: Node<V>, i: int, pv: Seq<Seq<char>>)
        requires
            self.items == old_node.items,
            sorted_keys(key_view(self.children@)),
            sorted_keys(key_view(old_node.children@)),
            0 <= i < self.children@.len(),
            self.children@.len() == old_node.children@.len() + 1,
            pv.len() > 1,
            key_view(self.children@)[i].0 == pv[0],
            forall|j: int|
                0 <= j < old_node.children@.len() ==> #[trigger] key_view(old_node.children@)[j].0
                    != pv[0],
            forall|j: int| 0 <= j < i ==> #[trigger] self.children@[j] == old_node.children@[j],
            forall|j: int|
                i < j < self.children@.len() ==> #[trigger] self.children@[j]
                    == old_node.children@[j - 1],
            forall|q: Seq<Seq<char>>|
                q != pv.drop_first() ==> #[trigger] self.children@[i].1.lookup(q) is None,
            self.children@[i].1.lookup(pv.drop_first()) is Some,
        ensures
            forall|q: Seq<Seq<char>>| q != pv ==> #[trigger] self.lookup(q) == old_node.lookup(q),
            self.lookup(pv) == self.children@[i].1.lookup(pv.drop_first()),
    {
        let kids = key_view(self.children@);
        let okids = key_view(old_node.children@);
        lemma_child_position(kids, i);
        assert forall|q: Seq<Seq<char>>| q != pv implies #[trigger] self.lookup(q) == old_node.lookup(
            q,
        ) by {
            if q.len() > 1 {
                match child_position(kids, q[0]) {
                    Some(j) => {
                        lemma_child_position_some(kids, q[0]);
                        lemma_child_position(kids, j);
                        if j == i {
                            if q.drop_first() == pv.drop_first() {
                                assert forall|t: int| 0 <= t < q.len() implies q[t] == pv[t] by {
                                    if t > 0 {
                                        assert(q[t] == q.drop_first()[t - 1]);
                                        assert(pv[t] == pv.drop_first()[t - 1]);
                                    }
                                }
                                assert(q =~= pv);
                            }
                            if let Some(k) = child_position(okids, q[0]) {
                                lemma_child_position_some(okids, q[0]);
                                assert(okids[k].0 != pv[0]);
                            }
                        } else if j < i {
                            assert(kids[j] == okids[j]);
                            lemma_child_position(okids, j);
                            assert(self.lookup(q) == self.children@[j].1.lookup(q.drop_first()));
                            assert(old_node.lookup(q) == old_node.children@[j].1.lookup(
                                q.drop_first(),
                            ));
                        } else {
                            assert(kids[j] == okids[j - 1]);
                            lemma_child_position(okids, j - 1);
                            assert(self.lookup(q) == self.children@[j].1.lookup(q.drop_first()));
                            assert(old_node.lookup(q) == old_node.children@[j - 1].1.lookup(
                                q.drop_first(),
                            ));
                        }
                    },
                    None => {
                        lemma_child_position_none(kids, q[0]);
                        if let Some(k) = child_position(okids, q[0]) {
                            lemma_child_position_some(okids, q[0]);
                            lemma_child_position(okids, k);
                            if k < i {
                                assert(kids[k] == okids[k]);
                            } else {
                                assert(kids[k + 1] == okids[k]);
                            }
                        }
                    },
                }
            }
        }
    }
}

/// The position of the entry keyed `k`, if there is one.
pub open spec fn child_position<V>(s: Seq<(Seq<char>, V)>, k: Seq<char>) -> Option<int> {
    if exists|i: int| 0 <= i < s.len() && s[i].0 == k {
        Some(choose|i: int| 0 <= i < s.len() && s[i].0 == k)
    } else {
        None
    }
}

/// In a sorted sequence, the entry keyed like the `i`th is the `i`th.
pub proof fn lemma_child_position<V>(s: Seq<(Seq<char>, V)>, i: int)
    requires
        sorted_keys(s),
        0 <= i < s.len(),
    ensures
        child_position(s, s[i].0) == Some(i),
{
    let k = s[i].0;
    assert(exists|j: int| 0 <= j < s.len() && s[j].0 == k) by {
        assert(s[i].0 == k);
    }
    let j = choose|j: int| 0 <= j < s.len() && s[j].0 == k;
    assert(0 <= j < s.len() && s[j].0 == k);
    crate::text::lemma_text_lt_total(k, k);
    if j < i {
        assert(crate::text::text_lt(s[j].0, s[i].0));
    } else if j > i {
        assert(crate::text::text_lt(s[i].0, s[j].0));
    }
    assert(child_position(s, k) == Some(j));
}

/// A key that no entry holds has no position.
pub proof fn lemma_child_position_none<V>(s: Seq<(Seq<char>, V)>, k: Seq<char>)
    requires
        child_position(s, k) is None,
    ensures
        forall|i: int| 0 <= i < s.len() ==> s[i].0 != k,
{
    assert forall|i: int| 0 <= i < s.len() implies s[i].0 != k by {
        if s[i].0 == k {
            assert(exists|j: int| 0 <= j < s.len() && s[j].0 == k);
        }
    }
}

/// A position found for `k` holds `k`.
pub proof fn lemma_child_position_some<V>(s: Seq<(Seq<char>, V)>, k: Seq<char>)
    ensures
        match child_position(s, k) {
            Some(j) => 0 <= j < s.len() && s[j].0 == k,
            None => true,
        },
{
}

/// Replacing the value of an entry keeps the keys sorted.
proof fn lemma_sorted_update<V>(s: Seq<(Seq<char>, V)>, i: int, v: V)
    requires
        sorted_keys(s),
        0 <= i < s.len(),
    ensures
        sorted_keys(s.update(i, (s[i].0, v))),
{
    let t = s.update(i, (s[i].0, v));
    assert forall|a: int, b: int| 0 <= a < b < t.len() implies crate::text::text_lt(
        #[trigger] t[a].0,
        #[trigger] t[b].0,
    ) by {
        assert(t[a].0 == s[a].0);
        assert(t[b].0 == s[b].0);
    }
}

/// When the first entry not below `k` is at `i` and does not hold `k`, no entry holds `k`.
proof fn lemma_absent_before<V>(s: Seq<(Seq<char>, V)>, k: Seq<char>, i: int)
    requires
        sorted_keys(s),
        0 <= i <= s.len(),
        forall|j: int| 0 <= j < i ==> crate::text::text_lt(#[trigger] s[j].0, k),
        i < s.len() ==> !crate::text::text_lt(s[i].0, k) && s[i].0 != k,
    ensures
        forall|j: int| 0 <= j < s.len() ==> s[j].0 != k,
{
    assert forall|j: int| 0 <= j < s.len() implies s[j].0 != k by {
        if j < i {
            crate::text::lemma_text_lt_total(k, k);
        } else if j > i {
            assert(crate::text::text_lt(s[i].0, s[j].0));
            if s[j].0 == k {
                crate::text::lemma_text_lt_total(s[i].0, k);
            }
        }
    }
}

} // verus!

//! An ordered map keyed by strings: entries are kept sorted by key, keys occur once, and
//! iteration visits them in increasing key order (the order of a `BTreeMap<String, V>`).
use vstd::prelude::*;

use crate::text::{compare_text, lemma_text_lt_total, lemma_text_lt_transitive, text_lt, TextOrder};

verus! {

/// Keys of `s` are strictly increasing (so each key occurs once).
pub open spec fn sorted_keys<V>(s: Seq<(Seq<char>, V)>) -> bool {
    forall|i: int, j: int| 0 <= i < j < s.len() ==> text_lt(#[trigger] s[i].0, #[trigger] s[j].0)
}

/// The value stored under `k` in the entry sequence `s`.
pub open spec fn find<V>(s: Seq<(Seq<char>, V)>, k: Seq<char>) -> Option<V>
    decreases s.len(),
{
    if s.len() == 0 {
        None
    } else if s[0].0 == k {
        Some(s[0].1)
    } else {
        find(s.drop_first(), k)
    }
}

/// The entry sequence `s` after storing `v` under `k`: an existing entry for `k` is replaced in
/// place, otherwise a new entry is placed before the first larger key.
pub open spec fn insert_sorted<V>(s: Seq<(Seq<char>, V)>, k: Seq<char>, v: V) -> Seq<
    (Seq<char>, V),
>
    decreases s.len(),
{
    if s.len() == 0 {
        seq![(k, v)]
    } else if s[0].0 == k {
        seq![(k, v)] + s.drop_first()
    } else if text_lt(k, s[0].0) {
        seq![(k, v)] + s
    } else {
        seq![s[0]] + insert_sorted(s.drop_first(), k, v)
    }
}

/// The keys of an entry sequence.
pub open spec fn keys_of<V>(s: Seq<(Seq<char>, V)>) -> Seq<Seq<char>> {
    s.map_values(|e: (Seq<char>, V)| e.0)
}

/// Looking up a key after an insertion.
pub proof fn lemma_find_insert<V>(s: Seq<(Seq<char>, V)>, k: Seq<char>, v: V, q: Seq<char>)
    ensures
        find(insert_sorted(s, k, v), q) == if q == k {
            Some(v)
        } else {
            find(s, q)
        },
    decreases s.len(),
{
    let r = insert_sorted(s, k, v);
    if s.len() == 0 {
        assert(r[0] == (k, v));
        assert(r.drop_first() =~= Seq::<(Seq<char>, V)>::empty());
        assert(find(r, q) == if q == k { Some(v) } else { find(s, q) });
    } else if s[0].0 == k {
        assert(r[0] == (k, v));
        assert(r.drop_first() =~= s.drop_first());
        assert(find(r, q) == if q == k { Some(v) } else { find(s, q) });
    } else if text_lt(k, s[0].0) {
        assert(r[0] == (k, v));
        assert(r.drop_first() =~= s);
        assert(find(r, q) == if q == k { Some(v) } else { find(s, q) });
    } else {
        lemma_find_insert(s.drop_first(), k, v, q);
        assert(r[0] == s[0]);
        assert(r.drop_first() =~= insert_sorted(s.drop_first(), k, v));
    }
}

/// Every key of `insert_sorted(s, k, v)` is `k` or a key of `s`.
pub proof fn lemma_insert_keys<V>(s: Seq<(Seq<char>, V)>, k: Seq<char>, v: V)
    ensures
        forall|i: int|
            0 <= i < insert_sorted(s, k, v).len() ==> (#[trigger] insert_sorted(s, k, v)[i]).0 == k
                || exists|j: int| 0 <= j < s.len() && s[j].0 == insert_sorted(s, k, v)[i].0,
        insert_sorted(s, k, v).len() >= s.len(),
        insert_sorted(s, k, v).len() <= s.len() + 1,
    decreases s.len(),
{
    if s.len() > 0 && s[0].0 != k && !text_lt(k, s[0].0) {
        lemma_insert_keys(s.drop_first(), k, v);
        let r = insert_sorted(s, k, v);
        let t = insert_sorted(s.drop_first(), k, v);
        assert forall|i: int| 0 <= i < r.len() implies (#[trigger] r[i]).0 == k || exists|j: int|
            0 <= j < s.len() && s[j].0 == r[i].0 by {
            if i == 0 {
                assert(s[0].0 == r[0].0);
            } else {
                assert(r[i] == t[i - 1]);
                if t[i - 1].0 != k {
                    let j = choose|j: int|
                        0 <= j < s.drop_first().len() && s.drop_first()[j].0 == t[i - 1].0;
                    assert(s[j + 1].0 == r[i].0);
                }
            }
        }
    } else if s.len() > 0 {
        let r = insert_sorted(s, k, v);
        assert forall|i: int| 0 <= i < r.len() implies (#[trigger] r[i]).0 == k || exists|j: int|
            0 <= j < s.len() && s[j].0 == r[i].0 by {
            if i > 0 {
                if s[0].0 == k {
                    assert(r[i] == s[i]);
                } else {
                    assert(r[i] == s[i - 1]);
                }
            }
        }
    }
}

/// Insertion keeps the keys sorted.
pub proof fn lemma_insert_sorted<V>(s: Seq<(Seq<char>, V)>, k: Seq<char>, v: V)
    requires
        sorted_keys(s),
    ensures
        sorted_keys(insert_sorted(s, k, v)),
    decreases s.len(),
{
    if s.len() == 0 {
    } else if s[0].0 == k {
        let r = insert_sorted(s, k, v);
        assert forall|i: int, j: int| 0 <= i < j < r.len() implies text_lt(
            #[trigger] r[i].0,
            #[trigger] r[j].0,
        ) by {
            assert(r[j] == s[j]);
            if i > 0 {
                assert(r[i] == s[i]);
            }
        }
    } else if text_lt(k, s[0].0) {
        let r = insert_sorted(s, k, v);
        assert forall|i: int, j: int| 0 <= i < j < r.len() implies text_lt(
            #[trigger] r[i].0,
            #[trigger] r[j].0,
        ) by {
            assert(r[j] == s[j - 1]);
            if i > 0 {
                assert(r[i] == s[i - 1]);
            } else if j - 1 > 0 {
                lemma_text_lt_transitive(k, s[0].0, s[j - 1].0);
            }
        }
    } else {
        let t = s.drop_first();
        lemma_insert_sorted(t, k, v);
        lemma_insert_keys(t, k, v);
        lemma_text_lt_total(k, s[0].0);
        let r = insert_sorted(s, k, v);
        let rt = insert_sorted(t, k, v);
        assert forall|i: int, j: int| 0 <= i < j < r.len() implies text_lt(
            #[trigger] r[i].0,
            #[trigger] r[j].0,
        ) by {
            assert(r[j] == rt[j - 1]);
            if i > 0 {
                assert(r[i] == rt[i - 1]);
            } else {
                if rt[j - 1].0 != k {
                    let m = choose|m: int| 0 <= m < t.len() && t[m].0 == rt[j - 1].0;
                    assert(t[m] == s[m + 1]);
                }
            }
        }
    }
}

/// `insert_sorted` described by the position `i` where the new key belongs.
pub proof fn lemma_insert_at<V>(s: Seq<(Seq<char>, V)>, k: Seq<char>, v: V, i: int)
    requires
        sorted_keys(s),
        0 <= i <= s.len(),
        forall|j: int| 0 <= j < i ==> text_lt(#[trigger] s[j].0, k),
        i < s.len() ==> !text_lt(s[i].0, k),
    ensures
        i < s.len() && s[i].0 == k ==> insert_sorted(s, k, v) == s.update(i, (k, v)),
        !(i < s.len() && s[i].0 == k) ==> insert_sorted(s, k, v) == s.insert(i, (k, v)),
    decreases i,
{
    if i == 0 {
        if s.len() > 0 && s[0].0 != k {
            lemma_text_lt_total(k, s[0].0);
            assert(seq![(k, v)] + s =~= s.insert(0, (k, v)));
        } else if s.len() > 0 {
            assert(seq![(k, v)] + s.drop_first() =~= s.update(0, (k, v)));
        } else {
            assert(seq![(k, v)] =~= s.insert(0, (k, v)));
        }
    } else {
        let t = s.drop_first();
        lemma_text_lt_total(k, s[0].0);
        assert(text_lt(s[0].0, k));
        assert(s[0].0 != k);
        assert forall|j: int| 0 <= j < i - 1 implies text_lt(#[trigger] t[j].0, k) by {
            assert(t[j] == s[j + 1]);
        }
        assert(sorted_keys(t)) by {
            assert forall|a: int, b: int| 0 <= a < b < t.len() implies text_lt(
                #[trigger] t[a].0,
                #[trigger] t[b].0,
            ) by {
                assert(t[a] == s[a + 1]);
                assert(t[b] == s[b + 1]);
            }
        }
        lemma_insert_at(t, k, v, i - 1);
        if i < s.len() && s[i].0 == k {
            assert(seq![s[0]] + t.update(i - 1, (k, v)) =~= s.update(i, (k, v)));
        } else {
            assert(seq![s[0]] + t.insert(i - 1, (k, v)) =~= s.insert(i, (k, v)));
        }
    }
}

/// Looking up a key in a sorted sequence finds the entry holding it.
pub proof fn lemma_find_index<V>(s: Seq<(Seq<char>, V)>, k: Seq<char>)
    requires
        sorted_keys(s),
    ensures
        forall|i: int| 0 <= i < s.len() && s[i].0 == k ==> find(s, k) == Some(s[i].1),
        (forall|i: int| 0 <= i < s.len() ==> s[i].0 != k) ==> find(s, k) is None,
    decreases s.len(),
{
    if s.len() > 0 {
        let t = s.drop_first();
        assert(sorted_keys(t)) by {
            assert forall|a: int, b: int| 0 <= a < b < t.len() implies text_lt(
                #[trigger] t[a].0,
                #[trigger] t[b].0,
            ) by {
                assert(t[a] == s[a + 1]);
                assert(t[b] == s[b + 1]);
            }
        }
        lemma_find_index(t, k);
        assert forall|i: int| 0 <= i < s.len() && s[i].0 == k implies find(s, k) == Some(
            s[i].1,
        ) by {
            if i > 0 {
                if s[0].0 == k {
                    lemma_text_lt_total(s[0].0, s[0].0);
                    assert(text_lt(s[0].0, s[i].0));
                }
                assert(t[i - 1] == s[i]);
            }
        }
        if forall|i: int| 0 <= i < s.len() ==> s[i].0 != k {
            assert forall|i: int| 0 <= i < t.len() implies t[i].0 != k by {
                assert(t[i] == s[i + 1]);
            }
        }
    }
}

/// Entries with keys seen as character sequences.
pub open spec fn key_view<V>(s: Seq<(String, V)>) -> Seq<(Seq<char>, V)> {
    Seq::new(s.len(), |i: int| (s[i].0@, s[i].1))
}

/// Position of the first entry whose key is not below `k`, and whether its key is `k`.
pub fn raw_position<V>(es: &Vec<(String, V)>, k: &str) -> (r: (usize, bool))
    ensures
        r.0 <= key_view(es@).len(),
        forall|j: int| 0 <= j < r.0 ==> text_lt(#[trigger] key_view(es@)[j].0, k@),
        r.0 < key_view(es@).len() ==> !text_lt(key_view(es@)[r.0 as int].0, k@),
        r.1 == (r.0 < key_view(es@).len() && key_view(es@)[r.0 as int].0 == k@),
{
    let mut i: usize = 0;
    while i < es.len()
        invariant
            i <= es@.len(),
            forall|j: int| 0 <= j < i ==> text_lt(#[trigger] key_view(es@)[j].0, k@),
        decreases es@.len() - i,
    {
        let o = compare_text(es[i].0.as_str(), k);
        if o != TextOrder::Less {
            return (i, o == TextOrder::Equal);
        }
        i = i + 1;
    }
    (i, false)
}

/// The value stored under `k`, if any.
pub fn raw_get<'a, V>(es: &'a Vec<(String, V)>, k: &str) -> (r: Option<&'a V>)
    requires
        sorted_keys(key_view(es@)),
    ensures
        match r {
            Some(v) => find(key_view(es@), k@) == Some(*v),
            None => find(key_view(es@), k@) is None,
        },
{
    proof {
        lemma_find_index(key_view(es@), k@);
    }
    let (i, found) = raw_position(es, k);
    if found {
        Some(&es[i].1)
    } else {
        proof {
            assert forall|j: int| 0 <= j < key_view(es@).len() implies
                key_view(es@)[j].0 != k@ by {
                if j > i {
                    assert(text_lt(key_view(es@)[i as int].0, key_view(es@)[j].0));
                    lemma_text_lt_transitive_or_eq(
                        key_view(es@)[i as int].0,
                        key_view(es@)[j].0,
                        k@,
                    );
                }
                lemma_text_lt_total(key_view(es@)[j].0, k@);
            }
        }
        None
    }
}

/// Whether a value is stored under `k`.
pub fn raw_contains_key<V>(es: &Vec<(String, V)>, k: &str) -> (r: bool)
    requires
        sorted_keys(key_view(es@)),
    ensures
        r == find(key_view(es@), k@) is Some,
{
    raw_get(es, k).is_some()
}

/// Stores `v` under `k`, replacing any value stored there.
pub fn raw_insert<V>(es: &mut Vec<(String, V)>, k: String, v: V)
    requires
        sorted_keys(key_view(old(es)@)),
    ensures
        key_view(final(es)@) == insert_sorted(key_view(old(es)@), k@, v),
        sorted_keys(key_view(final(es)@)),
{
    let (i, found) = raw_position(es, k.as_str());
    let ghost s = key_view(es@);
    let ghost kv = k@;
    proof {
        lemma_insert_at(s, kv, v, i as int);
        lemma_insert_sorted(s, kv, v);
    }
    if found {
        es.set(i, (k, v));
    } else {
        es.insert(i, (k, v));
    }
    proof {
        let ev = Seq::new(es@.len(), |j: int| (es@[j].0@, es@[j].1));
        if found {
            assert(ev =~= s.update(i as int, (kv, v)));
        } else {
            assert(ev =~= s.insert(i as int, (kv, v)));
        }
    }
}

/// Removes and returns the value stored under `k`, if any.
pub fn raw_remove<V>(es: &mut Vec<(String, V)>, k: &str) -> (r: Option<V>)
    requires
        sorted_keys(key_view(old(es)@)),
    ensures
        r == find(key_view(old(es)@), k@),
        r is Some ==> exists|i: int|
            0 <= i < key_view(old(es)@).len() && key_view(old(es)@)[i].0 == k@
                && key_view(final(es)@) == key_view(old(es)@).remove(i),
        r is None ==> key_view(final(es)@) == key_view(old(es)@),
        sorted_keys(key_view(final(es)@)),
{
    proof {
        lemma_find_index(key_view(es@), k@);
    }
    let ghost s = key_view(es@);
    let (i, found) = raw_position(es, k);
    if found {
        let (_, v) = es.remove(i);
        proof {
            let ev = Seq::new(es@.len(), |j: int| (es@[j].0@, es@[j].1));
            assert(ev =~= s.remove(i as int));
            assert forall|a: int, b: int| 0 <= a < b < ev.len() implies text_lt(
                #[trigger] ev[a].0,
                #[trigger] ev[b].0,
            ) by {
                if a >= i {
                    assert(ev[a] == s[a + 1]);
                } else {
                    assert(ev[a] == s[a]);
                }
                if b >= i {
                    assert(ev[b] == s[b + 1]);
                } else {
                    assert(ev[b] == s[b]);
                }
            }
        }
            Some(v)
    } else {
        proof {
            assert forall|j: int| 0 <= j < s.len() implies s[j].0 != k@ by {
                if j > i {
                    assert(text_lt(s[i as int].0, s[j].0));
                    lemma_text_lt_transitive_or_eq(s[i as int].0, s[j].0, k@);
                }
                lemma_text_lt_total(s[j].0, k@);
            }
        }
        None
    }
}

/// An ordered map from strings to values.
pub struct StrMap<V> {
    entries: Vec<(String, V)>,
}

impl<V> StrMap<V> {
    /// The entries, in increasing key order, with keys as character sequences.
    pub closed spec fn entries_view(&self) -> Seq<(Seq<char>, V)> {
        key_view(self.entries@)
    }

    /// The value stored under `k`.
    pub open spec fn spec_get(&self, k: Seq<char>) -> Option<V> {
        find(self.entries_view(), k)
    }

    /// Number of entries.
    pub open spec fn spec_len(&self) -> nat {
        self.entries_view().len()
    }

    #[verifier::type_invariant]
    spec fn inv(&self) -> bool {
        sorted_keys(self.entries_view())
    }

    /// An empty map.
    pub fn new() -> (r: Self)
        ensures
            r.entries_view() == Seq::<(Seq<char>, V)>::empty(),
    {
        let r = StrMap { entries: Vec::new() };
        assert(r.entries_view() =~= Seq::<(Seq<char>, V)>::empty());
        r
    }

    /// Number of entries.
    pub fn len(&self) -> (r: usize)
        ensures
            r == self.entries_view().len(),
    {
        self.entries.len()
    }

    /// The `i`th entry in key order.
    pub fn entry_at(&self, i: usize) -> (r: (&String, &V))
        requires
            i < self.entries_view().len(),
        ensures
            r.0@ == self.entries_view()[i as int].0,
            *r.1 == self.entries_view()[i as int].1,
    {
        let e = &self.entries[i];
        (&e.0, &e.1)
    }

    /// The value stored under `k`, if any.
    pub fn get(&self, k: &str) -> (r: Option<&V>)
        ensures
            match r {
                Some(v) => self.spec_get(k@) == Some(*v),
                None => self.spec_get(k@) is None,
            },
    {
        proof {
            use_type_invariant(self);
        }
        raw_get(&self.entries, k)
    }

    /// Whether a value is stored under `k`.
    pub fn contains_key(&self, k: &str) -> (r: bool)
        ensures
            r == self.spec_get(k@) is Some,
    {
        proof {
            use_type_invariant(self);
        }
        raw_contains_key(&self.entries, k)
    }

    /// Stores `v` under `k`, replacing any value stored there.
    pub fn insert(&mut self, k: String, v: V)
        ensures
            final(self).entries_view() == insert_sorted(old(self).entries_view(), k@, v),
            sorted_keys(final(self).entries_view()),
    {
        proof {
            use_type_invariant(&*self);
        }
        let mut es: Vec<(String, V)> = Vec::new();
        std::mem::swap(&mut es, &mut self.entries);
        raw_insert(&mut es, k, v);
        self.entries = es;
        proof {
            use_type_invariant(&*self);
        }
    }

    /// Removes and returns the value stored under `k`, if any.
    pub fn remove(&mut self, k: &str) -> (r: Option<V>)
        ensures
            r == old(self).spec_get(k@),
            r is Some ==> exists|i: int|
                0 <= i < old(self).entries_view().len() && old(self).entries_view()[i].0 == k@
                    && final(self).entries_view() == old(self).entries_view().remove(i),
            r is None ==> final(self).entries_view() == old(self).entries_view(),
    {
        proof {
            use_type_invariant(&*self);
        }
        let mut es: Vec<(String, V)> = Vec::new();
        std::mem::swap(&mut es, &mut self.entries);
        let r = raw_remove(&mut es, k);
        self.entries = es;
        r
    }
}

/// If `a < b` and `!(a < c)`, then `b != c` and `!(b < c)`.
proof fn lemma_text_lt_transitive_or_eq(a: Seq<char>, b: Seq<char>, c: Seq<char>)
    requires
        text_lt(a, b),
        !text_lt(a, c),
    ensures
        !text_lt(b, c),
        b != c,
{
    lemma_text_lt_total(a, c);
    lemma_text_lt_total(b, c);
    if text_lt(b, c) {
        lemma_text_lt_transitive(a, b, c);
    }
    if b == c {
    }
}

impl<V: Clone> StrMap<V> {
    /// A copy of the map. Keys are copied exactly; values are copied with `V::clone`.
    pub fn clone_map(&self) -> (r: Self)
        ensures
            keys_of(r.entries_view()) == keys_of(self.entries_view()),
            forall|i: int|
                0 <= i < r.entries_view().len() ==> cloned::<V>(
                    self.entries_view()[i].1,
                    #[trigger] r.entries_view()[i].1,
                ),
    {
        proof {
            use_type_invariant(self);
        }
        let mut out: Vec<(String, V)> = Vec::new();
        let mut i: usize = 0;
        while i < self.entries.len()
            invariant
                i <= self.entries@.len(),
                out@.len() == i,
                forall|j: int| 0 <= j < i ==> (#[trigger] out@[j]).0@ == self.entries@[j].0@,
                forall|j: int| 0 <= j < i ==> cloned::<V>(self.entries@[j].1, #[trigger] out@[j].1),
            decreases self.entries@.len() - i,
        {
            let k = self.entries[i].0.clone();
            let v = self.entries[i].1.clone();
            out.push((k, v));
            i = i + 1;
        }
        proof {
            assert forall|a: int, b: int| 0 <= a < b < out@.len() implies text_lt(
                #[trigger] out@[a].0@,
                #[trigger] out@[b].0@,
            ) by {
                assert(self.entries_view()[a].0 == out@[a].0@);
                assert(self.entries_view()[b].0 == out@[b].0@);
            }
        }
        let r = StrMap { entries: out };
        proof {
            assert(keys_of(r.entries_view()) =~= keys_of(self.entries_view()));
        }
        r
    }
}

} // verus!

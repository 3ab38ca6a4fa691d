//! An ordered map keyed by numeric ids: entries are kept sorted by key, keys occur once, and
//! iteration visits them in increasing key order (the order of a `BTreeMap<u64, V>`).
use vstd::prelude::*;


verus! {

/// The order of ids.
pub open spec fn id_lt(a: u64, b: u64) -> bool {
    a < b
}

proof fn lemma_id_lt_total(a: u64, b: u64)
    ensures
        !id_lt(a, a),
        a != b ==> (id_lt(a, b) || id_lt(b, a)),
        !(id_lt(a, b) && id_lt(b, a)),
{
}

proof fn lemma_id_lt_transitive(a: u64, b: u64, c: u64)
    requires
        id_lt(a, b),
        id_lt(b, c),
    ensures
        id_lt(a, c),
{
}

/// Ids of `s` are strictly increasing (so each key occurs once).
pub open spec fn sorted_ids<V>(s: Seq<(u64, V)>) -> bool {
    forall|i: int, j: int| 0 <= i < j < s.len() ==> id_lt(#[trigger] s[i].0, #[trigger] s[j].0)
}

/// The value stored under `k` in the entry sequence `s`.
pub open spec fn find_id<V>(s: Seq<(u64, V)>, k: u64) -> Option<V>
    decreases s.len(),
{
    if s.len() == 0 {
        None
    } else if s[0].0 == k {
        Some(s[0].1)
    } else {
        find_id(s.drop_first(), k)
    }
}

/// The entry sequence `s` after storing `v` under `k`: an existing entry for `k` is replaced in
/// place, otherwise a new entry is placed before the first larger key.
pub open spec fn insert_id_sorted<V>(s: Seq<(u64, V)>, k: u64, v: V) -> Seq<
    (u64, V),
>
    decreases s.len(),
{
    if s.len() == 0 {
        seq![(k, v)]
    } else if s[0].0 == k {
        seq![(k, v)] + s.drop_first()
    } else if id_lt(k, s[0].0) {
        seq![(k, v)] + s
    } else {
        seq![s[0]] + insert_id_sorted(s.drop_first(), k, v)
    }
}

/// The keys of an entry sequence.
pub open spec fn ids_of<V>(s: Seq<(u64, V)>) -> Seq<u64> {
    s.map_values(|e: (u64, V)| e.0)
}

/// Looking up a key after an insertion.
pub proof fn lemma_find_id_insert<V>(s: Seq<(u64, V)>, k: u64, v: V, q: u64)
    ensures
        find_id(insert_id_sorted(s, k, v), q) == if q == k {
            Some(v)
        } else {
            find_id(s, q)
        },
    decreases s.len(),
{
    let r = insert_id_sorted(s, k, v);
    if s.len() == 0 {
        assert(r[0] == (k, v));
        assert(r.drop_first() =~= Seq::<(u64, V)>::empty());
        assert(find_id(r.drop_first(), q) is None);
        assert(find_id(s, q) is None);
        assert(find_id(r, q) == if q == k { Some(v) } else { find_id(s, q) });
    } else if s[0].0 == k {
        assert(r[0] == (k, v));
        assert(r.drop_first() =~= s.drop_first());
        assert(find_id(r, q) == if q == k { Some(v) } else { find_id(s, q) });
    } else if id_lt(k, s[0].0) {
        assert(r[0] == (k, v));
        assert(r.drop_first() =~= s);
        assert(find_id(r, q) == if q == k { Some(v) } else { find_id(s, q) });
    } else {
        lemma_find_id_insert(s.drop_first(), k, v, q);
        assert(r[0] == s[0]);
        assert(r.drop_first() =~= insert_id_sorted(s.drop_first(), k, v));
    }
}

/// Every key of `insert_id_sorted(s, k, v)` is `k` or a key of `s`.
pub proof fn lemma_insert_id_keys<V>(s: Seq<(u64, V)>, k: u64, v: V)
    ensures
        forall|i: int|
            0 <= i < insert_id_sorted(s, k, v).len() ==> (#[trigger] insert_id_sorted(s, k, v)[i]).0 == k
                || exists|j: int| 0 <= j < s.len() && s[j].0 == insert_id_sorted(s, k, v)[i].0,
        insert_id_sorted(s, k, v).len() >= s.len(),
        insert_id_sorted(s, k, v).len() <= s.len() + 1,
    decreases s.len(),
{
    if s.len() > 0 && s[0].0 != k && !id_lt(k, s[0].0) {
        lemma_insert_id_keys(s.drop_first(), k, v);
        let r = insert_id_sorted(s, k, v);
        let t = insert_id_sorted(s.drop_first(), k, v);
        assert forall|i: int| 0 <= i < r.len() implies (#[trigger] r[i]).0 == k || exists|j: int|
            0 <= j < s.len() && s[j].0 == r[i].0 by {
            if i == 0 {
                assert(s[0].0 == r[0].0);
            } else {
                assert(r[i] == t[i - 1]);
                if t[i - 1].0 != k {
                    let j = choose|j: int|
                        0 <= j < s.drop_first().len() && s.drop_first()[j].0 == t[i - 1].0;
                    assert(s[j + 1].0 == r[i].0);
                }
            }
        }
    } else if s.len() > 0 {
        let r = insert_id_sorted(s, k, v);
        assert forall|i: int| 0 <= i < r.len() implies (#[trigger] r[i]).0 == k || exists|j: int|
            0 <= j < s.len() && s[j].0 == r[i].0 by {
            if i > 0 {
                if s[0].0 == k {
                    assert(r[i] == s[i]);
                } else {
                    assert(r[i] == s[i - 1]);
                }
            }
        }
    }
}

/// Insertion keeps the keys sorted.
pub proof fn lemma_insert_id_sorted<V>(s: Seq<(u64, V)>, k: u64, v: V)
    requires
        sorted_ids(s),
    ensures
        sorted_ids(insert_id_sorted(s, k, v)),
    decreases s.len(),
{
    if s.len() == 0 {
    } else if s[0].0 == k {
        let r = insert_id_sorted(s, k, v);
        assert forall|i: int, j: int| 0 <= i < j < r.len() implies id_lt(
            #[trigger] r[i].0,
            #[trigger] r[j].0,
        ) by {
            assert(r[j] == s[j]);
            if i > 0 {
                assert(r[i] == s[i]);
            }
        }
    } else if id_lt(k, s[0].0) {
        let r = insert_id_sorted(s, k, v);
        assert forall|i: int, j: int| 0 <= i < j < r.len() implies id_lt(
            #[trigger] r[i].0,
            #[trigger] r[j].0,
        ) by {
            assert(r[j] == s[j - 1]);
            if i > 0 {
                assert(r[i] == s[i - 1]);
            } else if j - 1 > 0 {
                lemma_id_lt_transitive(k, s[0].0, s[j - 1].0);
            }
        }
    } else {
        let t = s.drop_first();
        lemma_insert_id_sorted(t, k, v);
        lemma_insert_id_keys(t, k, v);
        lemma_id_lt_total(k, s[0].0);
        let r = insert_id_sorted(s, k, v);
        let rt = insert_id_sorted(t, k, v);
        assert forall|i: int, j: int| 0 <= i < j < r.len() implies id_lt(
            #[trigger] r[i].0,
            #[trigger] r[j].0,
        ) by {
            assert(r[j] == rt[j - 1]);
            if i > 0 {
                assert(r[i] == rt[i - 1]);
            } else {
                if rt[j - 1].0 != k {
                    let m = choose|m: int| 0 <= m < t.len() && t[m].0 == rt[j - 1].0;
                    assert(t[m] == s[m + 1]);
                }
            }
        }
    }
}

/// `insert_id_sorted` described by the position `i` where the new key belongs.
proof fn lemma_insert_id_at<V>(s: Seq<(u64, V)>, k: u64, v: V, i: int)
    requires
        sorted_ids(s),
        0 <= i <= s.len(),
        forall|j: int| 0 <= j < i ==> id_lt(#[trigger] s[j].0, k),
        i < s.len() ==> !id_lt(s[i].0, k),
    ensures
        i < s.len() && s[i].0 == k ==> insert_id_sorted(s, k, v) == s.update(i, (k, v)),
        !(i < s.len() && s[i].0 == k) ==> insert_id_sorted(s, k, v) == s.insert(i, (k, v)),
    decreases i,
{
    if i == 0 {
        if s.len() > 0 && s[0].0 != k {
            lemma_id_lt_total(k, s[0].0);
            assert(seq![(k, v)] + s =~= s.insert(0, (k, v)));
        } else if s.len() > 0 {
            assert(seq![(k, v)] + s.drop_first() =~= s.update(0, (k, v)));
        } else {
            assert(seq![(k, v)] =~= s.insert(0, (k, v)));
        }
    } else {
        let t = s.drop_first();
        lemma_id_lt_total(k, s[0].0);
        assert(id_lt(s[0].0, k));
        assert(s[0].0 != k);
        assert forall|j: int| 0 <= j < i - 1 implies id_lt(#[trigger] t[j].0, k) by {
            assert(t[j] == s[j + 1]);
        }
        assert(sorted_ids(t)) by {
            assert forall|a: int, b: int| 0 <= a < b < t.len() implies id_lt(
                #[trigger] t[a].0,
                #[trigger] t[b].0,
            ) by {
                assert(t[a] == s[a + 1]);
                assert(t[b] == s[b + 1]);
            }
        }
        lemma_insert_id_at(t, k, v, i - 1);
        if i < s.len() && s[i].0 == k {
            assert(seq![s[0]] + t.update(i - 1, (k, v)) =~= s.update(i, (k, v)));
        } else {
            assert(seq![s[0]] + t.insert(i - 1, (k, v)) =~= s.insert(i, (k, v)));
        }
    }
}

/// Looking up a key in a sorted sequence finds the entry holding it.
pub proof fn lemma_find_id_index<V>(s: Seq<(u64, V)>, k: u64)
    requires
        sorted_ids(s),
    ensures
        forall|i: int| 0 <= i < s.len() && s[i].0 == k ==> find_id(s, k) == Some(s[i].1),
        (forall|i: int| 0 <= i < s.len() ==> s[i].0 != k) ==> find_id(s, k) is None,
    decreases s.len(),
{
    if s.len() > 0 {
        let t = s.drop_first();
        assert(sorted_ids(t)) by {
            assert forall|a: int, b: int| 0 <= a < b < t.len() implies id_lt(
                #[trigger] t[a].0,
                #[trigger] t[b].0,
            ) by {
                assert(t[a] == s[a + 1]);
                assert(t[b] == s[b + 1]);
            }
        }
        lemma_find_id_index(t, k);
        assert forall|i: int| 0 <= i < s.len() && s[i].0 == k implies find_id(s, k) == Some(
            s[i].1,
        ) by {
            if i > 0 {
                if s[0].0 == k {
                    lemma_id_lt_total(s[0].0, s[0].0);
                    assert(id_lt(s[0].0, s[i].0));
                }
                assert(t[i - 1] == s[i]);
            }
        }
        if forall|i: int| 0 <= i < s.len() ==> s[i].0 != k {
            assert forall|i: int| 0 <= i < t.len() implies t[i].0 != k by {
                assert(t[i] == s[i + 1]);
            }
        }
    }
}

/// An ordered map from numeric ids to values.
pub struct IdMap<V> {
    pub(crate) entries: Vec<(u64, V)>,
}

impl<V> IdMap<V> {
    /// The entries, in increasing key order, with keys as character sequences.
    pub closed spec fn entries_view(&self) -> Seq<(u64, V)> {
        Seq::new(self.entries@.len(), |i: int| (self.entries@[i].0, self.entries@[i].1))
    }

    /// The value stored under `k`.
    pub open spec fn spec_get(&self, k: u64) -> Option<V> {
        find_id(self.entries_view(), k)
    }

    /// The entries as a map from key to value.
    pub open spec fn as_map(&self) -> Map<u64, V> {
        Map::new(|q: u64| self.spec_get(q) is Some, |q: u64| self.spec_get(q).unwrap())
    }

    /// Number of entries.
    pub open spec fn spec_len(&self) -> nat {
        self.entries_view().len()
    }

    #[verifier::type_invariant]
    spec fn inv(&self) -> bool {
        sorted_ids(self.entries_view())
    }

    /// An empty map.
    pub fn new() -> (r: Self)
        ensures
            r.entries_view() == Seq::<(u64, V)>::empty(),
    {
        let r = IdMap { entries: Vec::new() };
        assert(r.entries_view() =~= Seq::<(u64, V)>::empty());
        r
    }

    /// Number of entries.
    pub fn len(&self) -> (r: usize)
        ensures
            r == self.entries_view().len(),
    {
        self.entries.len()
    }

    /// The `i`th entry in key order.
    pub fn entry_at(&self, i: usize) -> (r: (u64, &V))
        requires
            i < self.entries_view().len(),
        ensures
            r.0 == self.entries_view()[i as int].0,
            *r.1 == self.entries_view()[i as int].1,
    {
        let e = &self.entries[i];
        (e.0, &e.1)
    }

    /// A key has an entry exactly when it is among the keys.
    pub proof fn lemma_dom_ids(&self, q: u64)
        requires
            sorted_ids(self.entries_view()),
        ensures
            self.as_map().dom().contains(q) <==> ids_of(self.entries_view()).contains(q),
    {
        let s = self.entries_view();
        lemma_find_id_index(s, q);
        lemma_find_id_some(s, q);
        if ids_of(s).contains(q) {
            let j = choose|j: int| 0 <= j < ids_of(s).len() && ids_of(s)[j] == q;
            assert(s[j].0 == q);
        }
        if self.as_map().dom().contains(q) {
            let j = choose|j: int| 0 <= j < s.len() && s[j].0 == q && s[j].1 == find_id(s, q).unwrap();
            assert(ids_of(s)[j] == q);
        }
    }

    /// The keys, in increasing order.
    pub fn key_list(&self) -> (r: Vec<u64>)
        ensures
            r@ == ids_of(self.entries_view()),
            sorted_ids(self.entries_view()),
    {
        proof {
            use_type_invariant(self);
        }
        let mut r: Vec<u64> = Vec::new();
        let mut i: usize = 0;
        while i < self.entries.len()
            invariant
                i <= self.entries@.len(),
                r@ == ids_of(self.entries_view()).take(i as int),
            decreases self.entries@.len() - i,
        {
            r.push(self.entries[i].0);
            proof {
                assert(r@ =~= ids_of(self.entries_view()).take(i + 1));
            }
            i = i + 1;
        }
        proof {
            assert(ids_of(self.entries_view()).take(i as int) =~= ids_of(self.entries_view()));
        }
        r
    }

    /// The entries, in increasing key order.
    pub fn into_entries(self) -> (r: Vec<(u64, V)>)
        ensures
            r@ == self.entries_view(),
            sorted_ids(self.entries_view()),
    {
        proof {
            use_type_invariant(&self);
        }
        let IdMap { entries } = self;
        proof {
            assert(entries@ =~= Seq::new(entries@.len(), |i: int| (entries@[i].0, entries@[i].1)));
        }
        entries
    }

    /// Position of the first entry whose key is not below `k`, and whether its key is `k`.
    fn position(&self, k: u64) -> (r: (usize, bool))
        ensures
            r.0 <= self.entries_view().len(),
            forall|j: int| 0 <= j < r.0 ==> id_lt(#[trigger] self.entries_view()[j].0, k),
            r.0 < self.entries_view().len() ==> !id_lt(self.entries_view()[r.0 as int].0, k),
            r.1 == (r.0 < self.entries_view().len() && self.entries_view()[r.0 as int].0 == k),
    {
        let mut i: usize = 0;
        while i < self.entries.len()
            invariant
                i <= self.entries@.len(),
                forall|j: int| 0 <= j < i ==> id_lt(#[trigger] self.entries_view()[j].0, k),
            decreases self.entries@.len() - i,
        {
            let e = self.entries[i].0;
            if e >= k {
                return (i, e == k);
            }
            i = i + 1;
        }
        (i, false)
    }

    /// The value stored under `k`, if any.
    pub fn get(&self, k: u64) -> (r: Option<&V>)
        ensures
            match r {
                Some(v) => self.spec_get(k) == Some(*v),
                None => self.spec_get(k) is None,
            },
    {
        proof {
            use_type_invariant(self);
            lemma_find_id_index(self.entries_view(), k);
        }
        let (i, found) = self.position(k);
        if found {
            Some(&self.entries[i].1)
        } else {
            proof {
                assert forall|j: int| 0 <= j < self.entries_view().len() implies
                    self.entries_view()[j].0 != k by {
                    if j > i {
                        assert(id_lt(self.entries_view()[i as int].0, self.entries_view()[j].0));
                        lemma_id_lt_transitive_or_eq(
                            self.entries_view()[i as int].0,
                            self.entries_view()[j].0,
                            k,
                        );
                    }
                    lemma_id_lt_total(self.entries_view()[j].0, k);
                }
            }
            None
        }
    }

    /// Whether a value is stored under `k`.
    pub fn contains_key(&self, k: u64) -> (r: bool)
        ensures
            r == self.spec_get(k) is Some,
    {
        self.get(k).is_some()
    }

    /// Stores `v` under `k`, replacing any value stored there.
    pub fn insert(&mut self, k: u64, v: V)
        ensures
            final(self).entries_view() == insert_id_sorted(old(self).entries_view(), k, v),
            final(self).as_map() == old(self).as_map().insert(k, v),
            sorted_ids(final(self).entries_view()),
    {
        let ghost before = self.entries_view();
        self.insert_entry(k, v);
        proof {
            use_type_invariant(&*self);
            assert forall|q: u64| #[trigger] self.spec_get(q) == old(self).as_map().insert(k, v).get(
                q,
            ) by {
                lemma_find_id_insert(before, k, v, q);
            }
            assert(self.as_map() =~= old(self).as_map().insert(k, v));
        }
    }

    fn insert_entry(&mut self, k: u64, v: V)
        ensures
            final(self).entries_view() == insert_id_sorted(old(self).entries_view(), k, v),
    {
        proof {
            use_type_invariant(&*self);
        }
        let (i, found) = self.position(k);
        let ghost s = self.entries_view();
        let ghost kv = k;
        proof {
            lemma_insert_id_at(s, kv, v, i as int);
            lemma_insert_id_sorted(s, kv, v);
        }
        let mut es: Vec<(u64, V)> = Vec::new();
        std::mem::swap(&mut es, &mut self.entries);
        if found {
            es.set(i, (k, v));
        } else {
            es.insert(i, (k, v));
        }
        proof {
            let ev = Seq::new(es@.len(), |j: int| (es@[j].0, es@[j].1));
            if found {
                assert(ev =~= s.update(i as int, (kv, v)));
            } else {
                assert(ev =~= s.insert(i as int, (kv, v)));
            }
        }
        self.entries = es;
    }

    /// Removes and returns the value stored under `k`, if any.
    pub fn remove(&mut self, k: u64) -> (r: Option<V>)
        ensures
            r == old(self).spec_get(k),
            final(self).as_map() == old(self).as_map().remove(k),
            r is Some ==> exists|i: int|
                0 <= i < old(self).entries_view().len() && old(self).entries_view()[i].0 == k
                    && final(self).entries_view() == old(self).entries_view().remove(i),
            r is None ==> final(self).entries_view() == old(self).entries_view(),
            sorted_ids(final(self).entries_view()),
    {
        proof {
            use_type_invariant(&*self);
            lemma_find_id_index(self.entries_view(), k);
        }
        let ghost s = self.entries_view();
        let (i, found) = self.position(k);
        if found {
            let mut es: Vec<(u64, V)> = Vec::new();
            std::mem::swap(&mut es, &mut self.entries);
            let (_, v) = es.remove(i);
            proof {
                let ev = Seq::new(es@.len(), |j: int| (es@[j].0, es@[j].1));
                assert(ev =~= s.remove(i as int));
                assert forall|a: int, b: int| 0 <= a < b < ev.len() implies id_lt(
                    #[trigger] ev[a].0,
                    #[trigger] ev[b].0,
                ) by {
                    if a >= i {
                        assert(ev[a] == s[a + 1]);
                    } else {
                        assert(ev[a] == s[a]);
                    }
                    if b >= i {
                        assert(ev[b] == s[b + 1]);
                    } else {
                        assert(ev[b] == s[b]);
                    }
                }
            }
            self.entries = es;
            proof {
                use_type_invariant(&*self);
                lemma_find_id_index(self.entries_view(), k);
                assert forall|q: u64| #[trigger] self.spec_get(q) == old(self).as_map().remove(k).get(
                    q,
                ) by {
                    lemma_find_id_index(self.entries_view(), q);
                    lemma_find_id_index(s, q);
                    if q != k {
                        if let Some(w) = find_id(s, q) {
                            lemma_find_id_some(s, q);
                            let j = choose|j: int| 0 <= j < s.len() && s[j].0 == q && s[j].1 == w;
                            if j < i {
                                assert(self.entries_view()[j] == s[j]);
                            } else {
                                assert(self.entries_view()[j - 1] == s[j]);
                            }
                        } else {
                            assert forall|j: int| 0 <= j < self.entries_view().len() implies
                                self.entries_view()[j].0 != q by {
                                if j < i {
                                    assert(self.entries_view()[j] == s[j]);
                                } else {
                                    assert(self.entries_view()[j] == s[j + 1]);
                                }
                            }
                        }
                    } else {
                        assert forall|j: int| 0 <= j < self.entries_view().len() implies
                            self.entries_view()[j].0 != q by {
                            if j < i {
                                assert(self.entries_view()[j] == s[j]);
                                assert(id_lt(s[j].0, s[i as int].0));
                            } else {
                                assert(self.entries_view()[j] == s[j + 1]);
                                assert(id_lt(s[i as int].0, s[j + 1].0));
                            }
                        }
                    }
                }
                assert(self.as_map() =~= old(self).as_map().remove(k));
            }
            Some(v)
        } else {
            proof {
                assert forall|j: int| 0 <= j < s.len() implies s[j].0 != k by {
                    if j > i {
                        assert(id_lt(s[i as int].0, s[j].0));
                        lemma_id_lt_transitive_or_eq(s[i as int].0, s[j].0, k);
                    }
                    lemma_id_lt_total(s[j].0, k);
                }
            }
            proof {
                assert(self.as_map() =~= old(self).as_map().remove(k));
            }
            None
        }
    }
}

/// A key found in `s` is held by an entry of `s`.
pub proof fn lemma_find_id_some<V>(s: Seq<(u64, V)>, k: u64)
    ensures
        find_id(s, k) matches Some(w) ==> exists|j: int| 0 <= j < s.len() && s[j].0 == k && s[j].1 == w,
    decreases s.len(),
{
    if s.len() > 0 && s[0].0 != k {
        lemma_find_id_some(s.drop_first(), k);
        if let Some(w) = find_id(s, k) {
            let j = choose|j: int| 0 <= j < s.drop_first().len() && s.drop_first()[j].0 == k
                && s.drop_first()[j].1 == w;
            assert(s[j + 1] == s.drop_first()[j]);
        }
    } else if s.len() > 0 {
        assert(s[0].0 == k);
    }
}

/// If `a < b` and `!(a < c)`, then `b != c` and `!(b < c)`.
proof fn lemma_id_lt_transitive_or_eq(a: u64, b: u64, c: u64)
    requires
        id_lt(a, b),
        !id_lt(a, c),
    ensures
        !id_lt(b, c),
        b != c,
{
    lemma_id_lt_total(a, c);
    lemma_id_lt_total(b, c);
    if id_lt(b, c) {
        lemma_id_lt_transitive(a, b, c);
    }
    if b == c {
    }
}

impl<V: Clone> IdMap<V> {
    /// A copy of the map. Keys are copied exactly; values are copied with `V::clone`.
    pub fn clone_map(&self) -> (r: Self)
        ensures
            ids_of(r.entries_view()) == ids_of(self.entries_view()),
            forall|i: int|
                0 <= i < r.entries_view().len() ==> cloned::<V>(
                    self.entries_view()[i].1,
                    #[trigger] r.entries_view()[i].1,
                ),
    {
        proof {
            use_type_invariant(self);
        }
        let mut out: Vec<(u64, V)> = Vec::new();
        let mut i: usize = 0;
        while i < self.entries.len()
            invariant
                i <= self.entries@.len(),
                out@.len() == i,
                forall|j: int| 0 <= j < i ==> (#[trigger] out@[j]).0 == self.entries@[j].0,
                forall|j: int| 0 <= j < i ==> cloned::<V>(self.entries@[j].1, #[trigger] out@[j].1),
            decreases self.entries@.len() - i,
        {
            let k = self.entries[i].0;
            let v = self.entries[i].1.clone();
            out.push((k, v));
            i = i + 1;
        }
        proof {
            assert forall|a: int, b: int| 0 <= a < b < out@.len() implies id_lt(
                #[trigger] out@[a].0,
                #[trigger] out@[b].0,
            ) by {
                assert(self.entries_view()[a].0 == out@[a].0);
                assert(self.entries_view()[b].0 == out@[b].0);
            }
        }
        let r = IdMap { entries: out };
        proof {
            assert(ids_of(r.entries_view()) =~= ids_of(self.entries_view()));
        }
        r
    }
}

} // verus!

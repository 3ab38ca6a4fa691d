//! A map from string keys to values or to nested maps, where every key (at any depth) is given
//! a numeric id, and each key records the key it is nested in.
use vstd::prelude::*;

use crate::idmap::{id_lt, ids_of, sorted_ids, IdMap};
use crate::strmap::{find, insert_sorted, lemma_find_index, lemma_find_insert, sorted_keys, StrMap};
use crate::text::text_lt;

verus! {

/// Numeric id of a key.
type KeyId = u64;

/// Information held for one key.
struct KeyInfo<V> {
    /// The key this key is nested in, if any.
    parent: Option<KeyId>,
    /// Name of the key.
    name: String,
    /// What the key holds.
    content: KeyContent<V>,
}

/// What a key holds: a value, or the ids of the keys nested in it.
enum KeyContent<V> {
    Value(V),
    Nested(IdMap<()>),
}

/// What a key holds, seen as plain values: the id of its parent, its name, its value (when it
/// holds one) and the ids of its children (empty when it holds a value).
pub type KeyView<V> = (Option<u64>, Seq<char>, Option<V>, Set<u64>);

/// The view of the information of a key.
spec fn info_view<V>(info: KeyInfo<V>) -> KeyView<V> {
    (
        info.parent,
        info.name@,
        match info.content {
            KeyContent::Value(v) => Some(v),
            KeyContent::Nested(_) => None,
        },
        match info.content {
            KeyContent::Value(_) => Set::empty(),
            KeyContent::Nested(c) => c.as_map().dom(),
        },
    )
}

/// Every id in use is below `next`: the id of each key, of each of its children, and of each
/// top-level key.
pub open spec fn keys_below<V>(m: Map<u64, KeyView<V>>, top: Seq<(Seq<char>, u64)>, next: int) -> bool {
    &&& forall|q: u64| #[trigger] m.contains_key(q) ==> q < next
    &&& forall|q: u64, c: u64| #[trigger] m.contains_key(q) && #[trigger] m[q].3.contains(c) ==> c < next
    &&& forall|i: int| 0 <= i < top.len() ==> (#[trigger] top[i]).1 < next
}

/// A map from string keys to values or nested maps.
pub struct PrefixMap<V> {
    next_key_id: KeyId,
    top_keys: StrMap<KeyId>,
    keys: IdMap<KeyInfo<V>>,
}

/// A step of a walk over a [`PrefixMap`].
pub enum MapStep<V> {
    /// A value.
    Value(V),
    /// A nested map begins.
    BeginNested,
    /// A nested map ends.
    EndNested,
}

impl<V> PrefixMap<V> {
    /// The id the next new key receives.
    pub closed spec fn spec_next(&self) -> u64 {
        self.next_key_id
    }

    /// The top-level keys with their ids, in increasing name order.
    pub closed spec fn spec_top(&self) -> Seq<(Seq<char>, u64)> {
        self.top_keys.entries_view()
    }

    /// The ids of all keys, in increasing order.
    pub closed spec fn spec_ids(&self) -> Seq<u64> {
        ids_of(self.keys.entries_view())
    }

    /// Every key, by id.
    pub closed spec fn spec_keys(&self) -> Map<u64, KeyView<V>> {
        Map::new(
            |q: u64| self.keys.as_map().dom().contains(q),
            |q: u64| info_view(self.keys.as_map()[q]),
        )
    }

    /// The ids of the top-level keys.
    pub open spec fn top_ids(&self) -> Set<u64> {
        Set::new(|t: u64| exists|i: int| 0 <= i < self.spec_top().len() && self.spec_top()[i].1 == t)
    }

    /// Every id that the map refers to (as a top-level key, a parent or a child) has an entry.
    pub open spec fn refs_ok(&self) -> bool {
        &&& forall|t: u64| #[trigger] self.top_ids().contains(t) ==> self.spec_keys().contains_key(t)
        &&& forall|q: u64|
            #[trigger] self.spec_keys().contains_key(q) ==> (self.spec_keys()[q].0 matches Some(p)
                ==> self.spec_keys().contains_key(p)) && (forall|c: u64|
                #[trigger] self.spec_keys()[q].3.contains(c) ==> self.spec_keys().contains_key(c))
    }

    /// Every id in use is below the id the next new key receives, so new ids are fresh.
    pub open spec fn ids_below_next(&self) -> bool {
        keys_below(self.spec_keys(), self.spec_top(), self.spec_next() as int)
    }

    /// The map is built as [`PrefixMap::new`], [`PrefixMap::insert`] and [`PrefixMap::nest`]
    /// build it: the ids in use are exactly those below the next id, and refer to existing keys;
    /// no top-level key
    /// is nested in another key; each top-level key holds its own name, under its own id; the
    /// top-level names are in increasing order; and the ids of the keys are listed.
    pub open spec fn tree_ok(&self) -> bool {
        &&& self.ids_below_next()
        &&& self.refs_ok()
        &&& forall|q: u64, c: u64|
            #[trigger] self.spec_keys().contains_key(q) && #[trigger] self.spec_keys()[q].3.contains(c)
                ==> !self.top_ids().contains(c)
        &&& forall|i: int|
            #![trigger self.spec_top()[i]]
            0 <= i < self.spec_top().len() ==> self.spec_keys()[self.spec_top()[i].1].1
                == self.spec_top()[i].0
        &&& forall|i: int, j: int|
            0 <= i < j < self.spec_top().len() ==> #[trigger] self.spec_top()[i].1
                != #[trigger] self.spec_top()[j].1
        &&& sorted_keys(self.spec_top())
        &&& forall|q: u64| #[trigger] self.spec_keys().contains_key(q) <==> self.spec_ids().contains(q)
        &&& increasing(self.spec_ids())
        &&& forall|q: u64| q < self.spec_next() ==> #[trigger] self.spec_keys().contains_key(q)
    }

    /// A well-built map has at most as many keys as the id the next new key receives.
    pub proof fn lemma_ids_len(&self)
        requires
            self.tree_ok(),
        ensures
            self.spec_ids().len() <= self.spec_next(),
    {
        assert forall|i: int| 0 <= i < self.spec_ids().len() implies #[trigger] self.spec_ids()[i]
            < self.spec_next() by {
            assert(self.spec_ids().contains(self.spec_ids()[i]));
            assert(self.spec_keys().contains_key(self.spec_ids()[i]));
        }
        lemma_increasing_len(self.spec_ids(), self.spec_next() as int);
    }

    /// Nesting a well-built map whose ids are all in use in this one meets the demands of
    /// [`PrefixMap::nest`] on the top-level keys of `other`.
    pub proof fn lemma_nest_ready(&self, name: Seq<char>, other: PrefixMap<V>)
        requires
            self.tree_ok(),
            other.tree_ok(),
            other.spec_next() <= self.spec_next(),
        ensures
            other.spec_ids().len() <= other.spec_next(),
            forall|t: u64|
                #[trigger] other.top_ids().contains(t) ==> self.spec_keys().contains_key(t)
                    || t == self.id_for(name) || (self.next_after(name) <= t < self.next_after(name)
                    + other.spec_ids().len()),
    {
        other.lemma_ids_len();
        assert forall|t: u64| #[trigger] other.top_ids().contains(t) implies self.spec_keys().contains_key(t) by {
            assert(other.spec_keys().contains_key(t));
        }
    }

    /// The id that the key `name` has, or receives when it is new.
    pub open spec fn id_for(&self, name: Seq<char>) -> u64 {
        match find(self.spec_top(), name) {
            Some(id) => id,
            None => self.spec_next(),
        }
    }

    /// The id the next new key receives once `name` has an id.
    pub open spec fn next_after(&self, name: Seq<char>) -> int {
        match find(self.spec_top(), name) {
            Some(_) => self.spec_next() as int,
            None => self.spec_next() + 1,
        }
    }

    /// The top-level keys once `name` has an id.
    pub open spec fn top_after(&self, name: Seq<char>) -> Seq<(Seq<char>, u64)> {
        match find(self.spec_top(), name) {
            Some(_) => self.spec_top(),
            None => insert_sorted(self.spec_top(), name, self.spec_next()),
        }
    }

    /// An empty map.
    pub fn new() -> (r: Self)
        ensures
            r.spec_next() == 0,
            r.spec_top() == Seq::<(Seq<char>, u64)>::empty(),
            r.spec_keys() == Map::<u64, KeyView<V>>::empty(),
            r.tree_ok(),
    {
        let r = PrefixMap { next_key_id: 0, top_keys: StrMap::new(), keys: IdMap::new() };
        proof {
            assert(r.spec_keys() =~= Map::<u64, KeyView<V>>::empty());
        }
        r
    }

    /// The id of the top-level key `name`, which is created (with the next id) when it is new.
    fn insert_key(&mut self, name: String) -> (r: KeyId)
        requires
            find(old(self).spec_top(), name@) is None ==> old(self).spec_next() < u64::MAX,
        ensures
            r == old(self).id_for(name@),
            final(self).spec_next() == old(self).next_after(name@),
            final(self).spec_top() == old(self).top_after(name@),
            final(self).keys == old(self).keys,
            sorted_keys(old(self).spec_top()) ==> sorted_keys(final(self).spec_top()),
            find(old(self).spec_top(), name@) is None && old(self).ids_below_next()
                ==> !old(self).spec_keys().contains_key(r),
    {
        match self.top_keys.get(name.as_str()) {
            Some(id) => *id,
            None => {
                let key = self.next_key_id;
                self.next_key_id = key + 1;
                self.top_keys.insert(name, key);
                key
            },
        }
    }

    /// Stores `value` under the top-level key `name`. The key keeps its id when it exists, and
    /// what it held is replaced.
    pub fn insert(&mut self, name: String, value: V)
        requires
            find(old(self).spec_top(), name@) is None ==> old(self).spec_next() < u64::MAX,
        ensures
            final(self).spec_next() == old(self).next_after(name@),
            final(self).spec_top() == old(self).top_after(name@),
            final(self).spec_keys() == old(self).spec_keys().insert(
                old(self).id_for(name@),
                (None, name@, Some(value), Set::empty()),
            ),
            old(self).ids_below_next() ==> final(self).ids_below_next(),
            old(self).tree_ok() ==> final(self).tree_ok(),
    {
        let ghost nv = name@;
        let key = self.insert_key(name.clone());
        let info = KeyInfo { parent: None, name, content: KeyContent::Value(value) };
        proof {
            assert(info_view(info) == (None::<u64>, nv, Some(value), Set::<u64>::empty()));
        }
        self.keys.insert(key, info);
        proof {
            assert(self.spec_keys() =~= old(self).spec_keys().insert(
                key,
                (None, nv, Some(value), Set::empty()),
            ));
            if old(self).ids_below_next() {
                lemma_find_entry(old(self).spec_top(), nv);
                assert(key < self.spec_next());
                let m = self.spec_keys();
                assert forall|q: u64| #[trigger] m.contains_key(q) implies q < self.spec_next() by {
                    if q != key {
                        assert(old(self).spec_keys().contains_key(q));
                    }
                }
                assert forall|q: u64, c: u64| #[trigger] m.contains_key(q) && #[trigger] m[q].3.contains(
                    c,
                ) implies c < self.spec_next() by {
                    if q != key {
                        assert(old(self).spec_keys()[q].3.contains(c));
                    }
                }
                let t = self.spec_top();
                assert forall|i: int| 0 <= i < t.len() implies (#[trigger] t[i]).1
                    < self.spec_next() by {
                    if find(old(self).spec_top(), nv) is None {
                        lemma_insert_entries(old(self).spec_top(), nv, old(self).spec_next());
                    }
                }
            }
            if old(self).tree_ok() {
                assert forall|q: u64| #[trigger] self.spec_keys().contains_key(q)
                    <==> self.spec_ids().contains(q) by {
                    self.keys.lemma_dom_ids(q);
                }
                assert(increasing(self.spec_ids())) by {
                    assert forall|a: int, b: int| 0 <= a < b < self.spec_ids().len() implies
                        #[trigger] self.spec_ids()[a] < #[trigger] self.spec_ids()[b] by {
                        assert(id_lt(self.keys.entries_view()[a].0, self.keys.entries_view()[b].0));
                    }
                }
                lemma_insert_tree_ok(*old(self), nv, value, *self);
            }
        }
    }
}

/// The id that the key `o` of a nested map, whose ids are `ids` in increasing order, receives
/// when the new ids start at `base`: ids are given in the same order.
pub open spec fn moved_id(ids: Seq<u64>, base: u64, o: u64) -> u64 {
    (base + ids.index_of(o)) as u64
}

/// A key of a nested map, with its parent and children given their new ids.
pub open spec fn moved_view<V>(v: KeyView<V>, ids: Seq<u64>, base: u64) -> KeyView<V> {
    (
        match v.0 {
            Some(p) => Some(moved_id(ids, base, p)),
            None => None,
        },
        v.1,
        v.2,
        v.3.map(|c: u64| moved_id(ids, base, c)),
    )
}

/// Whether `q` is among the first `n` ids of `s`.
spec fn among(s: Seq<u64>, n: int, q: u64) -> bool {
    exists|u: int| 0 <= u < n && s[u] == q
}

/// The keys of a map, by id.
spec fn view_map<V>(m: IdMap<KeyInfo<V>>) -> Map<u64, KeyView<V>> {
    Map::new(|q: u64| m.as_map().dom().contains(q), |q: u64| info_view(m.as_map()[q]))
}

/// Strictly increasing ids.
pub open spec fn increasing(ids: Seq<u64>) -> bool {
    forall|a: int, b: int| 0 <= a < b < ids.len() ==> #[trigger] ids[a] < #[trigger] ids[b]
}

/// The new id of `o`, one of `ids`.
fn moved(ids: &Vec<u64>, base: u64, o: u64) -> (r: u64)
    requires
        increasing(ids@),
        ids@.contains(o),
        base + ids@.len() <= u64::MAX,
    ensures
        r == moved_id(ids@, base, o),
{
    let mut i: usize = 0;
    while i < ids.len()
        invariant
            i <= ids@.len(),
            forall|j: int| 0 <= j < i ==> ids@[j] != o,
            ids@.contains(o),
            increasing(ids@),
            base + ids@.len() <= u64::MAX,
        decreases ids@.len() - i,
    {
        if ids[i] == o {
            proof {
                assert(0 <= i < ids@.len() && ids@[i as int] == o);
                let j = ids@.index_of(o);
                assert(0 <= j < ids@.len() && ids@[j] == o);
                if j != i {
                    if j < i {
                        assert(ids@[j] < ids@[i as int]);
                    } else {
                        assert(ids@[i as int] < ids@[j]);
                    }
                }
            }
            return base + i as u64;
        }
        i = i + 1;
    }
    proof {
        let j = ids@.index_of(o);
        assert(ids@[j] == o);
    }
    0
}

/// The information of a key of a nested map, with its parent and children given their new ids.
fn move_info<V>(info: KeyInfo<V>, ids: &Vec<u64>, base: u64) -> (r: KeyInfo<V>)
    requires
        increasing(ids@),
        base + ids@.len() <= u64::MAX,
        info_view(info).0 matches Some(p) ==> ids@.contains(p),
        forall|c: u64| #[trigger] info_view(info).3.contains(c) ==> ids@.contains(c),
    ensures
        info_view(r) == moved_view(info_view(info), ids@, base),
{
    let parent = match info.parent {
        Some(p) => Some(moved(ids, base, p)),
        None => None,
    };
    let content = match info.content {
        KeyContent::Value(v) => {
            proof {
                assert(Set::<u64>::empty().map(|c: u64| moved_id(ids@, base, c)) =~= Set::<
                    u64,
                >::empty());
            }
            KeyContent::Value(v)
        },
        KeyContent::Nested(children) => {
            let list = children.key_list();
            let ghost cs = children.as_map().dom();
            let mut out: IdMap<()> = IdMap::new();
            let mut j: usize = 0;
            proof {
                assert(info_view(info).3 == cs);
                assert(out.as_map().dom() =~= Set::new(
                    |x: u64| exists|t: int| 0 <= t < j && x == moved_id(ids@, base, list@[t]),
                ));
            }
            while j < list.len()
                invariant
                    j <= list@.len(),
                    list@ == ids_of(children.entries_view()),
                    sorted_ids(children.entries_view()),
                    cs == children.as_map().dom(),
                    increasing(ids@),
                    base + ids@.len() <= u64::MAX,
                    forall|c: u64| #[trigger] cs.contains(c) ==> ids@.contains(c),
                    out.as_map().dom() == Set::new(
                        |x: u64| exists|t: int| 0 <= t < j && x == moved_id(ids@, base, list@[t]),
                    ),
                decreases list@.len() - j,
            {
                let c = list[j];
                proof {
                    children.lemma_dom_ids(c);
                    assert(list@[j as int] == c);
                }
                let m = moved(ids, base, c);
                out.insert(m, ());
                proof {
                    assert(out.as_map().dom() =~= Set::new(
                        |x: u64| exists|t: int| 0 <= t < j + 1 && x == moved_id(ids@, base, list@[t]),
                    )) by {
                        assert forall|x: u64| #[trigger] out.as_map().dom().contains(x) implies exists|t: int|
                            0 <= t < j + 1 && x == moved_id(ids@, base, list@[t]) by {
                            if x == m {
                                assert(m == moved_id(ids@, base, list@[j as int]));
                            }
                        }
                    }
                }
                j = j + 1;
            }
            proof {
                assert(out.as_map().dom() =~= cs.map(|c: u64| moved_id(ids@, base, c))) by {
                    assert forall|x: u64| #[trigger] out.as_map().dom().contains(x) implies cs.map(
                        |c: u64| moved_id(ids@, base, c),
                    ).contains(x) by {
                        let t = choose|t: int| 0 <= t < j && x == moved_id(ids@, base, list@[t]);
                        children.lemma_dom_ids(list@[t]);
                        assert(cs.contains(list@[t]));
                    }
                    assert forall|x: u64| cs.map(|c: u64| moved_id(ids@, base, c)).contains(
                        x,
                    ) implies #[trigger] out.as_map().dom().contains(x) by {
                        let c = choose|c: u64| cs.contains(c) && moved_id(ids@, base, c) == x;
                        children.lemma_dom_ids(c);
                        let t = choose|t: int| 0 <= t < list@.len() && list@[t] == c;
                        assert(0 <= t < j && x == moved_id(ids@, base, list@[t]));
                    }
                }
            }
            KeyContent::Nested(out)
        },
    };
    KeyInfo { parent, name: info.name, content }
}

impl<V> PrefixMap<V> {
    /// The keys after nesting `other` under the top-level key `name`: `name` holds the top-level
    /// keys of `other`; every key of `other` is copied with a new id (ids are given from
    /// [`PrefixMap::next_after`] on, in the order of the old ids), its parent and children
    /// given their new ids; then every key whose id is the (old) id of a top-level key of
    /// `other` gets `name` as its parent.
    pub open spec fn nested_keys(&self, name: Seq<char>, other: PrefixMap<V>) -> Map<
        u64,
        KeyView<V>,
    > {
        let key = self.id_for(name);
        let base = self.next_after(name) as u64;
        let ids = other.spec_ids();
        let tops = other.top_ids();
        let with_key = self.spec_keys().insert(
            key,
            (None, name, None, tops.map(|t: u64| moved_id(ids, base, t))),
        );
        let moved = Map::new(
            |q: u64| base <= q < base + ids.len(),
            |q: u64| moved_view(other.spec_keys()[ids[q - base]], ids, base),
        );
        let all = with_key.union_prefer_right(moved);
        Map::new(
            |q: u64| all.contains_key(q),
            |q: u64|
                if tops.contains(q) {
                    (Some(key), all[q].1, all[q].2, all[q].3)
                } else {
                    all[q]
                },
        )
    }

    /// Nests `other` under the top-level key `name` (see [`PrefixMap::nested_keys`]).
    pub fn nest(&mut self, name: String, other: Self)
        requires
            old(self).next_after(name@) + other.spec_ids().len() <= u64::MAX,
            other.refs_ok(),
            forall|t: u64|
                #[trigger] other.top_ids().contains(t) ==> old(self).spec_keys().contains_key(t)
                    || t == old(self).id_for(name@) || (old(self).next_after(name@) <= t
                    < old(self).next_after(name@) + other.spec_ids().len()),
        ensures
            final(self).spec_top() == old(self).top_after(name@),
            final(self).spec_next() == old(self).next_after(name@) + other.spec_ids().len(),
            final(self).spec_keys() == old(self).nested_keys(name@, other),
            old(self).ids_below_next() ==> final(self).ids_below_next(),
            old(self).tree_ok() && other.tree_ok() ==> final(self).tree_ok(),
    {
        let ghost nv = name@;
        let ghost old_keys = self.spec_keys();
        let key = self.insert_key(name.clone());
        let base = self.next_key_id;
        let PrefixMap { next_key_id: _, top_keys: other_top, keys: other_keys } = other;
        let ids = other_keys.key_list();
        let ghost ov = view_map(other_keys);
        let ghost tops_set = other.top_ids();
        proof {
            assert(ov =~= other.spec_keys());
            assert(increasing(ids@)) by {
                assert forall|a: int, b: int| 0 <= a < b < ids@.len() implies #[trigger] ids@[a]
                    < #[trigger] ids@[b] by {
                    assert(ids@[a] == other_keys.entries_view()[a].0);
                    assert(ids@[b] == other_keys.entries_view()[b].0);
                }
            }
        }
        let mut tops: Vec<u64> = Vec::new();
        let mut j: usize = 0;
        while j < other_top.len()
            invariant
                j <= other_top.entries_view().len(),
                other_top.entries_view() == other.spec_top(),
                tops@.len() == j,
                forall|t: int| 0 <= t < j ==> #[trigger] tops@[t] == other.spec_top()[t].1,
            decreases other_top.entries_view().len() - j,
        {
            let (_, id) = other_top.entry_at(j);
            tops.push(*id);
            j = j + 1;
        }
        proof {
            assert forall|t: u64| tops_set.contains(t) <==> tops@.contains(t) by {
                if tops_set.contains(t) {
                    let i = choose|i: int| 0 <= i < other.spec_top().len() && other.spec_top()[i].1 == t;
                    assert(tops@[i] == t);
                }
                if tops@.contains(t) {
                    let i = choose|i: int| 0 <= i < tops@.len() && tops@[i] == t;
                    assert(other.spec_top()[i].1 == t);
                }
            }
        }
        self.next_key_id = base + ids.len() as u64;
        let ghost ids_v = ids@;
        let ghost f = |c: u64| moved_id(ids_v, base, c);
        let mut kids: IdMap<()> = IdMap::new();
        let mut k: usize = 0;
        proof {
            assert(kids.as_map().dom() =~= Set::new(
                |x: u64| exists|t: int| 0 <= t < k && x == f(tops@[t]),
            ));
            assert forall|t: u64| #[trigger] tops_set.contains(t) implies ids@.contains(t) by {
                assert(other.spec_keys().contains_key(t));
                other_keys.lemma_dom_ids(t);
            }
        }
        while k < tops.len()
            invariant
                k <= tops@.len(),
                ids@ == ids_v,
                increasing(ids@),
                base + ids@.len() <= u64::MAX,
                f == |c: u64| moved_id(ids_v, base, c),
                forall|t: u64| tops_set.contains(t) <==> tops@.contains(t),
                forall|t: u64| #[trigger] tops_set.contains(t) ==> ids@.contains(t),
                kids.as_map().dom() == Set::new(
                    |x: u64| exists|t: int| 0 <= t < k && x == f(tops@[t]),
                ),
            decreases tops@.len() - k,
        {
            let t = tops[k];
            proof {
                assert(tops@[k as int] == t);
                assert(tops@.contains(t));
                assert(tops_set.contains(t));
            }
            let m = moved(&ids, base, t);
            kids.insert(m, ());
            proof {
                assert(kids.as_map().dom() =~= Set::new(
                    |x: u64| exists|s: int| 0 <= s < k + 1 && x == f(tops@[s]),
                )) by {
                    assert forall|x: u64| #[trigger] kids.as_map().dom().contains(x) implies exists|s: int|
                        0 <= s < k + 1 && x == f(tops@[s]) by {
                        if x == m {
                            assert(x == f(tops@[k as int]));
                        }
                    }
                }
            }
            k = k + 1;
        }
        proof {
            assert(kids.as_map().dom() =~= tops_set.map(f)) by {
                assert forall|x: u64| #[trigger] kids.as_map().dom().contains(x) implies tops_set.map(
                    f,
                ).contains(x) by {
                    let s = choose|s: int| 0 <= s < k && x == f(tops@[s]);
                    assert(tops@.contains(tops@[s]));
                    assert(tops_set.contains(tops@[s]));
                }
                assert forall|x: u64| tops_set.map(f).contains(x) implies #[trigger] kids.as_map().dom().contains(
                    x,
                ) by {
                    let t = choose|t: u64| tops_set.contains(t) && f(t) == x;
                    assert(tops@.contains(t));
                    let s = choose|s: int| 0 <= s < tops@.len() && tops@[s] == t;
                    assert(0 <= s < k && x == f(tops@[s]));
                }
            }
        }
        let mut keys: IdMap<KeyInfo<V>> = IdMap::new();
        std::mem::swap(&mut keys, &mut self.keys);
        let info = KeyInfo { parent: None, name, content: KeyContent::Nested(kids) };
        keys.insert(key, info);
        let ghost with_key = old_keys.insert(key, (None, nv, None, tops_set.map(f)));
        proof {
            assert(view_map(keys) =~= with_key);
        }
        let mut entries = other_keys.into_entries();
        let n_ids = ids.len();
        let mut i: usize = 0;
        while entries.len() > 0
            invariant
                i + entries@.len() == ids_v.len(),
                ids_v.len() == n_ids,
                entries@ == other_keys.entries_view().skip(i as int),
                ids@ == ids_v,
                ids_v == ids_of(other_keys.entries_view()),
                increasing(ids@),
                base + ids@.len() <= u64::MAX,
                ov == view_map(other_keys),
                other.refs_ok(),
                ov == other.spec_keys(),
                sorted_ids(other_keys.entries_view()),
                sorted_ids(keys.entries_view()),
                view_map(keys) == with_key.union_prefer_right(
                    Map::new(
                        |q: u64| base <= q < base + i,
                        |q: u64| moved_view(ov[ids_v[q - base]], ids_v, base),
                    ),
                ),
            decreases entries@.len(),
        {
            let (o, info) = entries.remove(0);
            proof {
                assert(other_keys.entries_view()[i as int] == (o, info));
                assert(ids_v[i as int] == o);
                crate::idmap::lemma_find_id_index(other_keys.entries_view(), o);
                assert(other_keys.as_map()[o] == info);
                assert(ov[o] == info_view(info));
                other_keys.lemma_dom_ids(o);
                assert(other.spec_keys().contains_key(o));
                if let Some(p) = info_view(info).0 {
                    assert(ov.contains_key(p));
                    other_keys.lemma_dom_ids(p);
                }
                assert forall|c: u64| #[trigger] info_view(info).3.contains(c) implies ids@.contains(c) by {
                    assert(other.spec_keys()[o].3.contains(c));
                    assert(other.spec_keys().contains_key(c));
                    other_keys.lemma_dom_ids(c);
                }
            }
            let moved_info = move_info(info, &ids, base);
            let ghost prev = view_map(keys);
            keys.insert(base + i as u64, moved_info);
            proof {
                assert(entries@ =~= other_keys.entries_view().skip(i + 1));
                let q0 = (base + i) as u64;
                assert(view_map(keys) =~= prev.insert(q0, info_view(moved_info)));
                assert(info_view(moved_info) == moved_view(ov[ids_v[q0 - base]], ids_v, base));
                assert(view_map(keys) =~= with_key.union_prefer_right(
                    Map::new(
                        |q: u64| base <= q < base + i + 1,
                        |q: u64| moved_view(ov[ids_v[q - base]], ids_v, base),
                    ),
                )) by {
                    assert(ids_v[q0 - base] == o);
                }
            }
            i = i + 1;
        }
        let ghost all = view_map(keys);
        proof {
            assert(all == with_key.union_prefer_right(
                Map::new(
                    |q: u64| base <= q < base + ids_v.len(),
                    |q: u64| moved_view(other.spec_keys()[ids_v[q - base]], ids_v, base),
                ),
            )) by {
                assert(i == ids_v.len());
            }
        }
        let mut s: usize = 0;
        while s < tops.len()
            invariant
                s <= tops@.len(),
                sorted_ids(keys.entries_view()),
                forall|t: u64| tops_set.contains(t) <==> tops@.contains(t),
                forall|t: u64| #[trigger] tops_set.contains(t) ==> all.contains_key(t),
                view_map(keys) == Map::new(
                    |q: u64| all.contains_key(q),
                    |q: u64|
                        if among(tops@, s as int, q) {
                            (Some(key), all[q].1, all[q].2, all[q].3)
                        } else {
                            all[q]
                        },
                ),
            decreases tops@.len() - s,
        {
            let t = tops[s];
            let ghost before = view_map(keys);
            proof {
                assert(tops@[s as int] == t);
                assert(tops@.contains(t));
                assert(tops_set.contains(t));
                assert(all.contains_key(t));
                assert(before.contains_key(t));
                assert(keys.as_map().dom().contains(t));
            }
            let got = keys.remove(t);
            match got {
                Some(mut info) => {
                    let ghost old_info = info;
                    info.parent = Some(key);
                    keys.insert(t, info);
                    proof {
                        assert(info_view(old_info) == before[t]);
                        assert(view_map(keys) =~= before.insert(
                            t,
                            (Some(key), before[t].1, before[t].2, before[t].3),
                        ));
                    }
                },
                None => {
                    proof {
                        assert(false);
                    }
                },
            }
            proof {
                assert(view_map(keys) =~= Map::new(
                    |q: u64| all.contains_key(q),
                    |q: u64|
                        if among(tops@, s + 1, q) {
                            (Some(key), all[q].1, all[q].2, all[q].3)
                        } else {
                            all[q]
                        },
                )) by {
                    assert(tops@[s as int] == t);
                    assert(among(tops@, s + 1, t));
                    assert forall|q: u64| q != t implies #[trigger] among(tops@, s + 1, q) == among(
                        tops@,
                        s as int,
                        q,
                    ) by {
                        if among(tops@, s + 1, q) {
                            let u = choose|u: int| 0 <= u < s + 1 && tops@[u] == q;
                            assert(u != s);
                        }
                    }
                }
            }
            s = s + 1;
        }
        self.keys = keys;
        proof {
            assert(self.spec_keys() =~= old(self).nested_keys(nv, other)) by {
                assert forall|q: u64| #[trigger] among(tops@, s as int, q) <==> tops_set.contains(q) by {
                    if tops_set.contains(q) {
                        assert(tops@.contains(q));
                    }
                }
            }
            assert forall|c: u64| other.spec_keys().contains_key(c) <==> other.spec_ids().contains(
                c,
            ) by {
                other_keys.lemma_dom_ids(c);
            }
            if old(self).ids_below_next() {
                lemma_nest_ids_below(*old(self), nv, other);
            }
            if old(self).tree_ok() && other.tree_ok() {
                assert forall|q: u64| #[trigger] self.spec_keys().contains_key(q)
                    <==> self.spec_ids().contains(q) by {
                    self.keys.lemma_dom_ids(q);
                }
                assert(increasing(self.spec_ids())) by {
                    assert forall|a: int, b: int| 0 <= a < b < self.spec_ids().len() implies
                        #[trigger] self.spec_ids()[a] < #[trigger] self.spec_ids()[b] by {
                        assert(id_lt(self.keys.entries_view()[a].0, self.keys.entries_view()[b].0));
                    }
                }
                lemma_nest_tree_ok(*old(self), nv, other, *self);
            }
        }
    }
}

/// An entry found in an entry sequence is one of its entries.
proof fn lemma_find_entry<W>(s: Seq<(Seq<char>, W)>, k: Seq<char>)
    ensures
        find(s, k) matches Some(w) ==> exists|j: int| 0 <= j < s.len() && s[j] == (k, w),
    decreases s.len(),
{
    if s.len() > 0 && s[0].0 != k {
        lemma_find_entry(s.drop_first(), k);
        if let Some(w) = find(s, k) {
            let j = choose|j: int| 0 <= j < s.drop_first().len() && s.drop_first()[j] == (k, w);
            assert(s[j + 1] == (k, w));
        }
    } else if s.len() > 0 {
        assert(s[0] == (k, s[0].1));
    }
}

/// Every entry after an insertion is the inserted one or an entry from before.
proof fn lemma_insert_entries<W>(s: Seq<(Seq<char>, W)>, k: Seq<char>, v: W)
    ensures
        forall|i: int|
            0 <= i < insert_sorted(s, k, v).len() ==> #[trigger] insert_sorted(s, k, v)[i] == (k, v)
                || exists|j: int| 0 <= j < s.len() && s[j] == insert_sorted(s, k, v)[i],
    decreases s.len(),
{
    let r = insert_sorted(s, k, v);
    if s.len() > 0 {
        let t = s.drop_first();
        lemma_insert_entries(t, k, v);
        assert forall|i: int| 0 <= i < r.len() implies #[trigger] r[i] == (k, v) || exists|j: int|
            0 <= j < s.len() && s[j] == r[i] by {
            if s[0].0 == k {
                if i > 0 {
                    assert(r[i] == s[i]);
                }
            } else if text_lt(k, s[0].0) {
                if i > 0 {
                    assert(r[i] == s[i - 1]);
                }
            } else {
                if i == 0 {
                    assert(r[0] == s[0]);
                } else {
                    assert(r[i] == insert_sorted(t, k, v)[i - 1]);
                    if insert_sorted(t, k, v)[i - 1] != (k, v) {
                        let j = choose|j: int| 0 <= j < t.len() && t[j] == insert_sorted(t, k, v)[i - 1];
                        assert(s[j + 1] == r[i]);
                    }
                }
            }
        }
    }
}

/// Nesting keeps every id below the id the next new key receives.
proof fn lemma_nest_ids_below<V>(before: PrefixMap<V>, name: Seq<char>, other: PrefixMap<V>)
    requires
        before.ids_below_next(),
        other.refs_ok(),
        forall|c: u64| other.spec_keys().contains_key(c) <==> other.spec_ids().contains(c),
        before.next_after(name) + other.spec_ids().len() <= u64::MAX,
    ensures
        keys_below(
            before.nested_keys(name, other),
            before.top_after(name),
            before.next_after(name) + other.spec_ids().len(),
        ),
{
    let key = before.id_for(name);
    let base = before.next_after(name) as u64;
    let ids = other.spec_ids();
    let next = before.next_after(name) + ids.len();
    let m = before.nested_keys(name, other);
    assert(key < base) by {
        lemma_find_entry(before.spec_top(), name);
    }
    assert forall|c: u64| other.spec_keys().contains_key(c) implies base <= #[trigger] moved_id(
        ids,
        base,
        c,
    ) < next by {
        assert(ids.contains(c));
        let i = ids.index_of(c);
        assert(0 <= i < ids.len());
    }
    assert forall|q: u64| #[trigger] m.contains_key(q) implies q < next by {}
    assert forall|q: u64, c: u64| #[trigger] m.contains_key(q) && #[trigger] m[q].3.contains(
        c,
    ) implies c < next by {
        if base <= q < base + ids.len() {
            let o = ids[q - base];
            assert(other.spec_keys().contains_key(o)) by {
                assert(ids.contains(o));
            }
            let d = choose|d: u64| other.spec_keys()[o].3.contains(d) && moved_id(ids, base, d) == c;
        } else if q == key {
            let t = choose|t: u64| other.top_ids().contains(t) && moved_id(ids, base, t) == c;
        } else {
            assert(before.spec_keys().contains_key(q));
            assert(before.spec_keys()[q].3.contains(c));
        }
    }
    let t = before.top_after(name);
    assert forall|i: int| 0 <= i < t.len() implies (#[trigger] t[i]).1 < next by {
        if find(before.spec_top(), name) is None {
            lemma_insert_entries(before.spec_top(), name, before.spec_next());
        }
    }
}

/// Nesting hands out fresh ids: no key of the map had an id that a key of `other` receives,
/// and every key of the map other than `name` keeps its name, value and children.
pub proof fn law_nest_fresh_ids<V>(before: PrefixMap<V>, name: Seq<char>, other: PrefixMap<V>)
    requires
        before.ids_below_next(),
        before.next_after(name) + other.spec_ids().len() <= u64::MAX,
    ensures
        forall|q: u64|
            before.next_after(name) <= q < before.next_after(name) + other.spec_ids().len()
                ==> !#[trigger] before.spec_keys().contains_key(q),
        forall|q: u64|
            #[trigger] before.spec_keys().contains_key(q) && q != before.id_for(name) ==> {
                let after = before.nested_keys(name, other);
                &&& after.contains_key(q)
                &&& after[q].1 == before.spec_keys()[q].1
                &&& after[q].2 == before.spec_keys()[q].2
                &&& after[q].3 == before.spec_keys()[q].3
            },
{
    let key = before.id_for(name);
    let base = before.next_after(name) as u64;
    let ids = other.spec_ids();
    let tops = other.top_ids();
    let with_key = before.spec_keys().insert(
        key,
        (None, name, None, tops.map(|t: u64| moved_id(ids, base, t))),
    );
    let moved = Map::new(
        |q: u64| base <= q < base + ids.len(),
        |q: u64| moved_view(other.spec_keys()[ids[q - base]], ids, base),
    );
    let all = with_key.union_prefer_right(moved);
    assert forall|q: u64| #[trigger] before.spec_keys().contains_key(q) && q != key implies {
        let after = before.nested_keys(name, other);
        &&& after.contains_key(q)
        &&& after[q].1 == before.spec_keys()[q].1
        &&& after[q].2 == before.spec_keys()[q].2
        &&& after[q].3 == before.spec_keys()[q].3
    } by {
        assert(q < before.spec_next());
        assert(!moved.contains_key(q));
        assert(all[q] == before.spec_keys()[q]);
    }
}

/// Whether the key `x` is reached from the key `id` of `m` by following, one name after the
/// other, a child of that name.
pub open spec fn reaches<V>(m: Map<u64, KeyView<V>>, id: u64, path: Seq<Seq<char>>, x: u64) -> bool
    decreases path.len(),
{
    if path.len() == 0 {
        m.contains_key(id) && x == id
    } else {
        &&& m.contains_key(id)
        &&& exists|c: u64|
            #![trigger m[id].3.contains(c)]
            m[id].3.contains(c) && m.contains_key(c) && m[c].1 == path[0] && reaches(
                m,
                c,
                path.drop_first(),
                x,
            )
    }
}

/// Whether the keys `keys` with the top-level keys `top` hold `content` at the name path `path`:
/// a value (`Some`) or a nested map (`None`).
pub open spec fn holds_at<V>(
    keys: Map<u64, KeyView<V>>,
    top: Seq<(Seq<char>, u64)>,
    path: Seq<Seq<char>>,
    content: Option<V>,
) -> bool {
    &&& path.len() > 0
    &&& find(top, path[0]) is Some
    &&& exists|x: u64|
        #[trigger] reaches(keys, find(top, path[0]).unwrap(), path.drop_first(), x) && keys[x].2
            == content
}

proof fn lemma_reaches_contains<V>(m: Map<u64, KeyView<V>>, id: u64, path: Seq<Seq<char>>, x: u64)
    requires
        reaches(m, id, path, x),
    ensures
        m.contains_key(x),
    decreases path.len(),
{
    if path.len() > 0 {
        let c = choose|c: u64|
            #![trigger m[id].3.contains(c)]
            m[id].3.contains(c) && m.contains_key(c) && m[c].1 == path[0] && reaches(
                m,
                c,
                path.drop_first(),
                x,
            );
        lemma_reaches_contains(m, c, path.drop_first(), x);
    }
}

/// Following names from a key that another map holds alike, together with everything below it,
/// reaches the same keys in both maps.
proof fn lemma_reaches_same<V>(
    b: Map<u64, KeyView<V>>,
    m: Map<u64, KeyView<V>>,
    key: u64,
    y: u64,
    path: Seq<Seq<char>>,
    x: u64,
)
    requires
        b.contains_key(y),
        y != key,
        forall|q: u64, c: u64|
            #[trigger] b.contains_key(q) && #[trigger] b[q].3.contains(c) ==> b.contains_key(c) && c
                != key,
        forall|q: u64|
            #[trigger] b.contains_key(q) && q != key ==> m.contains_key(q) && m[q].1 == b[q].1 && m[q].2
                == b[q].2 && m[q].3 == b[q].3,
    ensures
        reaches(m, y, path, x) == reaches(b, y, path, x),
        reaches(b, y, path, x) ==> b.contains_key(x) && x != key,
    decreases path.len(),
{
    if path.len() > 0 {
        let rest = path.drop_first();
        if reaches(m, y, path, x) {
            let c = choose|c: u64|
                #![trigger m[y].3.contains(c)]
                m[y].3.contains(c) && m.contains_key(c) && m[c].1 == path[0] && reaches(m, c, rest, x);
            assert(b[y].3.contains(c));
            lemma_reaches_same(b, m, key, c, rest, x);
            assert(b.contains_key(c) && b[c].1 == path[0]);
        }
        if reaches(b, y, path, x) {
            let c = choose|c: u64|
                #![trigger b[y].3.contains(c)]
                b[y].3.contains(c) && b.contains_key(c) && b[c].1 == path[0] && reaches(b, c, rest, x);
            lemma_reaches_same(b, m, key, c, rest, x);
            assert(m[y].3.contains(c));
        }
    }
}

/// What the keys of a moved copy hold, for the keys of `o`.
pub open spec fn moved_alike<V>(
    o: Map<u64, KeyView<V>>,
    m: Map<u64, KeyView<V>>,
    ids: Seq<u64>,
    base: u64,
) -> bool {
    &&& forall|q: u64, c: u64|
        #[trigger] o.contains_key(q) && #[trigger] o[q].3.contains(c) ==> o.contains_key(c)
    &&& forall|q: u64|
        #[trigger] o.contains_key(q) ==> m.contains_key(moved_id(ids, base, q)) && m[moved_id(
            ids,
            base,
            q,
        )].1 == o[q].1 && m[moved_id(ids, base, q)].2 == o[q].2 && m[moved_id(ids, base, q)].3
            == o[q].3.map(|c: u64| moved_id(ids, base, c))
}

proof fn lemma_moved_forward<V>(
    o: Map<u64, KeyView<V>>,
    m: Map<u64, KeyView<V>>,
    ids: Seq<u64>,
    base: u64,
    y: u64,
    path: Seq<Seq<char>>,
    x: u64,
)
    requires
        moved_alike(o, m, ids, base),
        reaches(o, y, path, x),
    ensures
        reaches(m, moved_id(ids, base, y), path, moved_id(ids, base, x)),
    decreases path.len(),
{
    if path.len() > 0 {
        let rest = path.drop_first();
        let c = choose|c: u64|
            #![trigger o[y].3.contains(c)]
            o[y].3.contains(c) && o.contains_key(c) && o[c].1 == path[0] && reaches(o, c, rest, x);
        lemma_moved_forward(o, m, ids, base, c, rest, x);
        let f = |d: u64| moved_id(ids, base, d);
        assert(o[y].3.map(f).contains(f(c)));
        assert(m[moved_id(ids, base, y)].3.contains(moved_id(ids, base, c)));
    }
}

proof fn lemma_moved_back<V>(
    o: Map<u64, KeyView<V>>,
    m: Map<u64, KeyView<V>>,
    ids: Seq<u64>,
    base: u64,
    y: u64,
    path: Seq<Seq<char>>,
    z: u64,
)
    requires
        moved_alike(o, m, ids, base),
        o.contains_key(y),
        reaches(m, moved_id(ids, base, y), path, z),
    ensures
        exists|x: u64| #[trigger] reaches(o, y, path, x) && z == moved_id(ids, base, x),
    decreases path.len(),
{
    let my = moved_id(ids, base, y);
    if path.len() == 0 {
        assert(reaches(o, y, path, y));
    } else {
        let rest = path.drop_first();
        let c = choose|c: u64|
            #![trigger m[my].3.contains(c)]
            m[my].3.contains(c) && m.contains_key(c) && m[c].1 == path[0] && reaches(m, c, rest, z);
        let d = choose|d: u64| o[y].3.contains(d) && c == moved_id(ids, base, d);
        lemma_moved_back(o, m, ids, base, d, rest, z);
        let x = choose|x: u64| #[trigger] reaches(o, d, rest, x) && z == moved_id(ids, base, x);
        assert(o[y].3.contains(d) && o.contains_key(d) && o[d].1 == path[0] && reaches(o, d, rest, x));
        assert(reaches(o, y, path, x));
    }
}

/// Looking up a top-level name once `name` has an id.
pub proof fn law_top_names<V>(before: PrefixMap<V>, name: Seq<char>, q: Seq<char>)
    ensures
        find(before.top_after(name), q) == if q == name {
            Some(before.id_for(name))
        } else {
            find(before.spec_top(), q)
        },
{
    if find(before.spec_top(), name) is None {
        lemma_find_insert(before.spec_top(), name, before.spec_next(), q);
    }
}

/// In a well-built map, the key of `name` is nobody's child, and a top-level key of another
/// name is a different key.
proof fn lemma_other_top<V>(before: PrefixMap<V>, name: Seq<char>, p0: Seq<char>)
    requires
        before.tree_ok(),
    ensures
        forall|q: u64, c: u64|
            #[trigger] before.spec_keys().contains_key(q) && #[trigger] before.spec_keys()[q].3.contains(
                c,
            ) ==> before.spec_keys().contains_key(c) && c != before.id_for(name),
        p0 != name && find(before.spec_top(), p0) is Some ==> before.spec_keys().contains_key(
            find(before.spec_top(), p0).unwrap(),
        ) && find(before.spec_top(), p0).unwrap() != before.id_for(name),
{
    let top = before.spec_top();
    let key = before.id_for(name);
    lemma_find_entry(top, name);
    lemma_find_entry(top, p0);
    if let Some(k) = find(top, name) {
        let j = choose|j: int| 0 <= j < top.len() && top[j] == (name, k);
        assert(before.top_ids().contains(key));
    }
    assert forall|q: u64, c: u64|
        #[trigger] before.spec_keys().contains_key(q) && #[trigger] before.spec_keys()[q].3.contains(
            c,
        ) implies before.spec_keys().contains_key(c) && c != key by {}
    if p0 != name && find(top, p0) is Some {
        let t = find(top, p0).unwrap();
        let j = choose|j: int| 0 <= j < top.len() && top[j] == (p0, t);
        assert(before.top_ids().contains(t));
        if let Some(k) = find(top, name) {
            let j2 = choose|j2: int| 0 <= j2 < top.len() && top[j2] == (name, k);
            if j < j2 {
                assert(top[j].1 != top[j2].1);
            } else if j2 < j {
                assert(top[j2].1 != top[j].1);
            }
        }
    }
}

/// Storing a value under the top-level name `name` puts it there, under no deeper name, and
/// leaves what every other top-level name holds as it was.
pub proof fn law_insert_names<V>(
    before: PrefixMap<V>,
    name: Seq<char>,
    value: V,
    path: Seq<Seq<char>>,
    content: Option<V>,
)
    requires
        before.tree_ok(),
    ensures
        holds_at(
            before.spec_keys().insert(before.id_for(name), (None, name, Some(value), Set::empty())),
            before.top_after(name),
            path,
            content,
        ) == if path.len() > 0 && path[0] == name {
            path.len() == 1 && content == Some(value)
        } else {
            holds_at(before.spec_keys(), before.spec_top(), path, content)
        },
{
    let key = before.id_for(name);
    let b = before.spec_keys();
    let m = b.insert(key, (None, name, Some(value), Set::empty()));
    let t2 = before.top_after(name);
    if path.len() > 0 {
        let rest = path.drop_first();
        law_top_names(before, name, path[0]);
        lemma_other_top(before, name, path[0]);
        if path[0] == name {
            assert(find(t2, path[0]) == Some(key));
            if path.len() == 1 {
                assert(rest.len() == 0);
                assert(reaches(m, key, rest, key));
                assert(m[key].2 == Some(value));
                assert forall|x: u64| reaches(m, key, rest, x) implies x == key by {}
                if content == Some(value) {
                    assert(reaches(m, find(t2, path[0]).unwrap(), path.drop_first(), key) && m[key].2
                        == content);
                }
                if holds_at(m, t2, path, content) {
                    let x = choose|x: u64|
                        #[trigger] reaches(m, find(t2, path[0]).unwrap(), path.drop_first(), x)
                            && m[x].2 == content;
                    assert(x == key);
                }
            } else {
                assert forall|x: u64| !reaches(m, key, rest, x) by {}
                assert(!holds_at(m, t2, path, content));
            }
        } else if find(before.spec_top(), path[0]) is Some {
            let t = find(before.spec_top(), path[0]).unwrap();
            assert forall|x: u64|
                (reaches(m, t, rest, x) && m[x].2 == content) == (reaches(b, t, rest, x) && b[x].2
                    == content) by {
                lemma_reaches_same(b, m, key, t, rest, x);
            }
            if holds_at(b, before.spec_top(), path, content) {
                let x = choose|x: u64| #[trigger] reaches(b, t, rest, x) && b[x].2 == content;
                assert(reaches(m, t, rest, x) && m[x].2 == content);
            }
            if holds_at(m, t2, path, content) {
                let x = choose|x: u64| #[trigger] reaches(m, t, rest, x) && m[x].2 == content;
                assert(reaches(b, t, rest, x) && b[x].2 == content);
            }
        } else {
            assert(!holds_at(m, t2, path, content));
        }
    }
}

/// What nesting makes of the key `name` and of the keys of `other`.
proof fn lemma_nest_moved<V>(before: PrefixMap<V>, name: Seq<char>, other: PrefixMap<V>)
    requires
        before.ids_below_next(),
        other.tree_ok(),
        before.next_after(name) + other.spec_ids().len() <= u64::MAX,
    ensures
        moved_alike(
            other.spec_keys(),
            before.nested_keys(name, other),
            other.spec_ids(),
            before.next_after(name) as u64,
        ),
        before.nested_keys(name, other).contains_key(before.id_for(name)),
        before.nested_keys(name, other)[before.id_for(name)].1 == name,
        before.nested_keys(name, other)[before.id_for(name)].2 is None,
        before.nested_keys(name, other)[before.id_for(name)].3 == other.top_ids().map(
            |t: u64| moved_id(other.spec_ids(), before.next_after(name) as u64, t),
        ),
{
    let key = before.id_for(name);
    let base = before.next_after(name) as u64;
    let ids = other.spec_ids();
    let o = other.spec_keys();
    let tops = other.top_ids();
    let with_key = before.spec_keys().insert(
        key,
        (None, name, None, tops.map(|t: u64| moved_id(ids, base, t))),
    );
    let moved = Map::new(
        |q: u64| base <= q < base + ids.len(),
        |q: u64| moved_view(other.spec_keys()[ids[q - base]], ids, base),
    );
    let all = with_key.union_prefer_right(moved);
    let m = before.nested_keys(name, other);
    lemma_find_entry(before.spec_top(), name);
    assert(key < base);
    assert(!moved.contains_key(key));
    assert(all[key] == with_key[key]);
    assert forall|q: u64| #[trigger] o.contains_key(q) implies m.contains_key(moved_id(ids, base, q))
        && m[moved_id(ids, base, q)].1 == o[q].1 && m[moved_id(ids, base, q)].2 == o[q].2 && m[moved_id(
        ids,
        base,
        q,
    )].3 == o[q].3.map(|c: u64| moved_id(ids, base, c)) by {
        assert(ids.contains(q));
        let i = ids.index_of(q);
        assert(0 <= i < ids.len() && ids[i] == q);
        let mq = moved_id(ids, base, q);
        assert(mq == base + i);
        assert(moved.contains_key(mq));
        assert(ids[mq - base] == q);
        assert(all[mq] == moved_view(o[q], ids, base));
    }
}

/// Nesting `other` under the top-level name `name` makes `name` a nested map that holds, under
/// each name path, what `other` holds there; every other top-level name holds what it held.
pub proof fn law_nest_names<V>(
    before: PrefixMap<V>,
    name: Seq<char>,
    other: PrefixMap<V>,
    path: Seq<Seq<char>>,
    content: Option<V>,
)
    requires
        before.tree_ok(),
        other.tree_ok(),
        before.next_after(name) + other.spec_ids().len() <= u64::MAX,
    ensures
        holds_at(before.nested_keys(name, other), before.top_after(name), path, content) == if path.len()
            > 0 && path[0] == name {
            (path.len() == 1 && content is None) || holds_at(
                other.spec_keys(),
                other.spec_top(),
                path.drop_first(),
                content,
            )
        } else {
            holds_at(before.spec_keys(), before.spec_top(), path, content)
        },
{
    let key = before.id_for(name);
    let base = before.next_after(name) as u64;
    let ids = other.spec_ids();
    let o = other.spec_keys();
    let ot = other.spec_top();
    let b = before.spec_keys();
    let m = before.nested_keys(name, other);
    let t2 = before.top_after(name);
    lemma_nest_moved(before, name, other);
    law_nest_fresh_ids(before, name, other);
    if path.len() > 0 {
        let rest = path.drop_first();
        law_top_names(before, name, path[0]);
        lemma_other_top(before, name, path[0]);
        if path[0] == name {
            assert(find(t2, path[0]) == Some(key));
            if path.len() == 1 {
                assert(rest.len() == 0);
                assert(!holds_at(o, ot, rest, content));
                if content is None {
                    assert(reaches(m, find(t2, path[0]).unwrap(), path.drop_first(), key) && m[key].2
                        == content);
                }
                if holds_at(m, t2, path, content) {
                    let x = choose|x: u64|
                        #[trigger] reaches(m, find(t2, path[0]).unwrap(), path.drop_first(), x)
                            && m[x].2 == content;
                    assert(x == key);
                }
            } else {
                let r0 = rest[0];
                let rest2 = rest.drop_first();
                if holds_at(m, t2, path, content) {
                    let xm = choose|x: u64|
                        #[trigger] reaches(m, find(t2, path[0]).unwrap(), path.drop_first(), x)
                            && m[x].2 == content;
                    let cm = choose|c: u64|
                        #![trigger m[key].3.contains(c)]
                        m[key].3.contains(c) && m.contains_key(c) && m[c].1 == rest[0] && reaches(
                            m,
                            c,
                            rest.drop_first(),
                            xm,
                        );
                    let t = choose|t: u64|
                        other.top_ids().contains(t) && cm == moved_id(ids, base, t);
                    let i = choose|i: int| 0 <= i < ot.len() && ot[i].1 == t;
                    assert(o.contains_key(t));
                    lemma_moved_back(o, m, ids, base, t, rest2, xm);
                    let x = choose|x: u64| #[trigger] reaches(o, t, rest2, x) && xm == moved_id(ids, base, x);
                    lemma_reaches_contains(o, t, rest2, x);
                    assert(ot[i] == (r0, t));
                    lemma_find_index(ot, r0);
                    assert(find(ot, r0) == Some(t));
                    assert(reaches(o, find(ot, rest[0]).unwrap(), rest.drop_first(), x) && o[x].2 == content);
                }
                if holds_at(o, ot, rest, content) {
                    let t = find(ot, r0).unwrap();
                    lemma_find_entry(ot, r0);
                    let j = choose|j: int| 0 <= j < ot.len() && ot[j] == (r0, t);
                    assert(other.top_ids().contains(t));
                    assert(o.contains_key(t));
                    let x = choose|x: u64| #[trigger] reaches(o, find(ot, rest[0]).unwrap(), rest.drop_first(), x) && o[x].2 == content;
                    lemma_reaches_contains(o, t, rest2, x);
                    lemma_moved_forward(o, m, ids, base, t, rest2, x);
                    let f = |u: u64| moved_id(ids, base, u);
                    assert(other.top_ids().map(f).contains(f(t)));
                    assert(m[key].3.contains(moved_id(ids, base, t)));
                    assert(m[moved_id(ids, base, t)].1 == r0);
                    assert(reaches(m, key, rest, moved_id(ids, base, x)));
                    assert(reaches(m, find(t2, path[0]).unwrap(), path.drop_first(), moved_id(ids, base, x)) && m[moved_id(ids, base, x)].2 == content);
                }
            }
        } else if find(before.spec_top(), path[0]) is Some {
            let t = find(before.spec_top(), path[0]).unwrap();
            assert forall|x: u64|
                (reaches(m, t, rest, x) && m[x].2 == content) == (reaches(b, t, rest, x) && b[x].2
                    == content) by {
                lemma_reaches_same(b, m, key, t, rest, x);
            }
            if holds_at(b, before.spec_top(), path, content) {
                let x = choose|x: u64| #[trigger] reaches(b, t, rest, x) && b[x].2 == content;
                assert(reaches(m, t, rest, x) && m[x].2 == content);
            }
            if holds_at(m, t2, path, content) {
                let x = choose|x: u64| #[trigger] reaches(m, t, rest, x) && m[x].2 == content;
                assert(reaches(b, t, rest, x) && b[x].2 == content);
            }
        } else {
            assert(!holds_at(m, t2, path, content));
        }
    }
}

/// The top-level keys once `name` has an id, in a map whose key `name` holds its name and whose
/// other top-level keys hold what they held.
proof fn lemma_top_after_ok<V>(before: PrefixMap<V>, name: Seq<char>, m: Map<u64, KeyView<V>>)
    requires
        before.tree_ok(),
        sorted_keys(before.top_after(name)),
        m.contains_key(before.id_for(name)),
        m[before.id_for(name)].1 == name,
        forall|t: u64|
            #[trigger] before.top_ids().contains(t) && t != before.id_for(name) ==> m.contains_key(t)
                && m[t].1 == before.spec_keys()[t].1,
    ensures
        forall|i: int|
            #![trigger before.top_after(name)[i]]
            0 <= i < before.top_after(name).len() ==> (before.top_after(name)[i].1 == before.id_for(
                name,
            ) || before.top_ids().contains(before.top_after(name)[i].1)) && m.contains_key(
                before.top_after(name)[i].1,
            ) && m[before.top_after(name)[i].1].1 == before.top_after(name)[i].0,
        forall|i: int, j: int|
            0 <= i < j < before.top_after(name).len() ==> #[trigger] before.top_after(name)[i].1
                != #[trigger] before.top_after(name)[j].1,
{
    let top = before.spec_top();
    let t2 = before.top_after(name);
    let key = before.id_for(name);
    lemma_find_entry(top, name);
    if let Some(k) = find(top, name) {
        let j = choose|j: int| 0 <= j < top.len() && top[j] == (name, k);
        assert(before.top_ids().contains(key));
        assert forall|i: int| #![trigger t2[i]] 0 <= i < t2.len() implies (t2[i].1 == key
            || before.top_ids().contains(t2[i].1)) && m.contains_key(t2[i].1) && m[t2[i].1].1
            == t2[i].0 by {
            assert(before.top_ids().contains(t2[i].1));
            if t2[i].1 == key {
                if i < j {
                    assert(top[i].1 != top[j].1);
                } else if j < i {
                    assert(top[j].1 != top[i].1);
                }
            }
        }
    } else {
        lemma_insert_entries(top, name, before.spec_next());
        assert forall|i: int| #![trigger t2[i]] 0 <= i < t2.len() implies (t2[i].1 == key
            || before.top_ids().contains(t2[i].1)) && m.contains_key(t2[i].1) && m[t2[i].1].1
            == t2[i].0 by {
            if t2[i] != (name, before.spec_next()) {
                let a = choose|a: int| 0 <= a < top.len() && top[a] == t2[i];
                assert(before.top_ids().contains(t2[i].1));
                assert(top[a].1 < before.spec_next());
            }
        }
        assert forall|i: int, j: int| 0 <= i < j < t2.len() implies #[trigger] t2[i].1
            != #[trigger] t2[j].1 by {
            crate::text::lemma_text_lt_total(t2[i].0, t2[j].0);
            if t2[i] != (name, before.spec_next()) && t2[j] != (name, before.spec_next()) {
                let a = choose|a: int| 0 <= a < top.len() && top[a] == t2[i];
                let c = choose|c: int| 0 <= c < top.len() && top[c] == t2[j];
                if a < c {
                    assert(top[a].1 != top[c].1);
                } else if c < a {
                    assert(top[c].1 != top[a].1);
                }
            } else if t2[i] != (name, before.spec_next()) {
                let a = choose|a: int| 0 <= a < top.len() && top[a] == t2[i];
                assert(top[a].1 < before.spec_next());
            } else if t2[j] != (name, before.spec_next()) {
                let c = choose|c: int| 0 <= c < top.len() && top[c] == t2[j];
                assert(top[c].1 < before.spec_next());
            }
        }
    }
}

/// Storing a value keeps a well-built map well built.
proof fn lemma_insert_tree_ok<V>(before: PrefixMap<V>, name: Seq<char>, value: V, after: PrefixMap<V>)
    requires
        before.tree_ok(),
        after.spec_keys() == before.spec_keys().insert(
            before.id_for(name),
            (None, name, Some(value), Set::empty()),
        ),
        after.spec_top() == before.top_after(name),
        after.ids_below_next(),
        after.spec_next() == before.next_after(name),
        sorted_keys(after.spec_top()),
        forall|q: u64| #[trigger] after.spec_keys().contains_key(q) <==> after.spec_ids().contains(q),
        increasing(after.spec_ids()),
    ensures
        after.tree_ok(),
{
    let key = before.id_for(name);
    let b = before.spec_keys();
    let m = after.spec_keys();
    lemma_top_after_ok(before, name, m);
    lemma_other_top(before, name, name);
    let t2 = after.spec_top();
    assert forall|t: u64| #[trigger] after.top_ids().contains(t) implies m.contains_key(t) by {
        let i = choose|i: int| 0 <= i < t2.len() && t2[i].1 == t;
    }
    assert forall|q: u64| #[trigger] m.contains_key(q) implies (m[q].0 matches Some(p)
        ==> m.contains_key(p)) && (forall|c: u64| #[trigger] m[q].3.contains(c) ==> m.contains_key(c)) by {
        if q != key {
            assert forall|c: u64| #[trigger] m[q].3.contains(c) implies m.contains_key(c) by {
                assert(b[q].3.contains(c));
            }
        }
    }
    assert forall|q: u64| q < after.spec_next() implies #[trigger] m.contains_key(q) by {
        if q < before.spec_next() {
            assert(b.contains_key(q));
        }
    }
    assert forall|q: u64, c: u64| #[trigger] m.contains_key(q) && #[trigger] m[q].3.contains(c)
        implies !after.top_ids().contains(c) by {
        if q != key {
            assert(b[q].3.contains(c));
            if after.top_ids().contains(c) {
                let i = choose|i: int| 0 <= i < t2.len() && t2[i].1 == c;
                assert(t2[i].1 == key || before.top_ids().contains(t2[i].1));
            }
        }
    }
}

/// Nesting keeps a well-built map well built.
proof fn lemma_nest_tree_ok<V>(before: PrefixMap<V>, name: Seq<char>, other: PrefixMap<V>, after: PrefixMap<V>)
    requires
        before.tree_ok(),
        other.tree_ok(),
        before.next_after(name) + other.spec_ids().len() <= u64::MAX,
        after.spec_keys() == before.nested_keys(name, other),
        after.spec_top() == before.top_after(name),
        after.ids_below_next(),
        after.spec_next() == before.next_after(name) + other.spec_ids().len(),
        sorted_keys(after.spec_top()),
        forall|q: u64| #[trigger] after.spec_keys().contains_key(q) <==> after.spec_ids().contains(q),
        increasing(after.spec_ids()),
    ensures
        after.tree_ok(),
{
    let key = before.id_for(name);
    let base = before.next_after(name) as u64;
    let ids = other.spec_ids();
    let o = other.spec_keys();
    let tops = other.top_ids();
    let b = before.spec_keys();
    let m = after.spec_keys();
    let with_key = b.insert(key, (None, name, None, tops.map(|t: u64| moved_id(ids, base, t))));
    let moved = Map::new(
        |q: u64| base <= q < base + ids.len(),
        |q: u64| moved_view(other.spec_keys()[ids[q - base]], ids, base),
    );
    let all = with_key.union_prefer_right(moved);
    lemma_nest_moved(before, name, other);
    law_nest_fresh_ids(before, name, other);
    lemma_top_after_ok(before, name, m);
    lemma_other_top(before, name, name);
    lemma_find_entry(before.spec_top(), name);
    assert(key < base);
    let t2 = after.spec_top();
    assert forall|t: u64| #[trigger] after.top_ids().contains(t) implies m.contains_key(t) by {
        let i = choose|i: int| 0 <= i < t2.len() && t2[i].1 == t;
    }
    assert forall|d: u64| #[trigger] o.contains_key(d) implies base <= moved_id(ids, base, d) by {
        assert(ids.contains(d));
        let i = ids.index_of(d);
        assert(0 <= i < ids.len() && ids[i] == d);
    }
    assert forall|q: u64| #[trigger] m.contains_key(q) implies (m[q].0 matches Some(p)
        ==> m.contains_key(p)) && (forall|c: u64| #[trigger] m[q].3.contains(c) ==> m.contains_key(c)) by {
        if base <= q < base + ids.len() {
            let od = ids[q - base];
            assert(ids.contains(od));
            assert(o.contains_key(od));
            assert(all[q] == moved_view(o[od], ids, base));
            if let Some(p) = o[od].0 {
                assert(o.contains_key(p));
            }
            assert forall|c: u64| #[trigger] m[q].3.contains(c) implies m.contains_key(c) by {
                let d = choose|d: u64| o[od].3.contains(d) && c == moved_id(ids, base, d);
                assert(o.contains_key(d));
            }
        } else if q == key {
            assert forall|c: u64| #[trigger] m[q].3.contains(c) implies m.contains_key(c) by {
                let t = choose|t: u64| tops.contains(t) && c == moved_id(ids, base, t);
                assert(o.contains_key(t));
            }
        } else {
            assert(b.contains_key(q));
            assert forall|c: u64| #[trigger] m[q].3.contains(c) implies m.contains_key(c) by {
                assert(b[q].3.contains(c));
            }
            if !tops.contains(q) {
                assert(m[q] == b[q]);
            }
        }
    }
    assert forall|q: u64| q < after.spec_next() implies #[trigger] m.contains_key(q) by {
        if q < before.spec_next() {
            assert(b.contains_key(q));
        } else if q < base {
            assert(q == key);
        } else {
            assert(moved.contains_key(q));
        }
    }
    assert forall|q: u64, c: u64| #[trigger] m.contains_key(q) && #[trigger] m[q].3.contains(c)
        implies !after.top_ids().contains(c) by {
        if after.top_ids().contains(c) {
            let i = choose|i: int| 0 <= i < t2.len() && t2[i].1 == c;
            assert(t2[i].1 == key || before.top_ids().contains(t2[i].1));
            if before.top_ids().contains(c) {
                let j = choose|j: int| 0 <= j < before.spec_top().len() && before.spec_top()[j].1 == c;
                assert(c < before.spec_next());
            }
            if base <= q < base + ids.len() {
                let od = ids[q - base];
                assert(ids.contains(od));
                assert(o.contains_key(od));
                assert(all[q] == moved_view(o[od], ids, base));
                let d = choose|d: u64| o[od].3.contains(d) && c == moved_id(ids, base, d);
                assert(o.contains_key(d));
            } else if q == key {
                let t = choose|t: u64| tops.contains(t) && c == moved_id(ids, base, t);
                assert(o.contains_key(t));
            } else {
                assert(b.contains_key(q));
                assert(b[q].3.contains(c));
            }
        }
    }
}

/// An increasing sequence of ids below `next` has at most `next` ids.
proof fn lemma_increasing_len(ids: Seq<u64>, next: int)
    requires
        0 <= next,
        increasing(ids),
        forall|i: int| 0 <= i < ids.len() ==> #[trigger] ids[i] < next,
    ensures
        ids.len() <= next,
{
    assert forall|k: int| 0 <= k < ids.len() implies #[trigger] ids[k] >= k by {
        lemma_increasing_from(ids, k);
    }
    if ids.len() > 0 {
        assert(ids[ids.len() - 1] >= ids.len() - 1);
        assert(ids[ids.len() - 1] < next);
    }
}

proof fn lemma_increasing_from(ids: Seq<u64>, k: int)
    requires
        increasing(ids),
        0 <= k < ids.len(),
    ensures
        ids[k] >= k,
    decreases k,
{
    if k > 0 {
        lemma_increasing_from(ids, k - 1);
        assert(ids[k - 1] < ids[k]);
    }
}

/// The least element of `s` above `k`, if there is one.
pub open spec fn next_after(s: Set<u64>, k: u64) -> Option<u64> {
    if exists|c: u64|
        #![trigger s.contains(c)]
        s.contains(c) && k < c && forall|d: u64| #[trigger] s.contains(d) && k < d ==> c <= d {
        Some(
            choose|c: u64|
                #![trigger s.contains(c)]
                s.contains(c) && k < c && forall|d: u64| #[trigger] s.contains(d) && k < d ==> c <= d,
        )
    } else {
        None
    }
}

/// Where a walk goes from `key` with the top-level position `pos`: a key without a parent
/// moves to the top-level key at `pos` (or to nothing when the top-level keys are exhausted); a
/// key with a parent moves to its next sibling, the parent's child that follows it in key
/// order; when it has none, the walk moves to the parent and goes on from there. `None` when
/// the walk reaches a missing key, a parent that holds a value, or runs out of `fuel`.
pub open spec fn advanced<V>(
    m: Map<u64, KeyView<V>>,
    top: Seq<(Seq<char>, u64)>,
    key: Option<u64>,
    pos: nat,
    fuel: nat,
) -> Option<(Option<u64>, nat)>
    decreases fuel,
{
    match key {
        None => Some((None, pos)),
        Some(k) => if !m.contains_key(k) {
            None
        } else {
            match m[k].0 {
                None => if pos < top.len() {
                    Some((Some(top[pos as int].1), pos + 1))
                } else {
                    Some((None, pos))
                },
                Some(p) => if !m.contains_key(p) || m[p].2 is Some {
                    None
                } else {
                    match next_after(m[p].3, k) {
                        Some(sibling) => Some((Some(sibling), pos)),
                        None => if fuel == 0 {
                            None
                        } else {
                            advanced(m, top, Some(p), pos, (fuel - 1) as nat)
                        },
                    }
                },
            }
        },
    }
}

/// The least child id in `children` above `key`, if there is one.
fn next_child(children: &IdMap<()>, key: u64) -> (r: Option<u64>)
    ensures
        r == next_after(children.as_map().dom(), key),
{
    let ids = children.key_list();
    let ghost s = children.entries_view();
    let ghost dom = children.as_map().dom();
    proof {
        assert forall|q: u64| dom.contains(q) <==> ids@.contains(q) by {
            children.lemma_dom_ids(q);
        }
    }
    let mut i: usize = 0;
    while i < ids.len()
        invariant
            i <= ids@.len(),
            dom == children.as_map().dom(),
            ids@ == ids_of(s),
            sorted_ids(s),
            forall|q: u64| dom.contains(q) <==> ids@.contains(q),
            forall|j: int| 0 <= j < i ==> ids@[j] <= key,
        decreases ids@.len() - i,
    {
        if ids[i] > key {
            let c = ids[i];
            proof {
                assert(ids@.contains(c));
                assert forall|d: u64| #[trigger] dom.contains(d) && key < d implies c <= d by {
                    assert(ids@.contains(d));
                    let j = choose|j: int| 0 <= j < ids@.len() && ids@[j] == d;
                    assert(s[j].0 == d);
                    assert(s[i as int].0 == c);
                    if j > i {
                        assert(id_lt(s[i as int].0, s[j].0));
                    }
                }
                assert(dom.contains(c) && key < c && forall|d: u64|
                    #[trigger] dom.contains(d) && key < d ==> c <= d);
                assert(exists|c: u64|
                    #![trigger dom.contains(c)]
                    dom.contains(c) && key < c && forall|d: u64|
                        #[trigger] dom.contains(d) && key < d ==> c <= d);
                assert(next_after(dom, key) is Some);
                let c2 = next_after(dom, key).unwrap();
                assert(dom.contains(c2) && key < c2);
                assert(c <= c2);
                assert(c2 <= c);
            }
            return Some(c);
        }
        i = i + 1;
    }
    proof {
        assert forall|c: u64| dom.contains(c) implies c <= key by {
            assert(ids@.contains(c));
            let j = choose|j: int| 0 <= j < ids@.len() && ids@[j] == c;
        }
    }
    None
}

/// A walk moves from a key with a parent to its next sibling: the parent's child that follows
/// it in key order, whatever fuel is allowed. When the key is the parent's last child, the walk
/// goes on from the parent.
pub proof fn law_advance_next_sibling<V>(
    m: Map<u64, KeyView<V>>,
    top: Seq<(Seq<char>, u64)>,
    k: u64,
    p: u64,
    pos: nat,
    fuel: nat,
)
    requires
        m.contains_key(k),
        m[k].0 == Some(p),
        m.contains_key(p),
        m[p].2 is None,
    ensures
        next_after(m[p].3, k) matches Some(s) ==> {
            &&& advanced(m, top, Some(k), pos, fuel) == Some((Some(s), pos))
            &&& m[p].3.contains(s)
            &&& k < s
            &&& forall|c: u64| #[trigger] m[p].3.contains(c) && k < c ==> s <= c
        },
        next_after(m[p].3, k) is None && fuel > 0 ==> advanced(m, top, Some(k), pos, fuel)
            == advanced(m, top, Some(p), pos, (fuel - 1) as nat),
        next_after(m[p].3, k) is None ==> forall|c: u64| #[trigger] m[p].3.contains(c) ==> c <= k,
{
    let s = m[p].3;
    if next_after(s, k) is None {
        assert forall|c: u64| #[trigger] s.contains(c) implies c <= k by {
            if k < c {
                lemma_least_above(s, k, c);
            }
        }
    }
}

/// A set of ids that holds an id above `k` holds a least one.
proof fn lemma_least_above(s: Set<u64>, k: u64, c: u64)
    requires
        s.contains(c),
        k < c,
    ensures
        next_after(s, k) is Some,
    decreases c - k,
{
    if exists|d: u64| s.contains(d) && k < d && d < c {
        let d = choose|d: u64| s.contains(d) && k < d && d < c;
        lemma_least_above(s, k, d);
    } else {
        assert(s.contains(c) && k < c && forall|d: u64| #[trigger] s.contains(d) && k < d ==> c <= d);
    }
}

/// A walk over the keys of a [`PrefixMap`].
pub struct PrefixMapWalker<'p, V> {
    prefix_map: &'p PrefixMap<V>,
    top_pos: usize,
    key: Option<KeyId>,
}

impl<'p, V> PrefixMapWalker<'p, V> {
    /// The map walked.
    pub closed spec fn spec_map(&self) -> PrefixMap<V> {
        *self.prefix_map
    }

    /// The current key.
    pub closed spec fn spec_key(&self) -> Option<u64> {
        self.key
    }

    /// How many top-level keys have been reached.
    pub closed spec fn spec_pos(&self) -> nat {
        self.top_pos as nat
    }

    /// Moves to the next key (see [`advanced`]).
    pub fn advance_key(&mut self)
        requires
            exists|f: nat|
                advanced(
                    old(self).spec_map().spec_keys(),
                    old(self).spec_map().spec_top(),
                    old(self).spec_key(),
                    old(self).spec_pos(),
                    f,
                ) is Some,
        ensures
            final(self).spec_map() == old(self).spec_map(),
            (final(self).spec_key(), final(self).spec_pos()) == advanced(
                old(self).spec_map().spec_keys(),
                old(self).spec_map().spec_top(),
                old(self).spec_key(),
                old(self).spec_pos(),
                choose|f: nat|
                    advanced(
                        old(self).spec_map().spec_keys(),
                        old(self).spec_map().spec_top(),
                        old(self).spec_key(),
                        old(self).spec_pos(),
                        f,
                    ) is Some,
            ).unwrap(),
    {
        let ghost f = choose|f: nat|
            advanced(
                self.spec_map().spec_keys(),
                self.spec_map().spec_top(),
                self.spec_key(),
                self.spec_pos(),
                f,
            ) is Some;
        self.advance_from(Ghost(f));
    }

    fn advance_from(&mut self, Ghost(fuel): Ghost<nat>)
        requires
            advanced(
                old(self).spec_map().spec_keys(),
                old(self).spec_map().spec_top(),
                old(self).spec_key(),
                old(self).spec_pos(),
                fuel,
            ) is Some,
        ensures
            final(self).spec_map() == old(self).spec_map(),
            (final(self).spec_key(), final(self).spec_pos()) == advanced(
                old(self).spec_map().spec_keys(),
                old(self).spec_map().spec_top(),
                old(self).spec_key(),
                old(self).spec_pos(),
                fuel,
            ).unwrap(),
        decreases fuel,
    {
        let key = match self.key {
            Some(k) => k,
            None => {
                return;
            },
        };
        let map = self.prefix_map;
        let key_info = match map.keys.get(key) {
            Some(info) => info,
            None => {
                proof {
                    assert(false);
                }
                return;
            },
        };
        match key_info.parent {
            Some(parent_id) => {
                let parent = match map.keys.get(parent_id) {
                    Some(info) => info,
                    None => {
                        proof {
                            assert(false);
                        }
                        return;
                    },
                };
                match &parent.content {
                    KeyContent::Nested(children) => {
                        match next_child(children, key) {
                            Some(sibling) => {
                                self.key = Some(sibling);
                            },
                            None => {
                                self.key = Some(parent_id);
                                self.advance_from(Ghost((fuel - 1) as nat));
                            },
                        }
                    },
                    KeyContent::Value(_) => {
                        proof {
                            assert(false);
                        }
                    },
                }
            },
            None => {
                if self.top_pos < map.top_keys.len() {
                    let (_, id) = map.top_keys.entry_at(self.top_pos);
                    self.key = Some(*id);
                    self.top_pos = self.top_pos + 1;
                } else {
                    self.key = None;
                }
            },
        }
    }
}

impl<V> PrefixMap<V> {
    /// A walk that starts at the first top-level key.
    pub fn iter(&self) -> (r: PrefixMapWalker<'_, V>)
        ensures
            r.spec_map() == *self,
            self.spec_top().len() > 0 ==> r.spec_key() == Some(self.spec_top()[0].1) && r.spec_pos()
                == 1,
            self.spec_top().len() == 0 ==> r.spec_key() is None && r.spec_pos() == 0,
    {
        if self.top_keys.len() > 0 {
            let (_, id) = self.top_keys.entry_at(0);
            PrefixMapWalker { prefix_map: self, top_pos: 1, key: Some(*id) }
        } else {
            PrefixMapWalker { prefix_map: self, top_pos: 0, key: None }
        }
    }
}

} // verus!

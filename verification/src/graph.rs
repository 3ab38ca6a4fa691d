//! A forest of prefixes with items attached to them. Each item is reached through the chain of
//! prefixes from a root down to the prefix it was inserted at.
use vstd::prelude::*;

verus! {

/// Identifier of a prefix within a [`Graph`]: its insertion index.
#[derive(Clone, Copy, Debug, PartialEq, Eq, Hash, Structural)]
pub struct PrefixId(pub usize);

/// Identifier of an item within a [`Graph`]: its insertion index.
#[derive(Clone, Copy, Debug, PartialEq, Eq, Hash, Structural)]
pub struct ItemId(pub usize);

struct Prefix<P> {
    data: P,
    parent: Option<PrefixId>,
    items: Vec<ItemId>,
}

struct Item<I> {
    data: I,
    prefix: PrefixId,
}

/// Abstract state of a graph: each prefix with its data and parent index, each item with its
/// data and prefix index, in insertion order.
#[verifier::ext_equal]
pub struct GraphView<P, I> {
    pub prefixes: Seq<(P, Option<nat>)>,
    pub items: Seq<(I, nat)>,
}

/// Every item hangs off an existing prefix.
pub open spec fn items_ok<P, I>(v: GraphView<P, I>) -> bool {
    forall|j: int| 0 <= j < v.items.len() ==> (#[trigger] v.items[j]).1 < v.prefixes.len()
}

/// Every parent comes before its child, and every item hangs off an existing prefix.
pub open spec fn graph_wf<P, I>(v: GraphView<P, I>) -> bool {
    &&& forall|i: int|
        0 <= i < v.prefixes.len() ==> match (#[trigger] v.prefixes[i]).1 {
            Some(q) => q < i,
            None => true,
        }
    &&& forall|j: int| 0 <= j < v.items.len() ==> (#[trigger] v.items[j]).1 < v.prefixes.len()
}

/// The data of the prefixes from the root down to prefix `p`.
pub open spec fn path<P, I>(v: GraphView<P, I>, p: nat) -> Seq<P>
    decreases p,
{
    if p < v.prefixes.len() {
        match v.prefixes[p as int].1 {
            Some(q) => if q < p {
                path(v, q).push(v.prefixes[p as int].0)
            } else {
                seq![v.prefixes[p as int].0]
            },
            None => seq![v.prefixes[p as int].0],
        }
    } else {
        Seq::empty()
    }
}

/// What iterating the graph yields: for each item, in insertion order, the path of its prefix
/// and its data.
pub open spec fn entries<P, I>(v: GraphView<P, I>) -> Seq<(Seq<P>, I)> {
    Seq::new(v.items.len(), |j: int| (path(v, v.items[j].1), v.items[j].0))
}

/// Whether the chain of parents from prefix `p` runs through existing prefixes and reaches a
/// root within `n` prefixes.
pub open spec fn chain_ok<P, I>(v: GraphView<P, I>, p: nat, n: nat) -> bool
    decreases n,
{
    &&& n > 0
    &&& p < v.prefixes.len()
    &&& match v.prefixes[p as int].1 {
        None => true,
        Some(q) => chain_ok(v, q, (n - 1) as nat),
    }
}

/// The data of the prefixes along the chain of parents from prefix `p` (at most `n` of them),
/// from the root down to `p`.
pub open spec fn chain_path<P, I>(v: GraphView<P, I>, p: nat, n: nat) -> Seq<P>
    decreases n,
{
    if n == 0 || p >= v.prefixes.len() {
        Seq::empty()
    } else {
        match v.prefixes[p as int].1 {
            None => seq![v.prefixes[p as int].0],
            Some(q) => chain_path(v, q, (n - 1) as nat).push(v.prefixes[p as int].0),
        }
    }
}

/// A chain that reaches a root within `n` prefixes does so within any larger number.
pub proof fn lemma_chain_fuel<P, I>(v: GraphView<P, I>, p: nat, n: nat, m: nat)
    requires
        chain_ok(v, p, n),
        n <= m,
    ensures
        chain_ok(v, p, m),
        chain_path(v, p, n) == chain_path(v, p, m),
    decreases n,
{
    match v.prefixes[p as int].1 {
        None => {},
        Some(q) => {
            lemma_chain_fuel(v, q, (n - 1) as nat, (m - 1) as nat);
        },
    }
}

/// In a well-formed graph, the chain from an existing prefix `p` reaches a root within `p + 1`
/// prefixes, and follows its path.
pub proof fn lemma_chain_wf<P, I>(v: GraphView<P, I>, p: nat)
    requires
        graph_wf(v),
        p < v.prefixes.len(),
    ensures
        chain_ok(v, p, p + 1),
        chain_path(v, p, p + 1) == path(v, p),
    decreases p,
{
    match v.prefixes[p as int].1 {
        None => {},
        Some(q) => {
            assert(q < p);
            lemma_chain_wf(v, q);
            lemma_chain_fuel(v, q, q + 1, p);
        },
    }
}

/// Whether the chain of parents from the prefix of item `j` reaches a root.
pub open spec fn item_chain_ok<P, I>(v: GraphView<P, I>, j: int) -> bool {
    exists|n: nat| chain_ok(v, v.items[j].1, n)
}

/// Whether the chain of parents from the prefix of every item reaches a root.
pub open spec fn chains_ok<P, I>(v: GraphView<P, I>) -> bool {
    forall|j: int| 0 <= j < v.items.len() ==> #[trigger] item_chain_ok(v, j)
}

/// In a well-formed graph, the chain from every item's prefix reaches a root.
pub proof fn lemma_chains_wf<P, I>(v: GraphView<P, I>)
    requires
        graph_wf(v),
    ensures
        chains_ok(v),
{
    assert forall|j: int| 0 <= j < v.items.len() implies #[trigger] item_chain_ok(v, j) by {
        let p = v.items[j].1;
        lemma_chain_wf(v, p);
        assert(chain_ok(v, p, p + 1));
    }
}

/// A prefix of another graph, renumbered to follow `n` prefixes.
pub open spec fn shift_prefix<P>(e: (P, Option<nat>), n: nat) -> (P, Option<nat>) {
    (
        e.0,
        match e.1 {
            Some(q) => Some(q + n),
            None => None,
        },
    )
}

/// A prefix of another graph, renumbered to follow `n` prefixes, with roots moved below `p`.
pub open spec fn nest_prefix<P>(e: (P, Option<nat>), n: nat, p: nat) -> (P, Option<nat>) {
    (
        e.0,
        match e.1 {
            Some(q) => Some(q + n),
            None => Some(p),
        },
    )
}

/// The graph `a` followed by all prefixes and items of `b`, renumbered.
pub open spec fn merge_view<P, I>(a: GraphView<P, I>, b: GraphView<P, I>) -> GraphView<P, I> {
    GraphView {
        prefixes: a.prefixes + b.prefixes.map_values(
            |e: (P, Option<nat>)| shift_prefix(e, a.prefixes.len()),
        ),
        items: a.items + b.items.map_values(|e: (I, nat)| (e.0, e.1 + a.prefixes.len())),
    }
}

/// `merge_view(a, b)` with the roots of `b` placed below prefix `p` of `a`.
pub open spec fn nest_view<P, I>(a: GraphView<P, I>, p: nat, b: GraphView<P, I>) -> GraphView<
    P,
    I,
> {
    GraphView {
        prefixes: a.prefixes + b.prefixes.map_values(
            |e: (P, Option<nat>)| nest_prefix(e, a.prefixes.len(), p),
        ),
        items: a.items + b.items.map_values(|e: (I, nat)| (e.0, e.1 + a.prefixes.len())),
    }
}

/// The entries of `b`, each with `pre` in front of its path.
pub open spec fn prefixed_entries<P, I>(pre: Seq<P>, s: Seq<(Seq<P>, I)>) -> Seq<(Seq<P>, I)> {
    s.map_values(|e: (Seq<P>, I)| (pre + e.0, e.1))
}

/// The values behind a sequence of references.
pub open spec fn deref_seq<P>(s: Seq<&P>) -> Seq<P> {
    s.map_values(|x: &P| *x)
}

/// Paths of the renumbered prefixes of `b` in `merge_view(a, b)` are their paths in `b`.
proof fn lemma_merge_path<P, I>(a: GraphView<P, I>, b: GraphView<P, I>, q: nat)
    requires
        graph_wf(b),
        q < b.prefixes.len(),
    ensures
        path(merge_view(a, b), a.prefixes.len() + q) == path(b, q),
    decreases q,
{
    let m = merge_view(a, b);
    let n = a.prefixes.len();
    assert(m.prefixes[(n + q) as int] == shift_prefix(b.prefixes[q as int], n));
    match b.prefixes[q as int].1 {
        Some(r) => {
            lemma_merge_path(a, b, r);
        },
        None => {},
    }
}

/// Paths of the renumbered prefixes of `b` in `nest_view(a, p, b)` start with the path of `p`.
proof fn lemma_nest_path<P, I>(a: GraphView<P, I>, p: nat, b: GraphView<P, I>, q: nat)
    requires
        graph_wf(b),
        p < a.prefixes.len(),
        q < b.prefixes.len(),
    ensures
        path(nest_view(a, p, b), a.prefixes.len() + q) == path(a, p) + path(b, q),
    decreases q,
{
    let m = nest_view(a, p, b);
    let n = a.prefixes.len();
    assert(m.prefixes[(n + q) as int] == nest_prefix(b.prefixes[q as int], n, p));
    match b.prefixes[q as int].1 {
        Some(r) => {
            lemma_nest_path(a, p, b, r);
            assert(path(a, p) + path(b, r).push(b.prefixes[q as int].0) =~= (path(a, p) + path(
                b,
                r,
            )).push(b.prefixes[q as int].0));
        },
        None => {
            assert(same_prefixes_below(m, a, n));
            lemma_path_prefix_closed(m, a, n, p);
            assert(path(a, p).push(b.prefixes[q as int].0) =~= path(a, p) + seq![
                b.prefixes[q as int].0,
            ]);
        },
    }
}

/// Adding a prefix below `parent` (or as a root) leaves the entries as they are; the new prefix
/// has the path of its parent followed by its own data.
pub proof fn law_insert_prefix_entries<P, I>(a: GraphView<P, I>, parent: Option<nat>, data: P)
    requires
        graph_wf(a),
        parent matches Some(q) ==> q < a.prefixes.len(),
    ensures
        graph_wf(GraphView { prefixes: a.prefixes.push((data, parent)), items: a.items }),
        entries(GraphView { prefixes: a.prefixes.push((data, parent)), items: a.items }) == entries(
            a,
        ),
        path(
            GraphView { prefixes: a.prefixes.push((data, parent)), items: a.items },
            a.prefixes.len(),
        ) == match parent {
            Some(q) => path(a, q).push(data),
            None => seq![data],
        },
{
    let m = GraphView { prefixes: a.prefixes.push((data, parent)), items: a.items };
    let n = a.prefixes.len();
    assert(same_prefixes_below(m, a, n));
    assert forall|i: int| 0 <= i < m.prefixes.len() implies match (#[trigger] m.prefixes[i]).1 {
        Some(q) => q < i,
        None => true,
    } by {
        if i < n {
            assert(m.prefixes[i] == a.prefixes[i]);
        }
    }
    assert forall|j: int| 0 <= j < m.items.len() implies #[trigger] entries(m)[j] == entries(a)[j] by {
        lemma_path_prefix_closed(m, a, n, a.items[j].1);
    }
    assert(entries(m) =~= entries(a));
    if let Some(q) = parent {
        lemma_path_prefix_closed(m, a, n, q);
    }
}

/// Adding an item at prefix `p` appends one entry: the path of `p` and the item's data.
pub proof fn law_insert_item_entries<P, I>(a: GraphView<P, I>, p: nat, data: I)
    requires
        graph_wf(a),
        p < a.prefixes.len(),
    ensures
        graph_wf(GraphView { prefixes: a.prefixes, items: a.items.push((data, p)) }),
        entries(GraphView { prefixes: a.prefixes, items: a.items.push((data, p)) }) == entries(
            a,
        ).push((path(a, p), data)),
{
    let m = GraphView { prefixes: a.prefixes, items: a.items.push((data, p)) };
    assert(same_prefixes_below(m, a, a.prefixes.len()));
    assert forall|j: int| 0 <= j < m.items.len() implies (#[trigger] m.items[j]).1
        < m.prefixes.len() by {
        if j < a.items.len() {
            assert(m.items[j] == a.items[j]);
        }
    }
    assert forall|j: int| 0 <= j < m.items.len() implies #[trigger] entries(m)[j] == entries(
        a,
    ).push((path(a, p), data))[j] by {
        if j < a.items.len() {
            assert(m.items[j] == a.items[j]);
            lemma_path_prefix_closed(m, a, a.prefixes.len(), a.items[j].1);
        } else {
            lemma_path_prefix_closed(m, a, a.prefixes.len(), p);
        }
    }
    assert(entries(m) =~= entries(a).push((path(a, p), data)));
}

/// Merging two graphs yields the entries of the first, followed by the entries of the second,
/// with the same paths.
pub proof fn law_merge_entries<P, I>(a: GraphView<P, I>, b: GraphView<P, I>)
    requires
        graph_wf(a),
        graph_wf(b),
    ensures
        graph_wf(merge_view(a, b)),
        entries(merge_view(a, b)) == entries(a) + entries(b),
{
    let m = merge_view(a, b);
    let n = a.prefixes.len();
    assert(same_prefixes_below(m, a, n));
    assert forall|j: int| 0 <= j < m.items.len() implies (#[trigger] m.items[j]).1
        < m.prefixes.len() by {
        if j >= a.items.len() {
            assert(m.items[j] == (b.items[j - a.items.len()].0, b.items[j - a.items.len()].1 + n));
        }
    }
    assert forall|i: int| 0 <= i < m.prefixes.len() implies match (#[trigger] m.prefixes[i]).1 {
        Some(q) => q < i,
        None => true,
    } by {
        if i >= n {
            assert(m.prefixes[i] == shift_prefix(b.prefixes[i - n], n));
        }
    }
    assert forall|j: int| 0 <= j < m.items.len() implies #[trigger] entries(m)[j] == (entries(a)
        + entries(b))[j] by {
        if j < a.items.len() {
            assert(m.items[j] == a.items[j]);
            lemma_path_prefix_closed(m, a, n, a.items[j].1);
        } else {
            let k = j - a.items.len();
            assert(m.items[j] == (b.items[k].0, b.items[k].1 + n));
            lemma_merge_path(a, b, b.items[k].1);
        }
    }
    assert(entries(m) =~= entries(a) + entries(b));
}

/// Nesting a graph below prefix `p` yields the entries of the first graph, followed by the
/// entries of the second with the path of `p` in front of each of their paths.
pub proof fn law_nest_entries<P, I>(a: GraphView<P, I>, p: nat, b: GraphView<P, I>)
    requires
        graph_wf(a),
        graph_wf(b),
        p < a.prefixes.len(),
    ensures
        graph_wf(nest_view(a, p, b)),
        entries(nest_view(a, p, b)) == entries(a) + prefixed_entries(path(a, p), entries(b)),
{
    let m = nest_view(a, p, b);
    let n = a.prefixes.len();
    assert(same_prefixes_below(m, a, n));
    assert forall|j: int| 0 <= j < m.items.len() implies (#[trigger] m.items[j]).1
        < m.prefixes.len() by {
        if j >= a.items.len() {
            assert(m.items[j] == (b.items[j - a.items.len()].0, b.items[j - a.items.len()].1 + n));
        }
    }
    assert forall|i: int| 0 <= i < m.prefixes.len() implies match (#[trigger] m.prefixes[i]).1 {
        Some(q) => q < i,
        None => true,
    } by {
        if i >= n {
            assert(m.prefixes[i] == nest_prefix(b.prefixes[i - n], n, p));
        }
    }
    let rhs = entries(a) + prefixed_entries(path(a, p), entries(b));
    assert forall|j: int| 0 <= j < m.items.len() implies #[trigger] entries(m)[j] == rhs[j] by {
        if j < a.items.len() {
            assert(m.items[j] == a.items[j]);
            lemma_path_prefix_closed(m, a, n, a.items[j].1);
        } else {
            let k = j - a.items.len();
            assert(m.items[j] == (b.items[k].0, b.items[k].1 + n));
            lemma_nest_path(a, p, b, b.items[k].1);
        }
    }
    assert(entries(m) =~= rhs);
}

/// Ids of the items of `items` that hang off prefix `p`, in order.
spec fn items_under<I>(items: Seq<Item<I>>, p: usize) -> Seq<ItemId>
    decreases items.len(),
{
    if items.len() == 0 {
        Seq::empty()
    } else if items.last().prefix.0 == p {
        items_under(items.drop_last(), p).push(ItemId((items.len() - 1) as usize))
    } else {
        items_under(items.drop_last(), p)
    }
}

/// A graph of prefixes (such as router namespaces) and items (such as handlers).
pub struct Graph<P, I> {
    prefix: Vec<Prefix<P>>,
    items: Vec<Item<I>>,
}

impl<P, I> View for Graph<P, I> {
    type V = GraphView<P, I>;

    closed spec fn view(&self) -> GraphView<P, I> {
        GraphView {
            prefixes: Seq::new(
                self.prefix@.len(),
                |i: int|
                    (
                        self.prefix@[i].data,
                        match self.prefix@[i].parent {
                            Some(q) => Some(q.0 as nat),
                            None => None,
                        },
                    ),
            ),
            items: Seq::new(
                self.items@.len(),
                |j: int| (self.items@[j].data, self.items@[j].prefix.0 as nat),
            ),
        }
    }
}

/// Prefixes below index `n` are the same in both views.
pub open spec fn same_prefixes_below<P, I>(a: GraphView<P, I>, b: GraphView<P, I>, n: nat) -> bool {
    &&& n <= a.prefixes.len()
    &&& n <= b.prefixes.len()
    &&& forall|i: int| 0 <= i < n ==> a.prefixes[i] == b.prefixes[i]
}

/// The path of a prefix depends only on the prefixes up to it.
pub proof fn lemma_path_prefix_closed<P, I>(a: GraphView<P, I>, b: GraphView<P, I>, n: nat, p: nat)
    requires
        same_prefixes_below(a, b, n),
        p < n,
    ensures
        path(a, p) == path(b, p),
    decreases p,
{
    match a.prefixes[p as int].1 {
        Some(q) => {
            if q < p {
                lemma_path_prefix_closed(a, b, n, q);
            }
        },
        None => {},
    }
}

impl<P, I> Graph<P, I> {
    /// The graph is well formed: items hang off existing prefixes, and each prefix lists the
    /// ids of its items in order.
    pub closed spec fn wf(&self) -> bool {
        &&& items_ok(self@)
        &&& self.prefix@.len() < usize::MAX
        &&& self.items@.len() < usize::MAX
        &&& forall|p: int|
            0 <= p < self.prefix@.len() ==> (#[trigger] self.prefix@[p]).items@ == items_under(
                self.items@,
                p as usize,
            )
    }

    /// An empty graph.
    pub fn new() -> (r: Self)
        ensures
            r.wf(),
            r@.prefixes == Seq::<(P, Option<nat>)>::empty(),
            r@.items == Seq::<(I, nat)>::empty(),
    {
        let r = Graph { prefix: Vec::new(), items: Vec::new() };
        assert(r@.prefixes =~= Seq::<(P, Option<nat>)>::empty());
        assert(r@.items =~= Seq::<(I, nat)>::empty());
        r
    }

    /// Number of prefixes.
    pub fn num_prefixes(&self) -> (r: usize)
        ensures
            r == self@.prefixes.len(),
    {
        self.prefix.len()
    }

    /// Number of items.
    pub fn num_items(&self) -> (r: usize)
        ensures
            r == self@.items.len(),
    {
        self.items.len()
    }

    /// Adds a prefix below `parent` (or as a root), returning its id.
    pub fn insert_prefix(&mut self, parent: Option<PrefixId>, data: P) -> (r: PrefixId)
        requires
            old(self).wf(),
            old(self)@.prefixes.len() + 1 < usize::MAX,
        ensures
            final(self).wf(),
            r.0 == old(self)@.prefixes.len(),
            final(self)@.prefixes == old(self)@.prefixes.push(
                (
                    data,
                    match parent {
                        Some(q) => Some(q.0 as nat),
                        None => None,
                    },
                ),
            ),
            final(self)@.items == old(self)@.items,
    {
        let prefix_id = PrefixId(self.prefix.len());
        self.prefix.push(Prefix { data, parent, items: Vec::new() });
        proof {
            assert(self.prefix@[prefix_id.0 as int].items@ =~= items_under(
                self.items@,
                prefix_id.0,
            )) by {
                assert forall|j: int| 0 <= j < self.items@.len() implies (
                #[trigger] self.items@[j]).prefix.0 < prefix_id.0 by {
                    assert(old(self)@.items[j].1 == self.items@[j].prefix.0);
                }
                lemma_items_under_none(self.items@, prefix_id.0);
            }
            assert(self@.prefixes =~= old(self)@.prefixes.push(
                (
                    data,
                    match parent {
                        Some(q) => Some(q.0 as nat),
                        None => None,
                    },
                ),
            ));
            assert(self@.items =~= old(self)@.items);
        }
        prefix_id
    }

    /// Adds an item at `prefix`, returning its id.
    pub fn insert_item(&mut self, prefix: PrefixId, data: I) -> (r: ItemId)
        requires
            old(self).wf(),
            old(self)@.items.len() + 1 < usize::MAX,
            prefix.0 < old(self)@.prefixes.len(),
        ensures
            final(self).wf(),
            r.0 == old(self)@.items.len(),
            final(self)@.prefixes == old(self)@.prefixes,
            final(self)@.items == old(self)@.items.push((data, prefix.0 as nat)),
    {
        let item_id = ItemId(self.items.len());
        let ghost old_items = self.items@;
        self.items.push(Item { prefix, data });
        let mut pr = self.prefix.remove(prefix.0);
        pr.items.push(item_id);
        self.prefix.insert(prefix.0, pr);
        proof {
            assert(self.items@.drop_last() =~= old_items);
            assert forall|p: int| 0 <= p < self.prefix@.len() implies (
            #[trigger] self.prefix@[p]).items@ == items_under(self.items@, p as usize) by {
                if p != prefix.0 {
                    assert(self.prefix@[p] == old(self).prefix@[p]);
                }
            }
            assert(self@.prefixes =~= old(self)@.prefixes) by {
                assert forall|i: int| 0 <= i < self.prefix@.len() implies self.prefix@[i].data
                    == old(self).prefix@[i].data && self.prefix@[i].parent == old(
                    self,
                ).prefix@[i].parent by {
                    if i != prefix.0 {
                        assert(self.prefix@[i] == old(self).prefix@[i]);
                    }
                }
            }
            assert(self@.items =~= old(self)@.items.push((data, prefix.0 as nat)));
        }
        item_id
    }

    /// Adds all prefixes and items of `other`, renumbered to follow those already present,
    /// keeping their parents and prefixes. Returns the new id of each prefix of `other`,
    /// indexed by its old id.
    pub fn merge(&mut self, other: Self) -> (r: Vec<PrefixId>)
        requires
            old(self).wf(),
            other.wf(),
            graph_wf(other@),
            old(self)@.prefixes.len() + other@.prefixes.len() + 1 < usize::MAX,
            old(self)@.items.len() + other@.items.len() + 1 < usize::MAX,
        ensures
            final(self).wf(),
            final(self)@ == merge_view(old(self)@, other@),
            r@.len() == other@.prefixes.len(),
            forall|i: int| 0 <= i < r@.len() ==> (#[trigger] r@[i]).0 == old(self)@.prefixes.len() + i,
    {
        let ghost a = self@;
        let ghost b = other@;
        let n = self.prefix.len();
        let Graph { prefix: other_prefix, items: other_items } = other;
        let mut map: Vec<PrefixId> = Vec::new();
        for pr in it: other_prefix.into_iter()
            invariant
                self.wf(),
                n == a.prefixes.len(),
                it.seq() == other_prefix@,
                b.prefixes.len() == other_prefix@.len(),
                graph_wf(b),
                forall|i: int|
                    0 <= i < b.prefixes.len() ==> #[trigger] b.prefixes[i] == (
                        other_prefix@[i].data,
                        match other_prefix@[i].parent {
                            Some(q) => Some(q.0 as nat),
                            None => None,
                        },
                    ),
                a.prefixes.len() + b.prefixes.len() + 1 < usize::MAX,
                map@.len() == it.index(),
                forall|i: int| 0 <= i < map@.len() ==> (#[trigger] map@[i]).0 == n + i,
                self@.prefixes == a.prefixes + b.prefixes.take(it.index() as int).map_values(
                    |e: (P, Option<nat>)| shift_prefix(e, n as nat),
                ),
                self@.items == a.items,
        {
            let ghost i = it.index();
            proof {
                assert(b.prefixes[i as int] == (
                    it.seq()[i as int].data,
                    match it.seq()[i as int].parent {
                        Some(q) => Some(q.0 as nat),
                        None => None,
                    },
                ));
            }
            let parent = match pr.parent {
                Some(q) => Some(map[q.0]),
                None => None,
            };
            let new_id = self.insert_prefix(parent, pr.data);
            map.push(new_id);
            proof {
                assert(b.prefixes.take(i + 1) =~= b.prefixes.take(i as int).push(b.prefixes[i as int]));
                assert(self@.prefixes =~= a.prefixes + b.prefixes.take(i + 1).map_values(
                    |e: (P, Option<nat>)| shift_prefix(e, n as nat),
                ));
            }
        }
        proof {
            assert(b.prefixes.take(b.prefixes.len() as int) =~= b.prefixes);
        }
        for item in it: other_items.into_iter()
            invariant
                self.wf(),
                n == a.prefixes.len(),
                it.seq() == other_items@,
                b.items.len() == other_items@.len(),
                graph_wf(b),
                forall|j: int|
                    0 <= j < b.items.len() ==> #[trigger] b.items[j] == (
                        other_items@[j].data,
                        other_items@[j].prefix.0 as nat,
                    ),
                a.items.len() + b.items.len() + 1 < usize::MAX,
                map@.len() == b.prefixes.len(),
                forall|i: int| 0 <= i < map@.len() ==> (#[trigger] map@[i]).0 == n + i,
                self@.prefixes == merge_view(a, b).prefixes,
                self@.items == a.items + b.items.take(it.index() as int).map_values(
                    |e: (I, nat)| (e.0, e.1 + a.prefixes.len()),
                ),
        {
            let ghost j = it.index();
            proof {
                assert(b.items[j as int] == (it.seq()[j as int].data, it.seq()[j as int].prefix.0 as nat));
            }
            self.insert_item(map[item.prefix.0], item.data);
            proof {
                assert(b.items.take(j + 1) =~= b.items.take(j as int).push(b.items[j as int]));
                assert(self@.items =~= a.items + b.items.take(j + 1).map_values(
                    |e: (I, nat)| (e.0, e.1 + a.prefixes.len()),
                ));
            }
        }
        proof {
            assert(b.items.take(b.items.len() as int) =~= b.items);
            assert(self@ =~= merge_view(a, b));
        }
        map
    }

    /// Merges `other` into this graph and places its roots below `prefix`.
    pub fn nest(&mut self, prefix: PrefixId, other: Self)
        requires
            old(self).wf(),
            other.wf(),
            graph_wf(other@),
            old(self)@.prefixes.len() + other@.prefixes.len() + 1 < usize::MAX,
            old(self)@.items.len() + other@.items.len() + 1 < usize::MAX,
        ensures
            final(self).wf(),
            final(self)@ == nest_view(old(self)@, prefix.0 as nat, other@),
    {
        let ghost a = self@;
        let ghost b = other@;
        let n = self.prefix.len();
        // Which prefixes of `other` are roots.
        let mut is_root: Vec<bool> = Vec::new();
        let mut i: usize = 0;
        while i < other.prefix.len()
            invariant
                i <= other.prefix@.len(),
                is_root@.len() == i,
                b == other@,
                forall|k: int| 0 <= k < i ==> #[trigger] is_root@[k] == (b.prefixes[k].1 is None),
            decreases other.prefix@.len() - i,
        {
            is_root.push(other.prefix[i].parent.is_none());
            proof {
                assert(b.prefixes[i as int].1 is None == other.prefix@[i as int].parent is None);
            }
            i = i + 1;
        }
        let m = other.prefix.len();
        let _ = self.merge(other);
        let ghost merged = self@;
        let mut k: usize = 0;
        while k < m
            invariant
                self.wf(),
                k <= m,
                m == b.prefixes.len(),
                n == a.prefixes.len(),
                is_root@.len() == m,
                graph_wf(b),
                merged == merge_view(a, b),
                forall|t: int| 0 <= t < m ==> #[trigger] is_root@[t] == (b.prefixes[t].1 is None),
                self@.items == merged.items,
                self@.prefixes.len() == n + m,
                forall|t: int| 0 <= t < n + k ==> #[trigger] self@.prefixes[t] == nest_view(a, prefix.0 as nat, b).prefixes[t],
                forall|t: int| n + k <= t < n + m ==> #[trigger] self@.prefixes[t] == merged.prefixes[t],
            decreases m - k,
        {
            proof {
                assert(merged.prefixes[n + k] == shift_prefix(b.prefixes[k as int], n as nat));
                assert(nest_view(a, prefix.0 as nat, b).prefixes[n + k] == nest_prefix(
                    b.prefixes[k as int],
                    n as nat,
                    prefix.0 as nat,
                ));
            }
            if is_root[k] {
                let ghost old_vec = self.prefix@;
                let ghost old_view = self@;
                let mut pr = self.prefix.remove(n + k);
                pr.parent = Some(prefix);
                let ghost new_pr = pr;
                self.prefix.insert(n + k, pr);
                proof {
                    assert(self.prefix@ =~= old_vec.update(n + k, new_pr));
                    assert(new_pr.data == old_vec[n + k].data);
                    assert(new_pr.items == old_vec[n + k].items);
                    assert(self@.prefixes =~= old_view.prefixes.update(
                        n + k,
                        (old_view.prefixes[n + k].0, Some(prefix.0 as nat)),
                    ));
                    assert(self@.items =~= old_view.items);
                }
            }
            k = k + 1;
        }
        proof {
            assert(self@ =~= nest_view(a, prefix.0 as nat, b));
        }
    }

    /// The data of the prefixes from the root down to `p`, following the chain of parents.
    pub fn path_of(&self, p: PrefixId) -> (r: Vec<&P>)
        requires
            self.wf(),
            exists|n: nat| chain_ok(self@, p.0 as nat, n),
        ensures
            forall|n: nat| #[trigger] chain_ok(self@, p.0 as nat, n) ==> deref_seq(r@) == chain_path(
                self@,
                p.0 as nat,
                n,
            ),
            graph_wf(self@) ==> deref_seq(r@) == path(self@, p.0 as nat),
    {
        let ghost fuel = choose|n: nat| chain_ok(self@, p.0 as nat, n);
        let mut acc: Vec<&P> = Vec::new();
        let mut cur: usize = p.0;
        let ghost mut left: nat = fuel;
        proof {
            assert(deref_seq(acc@) =~= Seq::<P>::empty());
            assert(chain_path(self@, p.0 as nat, fuel) =~= chain_path(self@, cur as nat, left)
                + deref_seq(acc@));
        }
        loop
            invariant
                self.wf(),
                chain_ok(self@, p.0 as nat, fuel),
                chain_ok(self@, cur as nat, left),
                chain_path(self@, p.0 as nat, fuel) == chain_path(self@, cur as nat, left)
                    + deref_seq(acc@),
            decreases left,
        {
            let pr = &self.prefix[cur];
            let ghost old_acc = acc@;
            acc.insert(0, &pr.data);
            proof {
                assert(deref_seq(acc@) =~= seq![self@.prefixes[cur as int].0] + deref_seq(old_acc));
            }
            match pr.parent {
                Some(q) => {
                    proof {
                        assert(self@.prefixes[cur as int].1 == Some(q.0 as nat));
                        assert(chain_path(self@, cur as nat, left) == chain_path(
                            self@,
                            q.0 as nat,
                            (left - 1) as nat,
                        ).push(self@.prefixes[cur as int].0));
                        assert(chain_path(self@, q.0 as nat, (left - 1) as nat).push(
                            self@.prefixes[cur as int].0,
                        ) + deref_seq(old_acc) =~= chain_path(self@, q.0 as nat, (left - 1) as nat)
                            + deref_seq(acc@));
                        left = (left - 1) as nat;
                    }
                    cur = q.0;
                },
                None => {
                    proof {
                        assert(chain_path(self@, cur as nat, left) == seq![
                            self@.prefixes[cur as int].0,
                        ]);
                        assert(deref_seq(acc@) =~= chain_path(self@, p.0 as nat, fuel));
                        assert forall|n: nat| #[trigger] chain_ok(self@, p.0 as nat, n) implies deref_seq(
                            acc@,
                        ) == chain_path(self@, p.0 as nat, n) by {
                            if n <= fuel {
                                lemma_chain_fuel(self@, p.0 as nat, n, fuel);
                            } else {
                                lemma_chain_fuel(self@, p.0 as nat, fuel, n);
                            }
                        }
                        if graph_wf(self@) {
                            lemma_chain_wf(self@, p.0 as nat);
                        }
                    }
                    return acc;
                },
            }
        }
    }

    /// For each item, in insertion order, the data of the prefixes along the chain of parents
    /// of its prefix (from the root down), and its data.
    pub fn iter(&self) -> (r: Vec<(Vec<&P>, &I)>)
        requires
            self.wf(),
            chains_ok(self@),
        ensures
            r@.len() == self@.items.len(),
            forall|j: int, n: nat|
                0 <= j < r@.len() && chain_ok(self@, self@.items[j].1, n) ==> deref_seq(
                    (#[trigger] r@[j]).0@,
                ) == #[trigger] chain_path(self@, self@.items[j].1, n),
            forall|j: int| 0 <= j < r@.len() ==> *(#[trigger] r@[j]).1 == self@.items[j].0,
            graph_wf(self@) ==> forall|j: int|
                0 <= j < r@.len() ==> deref_seq((#[trigger] r@[j]).0@) == entries(self@)[j].0
                    && *r@[j].1 == entries(self@)[j].1,
    {
        let mut out: Vec<(Vec<&P>, &I)> = Vec::new();
        let mut j: usize = 0;
        while j < self.items.len()
            invariant
                self.wf(),
                chains_ok(self@),
                j <= self.items@.len(),
                out@.len() == j,
                forall|t: int, n: nat|
                    0 <= t < j && chain_ok(self@, self@.items[t].1, n) ==> deref_seq(
                        (#[trigger] out@[t]).0@,
                    ) == #[trigger] chain_path(self@, self@.items[t].1, n),
                forall|t: int| 0 <= t < j ==> *(#[trigger] out@[t]).1 == self@.items[t].0,
                graph_wf(self@) ==> forall|t: int|
                    0 <= t < j ==> deref_seq((#[trigger] out@[t]).0@) == entries(self@)[t].0
                        && *out@[t].1 == entries(self@)[t].1,
            decreases self.items@.len() - j,
        {
            let item = &self.items[j];
            proof {
                assert(self@.items[j as int] == (item.data, item.prefix.0 as nat));
                assert(item_chain_ok(self@, j as int));
            }
            let p = self.path_of(item.prefix);
            out.push((p, &item.data));
            j = j + 1;
        }
        out
    }
}

proof fn lemma_items_under_none<I>(items: Seq<Item<I>>, p: usize)
    requires
        forall|j: int| 0 <= j < items.len() ==> (#[trigger] items[j]).prefix.0 < p,
    ensures
        items_under(items, p) == Seq::<ItemId>::empty(),
    decreases items.len(),
{
    if items.len() > 0 {
        lemma_items_under_none(items.drop_last(), p);
    }
}

} // verus!

//! Routing: handlers are registered under names, routers are nested under prefixes, and each
//! handler is reached by its RPC method name, the names along its path joined with `.`.
use vstd::prelude::*;

use crate::graph::{
    deref_seq, entries, graph_wf, law_nest_entries, nest_view, path, prefixed_entries, Graph,
    GraphView, PrefixId,
};
use crate::text::{push_char, push_text};

pub mod codegen;
pub mod rpc;

verus! {

/// `parts` joined with `.` between consecutive parts.
pub open spec fn join_dot(parts: Seq<Seq<char>>) -> Seq<char>
    decreases parts.len(),
{
    if parts.len() == 0 {
        Seq::empty()
    } else if parts.len() == 1 {
        parts[0]
    } else {
        join_dot(parts.drop_last()).push('.') + parts.last()
    }
}

/// Joining a path that starts with `p`.
pub proof fn lemma_join_dot_front(p: Seq<char>, rest: Seq<Seq<char>>)
    requires
        rest.len() > 0,
    ensures
        join_dot(seq![p] + rest) == p.push('.') + join_dot(rest),
    decreases rest.len(),
{
    let whole = seq![p] + rest;
    assert(whole.last() == rest.last());
    if rest.len() == 1 {
        assert(whole.drop_last() =~= seq![p]);
        assert(join_dot(seq![p]) == p);
        assert(p.push('.') + rest[0] =~= p.push('.') + join_dot(rest));
    } else {
        lemma_join_dot_front(p, rest.drop_last());
        assert(whole.drop_last() =~= seq![p] + rest.drop_last());
        assert((p.push('.') + join_dot(rest.drop_last())).push('.') + rest.last() =~= p.push('.')
            + (join_dot(rest.drop_last()).push('.') + rest.last()));
    }
}

/// The views of a sequence of strings.
pub open spec fn views_of(s: Seq<String>) -> Seq<Seq<char>> {
    s.map_values(|x: String| x@)
}

/// Route names of the graph entries: the names along each path, joined with `.`.
pub open spec fn routes_of<H>(v: GraphView<String, H>) -> Seq<(Seq<char>, H)> {
    entries(v).map_values(|e: (Seq<String>, H)| (join_dot(views_of(e.0)), e.1))
}

/// Joins `parts` with `.`.
pub fn join_with_dots(parts: &Vec<&String>) -> (r: String)
    ensures
        r@ == join_dot(views_of(deref_seq(parts@))),
{
    let mut r = String::new();
    let mut i: usize = 0;
    let ghost all = views_of(deref_seq(parts@));
    while i < parts.len()
        invariant
            i <= parts@.len(),
            all == views_of(deref_seq(parts@)),
            all.len() == parts@.len(),
            r@ == join_dot(all.take(i as int)),
        decreases parts@.len() - i,
    {
        let ghost before = r@;
        if i > 0 {
            push_char(&mut r, '.');
        }
        push_text(&mut r, parts[i].as_str());
        proof {
            let t = all.take(i + 1);
            assert(t.drop_last() =~= all.take(i as int));
            assert(all[i as int] == parts@[i as int]@);
            if i == 0 {
                assert(r@ =~= t[0]);
            }
        }
        i = i + 1;
    }
    proof {
        assert(all.take(i as int) =~= all);
    }
    r
}

/// A collection of handlers and nested routers. Each handler is reached under its route name.
pub struct Router<H> {
    handlers: Graph<String, H>,
}

impl<H> Router<H> {
    /// The routes of this router, in registration order: each handler with its name, prefixed
    /// by the names of the routers it was nested in, joined with `.`.
    pub closed spec fn routes(&self) -> Seq<(Seq<char>, H)> {
        routes_of(self.handlers@)
    }

    /// Internal consistency of the router.
    pub closed spec fn wf(&self) -> bool {
        self.handlers.wf() && graph_wf(self.handlers@)
    }

    /// Total number of names and handlers held.
    pub closed spec fn size(&self) -> nat {
        self.handlers@.prefixes.len() + self.handlers@.items.len()
    }

    /// A router without handlers.
    pub fn new() -> (r: Self)
        ensures
            r.wf(),
            r.routes() == Seq::<(Seq<char>, H)>::empty(),
            r.size() == 0,
    {
        let r = Router { handlers: Graph::new() };
        assert(r.routes() =~= Seq::<(Seq<char>, H)>::empty());
        r
    }

    /// Registers `handler` under `name`.
    pub fn handler(self, name: String, handler: H) -> (r: Self)
        requires
            self.wf(),
            self.size() + 2 < usize::MAX,
        ensures
            r.wf(),
            r.routes() == self.routes().push((name@, handler)),
            r.size() == self.size() + 2,
    {
        let ghost nm = name@;
        let mut router = self;
        let ghost a = router.handlers@;
        let prefix = router.handlers.insert_prefix(None, name);
        let ghost b = router.handlers@;
        router.handlers.insert_item(prefix, handler);
        proof {
            let c = router.handlers@;
            assert(path(c, prefix.0 as nat) == path(b, prefix.0 as nat));
            assert(path(b, prefix.0 as nat) =~= seq![b.prefixes[prefix.0 as int].0]);
            assert forall|j: int| 0 <= j < a.items.len() implies #[trigger] entries(c)[j]
                == entries(a)[j] by {
                crate::graph::lemma_path_prefix_closed(c, a, a.prefixes.len(), a.items[j].1);
            }
            assert(entries(c) =~= entries(a).push((seq![b.prefixes[prefix.0 as int].0], handler)));
            assert(views_of(seq![b.prefixes[prefix.0 as int].0]) =~= seq![nm]);
            assert(routes_of(c) =~= routes_of(a).push((nm, handler)));
        }
        router
    }

    /// Nests `router` under `prefix`: each of its routes is reached as `prefix.route`.
    pub fn nest(self, prefix: String, router: Router<H>) -> (r: Self)
        requires
            self.wf(),
            router.wf(),
            self.size() + router.size() + 2 < usize::MAX,
        ensures
            r.wf(),
            r.routes() == self.routes() + router.routes().map_values(
                |e: (Seq<char>, H)| (prefix@.push('.') + e.0, e.1),
            ),
            r.size() == self.size() + router.size() + 1,
    {
        let ghost p = prefix@;
        let mut this = self;
        let ghost a = this.handlers@;
        let ghost o = router.handlers@;
        let id = this.handlers.insert_prefix(None, prefix);
        let ghost b = this.handlers@;
        this.handlers.nest(id, router.handlers);
        proof {
            law_nest_entries(b, id.0 as nat, o);
            assert(path(b, id.0 as nat) =~= seq![b.prefixes[id.0 as int].0]);
            assert forall|j: int| 0 <= j < a.items.len() implies #[trigger] entries(b)[j]
                == entries(a)[j] by {
                crate::graph::lemma_path_prefix_closed(b, a, a.prefixes.len(), a.items[j].1);
            }
            assert(entries(b) =~= entries(a));
            let pre = path(b, id.0 as nat);
            let lhs = routes_of(this.handlers@);
            let rhs = routes_of(a) + routes_of(o).map_values(
                |e: (Seq<char>, H)| (p.push('.') + e.0, e.1),
            );
            assert forall|j: int| 0 <= j < lhs.len() implies #[trigger] lhs[j] == rhs[j] by {
                if j >= a.items.len() {
                    let k = j - a.items.len();
                    let e = entries(o)[k];
                    assert(prefixed_entries(pre, entries(o))[k] == (pre + e.0, e.1));
                    assert(o.items[k].1 < o.prefixes.len());
                    lemma_path_nonempty(o, o.items[k].1);
                    assert(views_of(pre + e.0) =~= seq![p] + views_of(e.0));
                    lemma_join_dot_front(p, views_of(e.0));
                }
            }
            assert(lhs =~= rhs);
        }
        this
    }

    /// Every route of the router: its name and its handler, in registration order.
    pub fn route_list(&self) -> (r: Vec<(String, &H)>)
        requires
            self.wf(),
        ensures
            r@.len() == self.routes().len(),
            forall|j: int|
                0 <= j < r@.len() ==> (#[trigger] r@[j]).0@ == self.routes()[j].0 && *r@[j].1
                    == self.routes()[j].1,
    {
        proof {
            crate::graph::lemma_chains_wf(self.handlers@);
        }
        let all = self.handlers.iter();
        let mut out: Vec<(String, &H)> = Vec::new();
        let mut j: usize = 0;
        while j < all.len()
            invariant
                self.wf(),
                j <= all@.len(),
                all@.len() == self.handlers@.items.len(),
                forall|t: int|
                    0 <= t < all@.len() ==> deref_seq((#[trigger] all@[t]).0@) == entries(
                        self.handlers@,
                    )[t].0 && *all@[t].1 == entries(self.handlers@)[t].1,
                out@.len() == j,
                forall|t: int|
                    0 <= t < j ==> (#[trigger] out@[t]).0@ == self.routes()[t].0 && *out@[t].1
                        == self.routes()[t].1,
            decreases all@.len() - j,
        {
            let name = join_with_dots(&all[j].0);
            out.push((name, all[j].1));
            j = j + 1;
        }
        out
    }
}

/// Paths of existing prefixes are non-empty.
proof fn lemma_path_nonempty<H>(v: GraphView<String, H>, p: nat)
    requires
        p < v.prefixes.len(),
    ensures
        path(v, p).len() > 0,
{
}

} // verus!

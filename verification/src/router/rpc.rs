//! How handlers are reached over RPC: method names built from prefixes, and the request body
//! that a `GET` request carries in its query string.
use vstd::prelude::*;

use crate::strmap::find;
use crate::text::{owned, push_text};

verus! {

/// The view of an optional string.
pub open spec fn opt_view(s: Option<&str>) -> Option<Seq<char>> {
    match s {
        Some(p) => Some(p@),
        None => None,
    }
}

/// The method name of a handler registered under `prefix` (if any): `<prefix>.<name>`, or the
/// name alone.
pub open spec fn method_name_text(prefix: Option<Seq<char>>, name: Seq<char>) -> Seq<char> {
    match prefix {
        Some(p) => p + "."@ + name,
        None => name,
    }
}

/// The prefix of a handler once its router is nested under `prefix`: `<prefix>.<old prefix>`,
/// or `prefix` for a handler that had none.
pub open spec fn nested_prefix_text(prefix: Seq<char>, handler_prefix: Option<Seq<char>>) -> Seq<
    char,
> {
    match handler_prefix {
        Some(h) => prefix + "."@ + h,
        None => prefix,
    }
}

/// The view of an optional owned string.
pub open spec fn opt_string_view(s: Option<String>) -> Option<Seq<char>> {
    match s {
        Some(p) => Some(p@),
        None => None,
    }
}

/// The method names that registrations are served under: for each, in order, its handler name
/// behind its prefix (if any).
pub open spec fn registered_names<R>(regs: Seq<(Option<String>, &'static str, R)>) -> Seq<Seq<char>> {
    regs.map_values(|e: (Option<String>, &'static str, R)| method_name_text(opt_string_view(e.0), e.1@))
}

/// Appends to `regs` the registrations of a router nested under `prefix`: each keeps its handler
/// name and what registers it, and its prefix gets `prefix` in front. So each method name `x` of
/// the nested router is served as `<prefix>.x`.
pub fn nest_registrations<R>(
    regs: &mut Vec<(Option<String>, &'static str, R)>,
    prefix: &str,
    nested: Vec<(Option<String>, &'static str, R)>,
)
    ensures
        final(regs)@.len() == old(regs)@.len() + nested@.len(),
        forall|i: int| 0 <= i < old(regs)@.len() ==> #[trigger] final(regs)@[i] == old(regs)@[i],
        forall|i: int|
            0 <= i < nested@.len() ==> {
                let e = #[trigger] final(regs)@[old(regs)@.len() + i];
                &&& opt_string_view(e.0) == Some(
                    nested_prefix_text(prefix@, opt_string_view(nested@[i].0)),
                )
                &&& e.1 == nested@[i].1
                &&& e.2 == nested@[i].2
            },
        registered_names(final(regs)@) == registered_names(old(regs)@) + registered_names(
            nested@,
        ).map_values(|x: Seq<char>| prefix@ + "."@ + x),
{
    let ghost start = regs@;
    let ghost all = nested@;
    let n = nested.len();
    let mut rest = nested;
    let mut i: usize = 0;
    while rest.len() > 0
        invariant
            i + rest@.len() == all.len(),
            all.len() == n,
            rest@ == all.skip(i as int),
            regs@.len() == start.len() + i,
            forall|k: int| 0 <= k < start.len() ==> #[trigger] regs@[k] == start[k],
            forall|k: int|
                0 <= k < i ==> {
                    let e = #[trigger] regs@[start.len() + k];
                    &&& opt_string_view(e.0) == Some(
                        nested_prefix_text(prefix@, opt_string_view(all[k].0)),
                    )
                    &&& e.1 == all[k].1
                    &&& e.2 == all[k].2
                },
        decreases rest@.len(),
    {
        let (p, n, r) = rest.remove(0);
        proof {
            assert(all[i as int] == (p, n, r));
        }
        let np = nested_prefix(prefix, p);
        regs.push((Some(np), n, r));
        proof {
            assert(rest@ =~= all.skip(i + 1));
        }
        i = i + 1;
    }
    proof {
        let lhs = registered_names(regs@);
        let rhs = registered_names(start) + registered_names(all).map_values(
            |x: Seq<char>| prefix@ + "."@ + x,
        );
        assert forall|k: int| 0 <= k < lhs.len() implies lhs[k] == rhs[k] by {
            if k >= start.len() {
                let j = k - start.len();
                assert(regs@[start.len() + j] == regs@[k]);
                law_nested_method_name(prefix@, opt_string_view(all[j].0), all[j].1@);
            }
        }
        assert(lhs =~= rhs);
    }
}

/// The method name of a handler registered under `prefix` (if any).
pub fn method_name(prefix: Option<&str>, handler_name: &str) -> (r: String)
    ensures
        r@ == method_name_text(opt_view(prefix), handler_name@),
{
    match prefix {
        Some(p) => {
            let mut r = owned(p);
            push_text(&mut r, ".");
            push_text(&mut r, handler_name);
            r
        },
        None => owned(handler_name),
    }
}

/// The prefix of a handler once its router is nested under `prefix`.
pub fn nested_prefix(prefix: &str, handler_prefix: Option<String>) -> (r: String)
    ensures
        r@ == nested_prefix_text(
            prefix@,
            match handler_prefix {
                Some(h) => Some(h@),
                None => None,
            },
        ),
{
    match handler_prefix {
        Some(hp) => {
            let mut r = owned(prefix);
            push_text(&mut r, ".");
            push_text(&mut r, hp.as_str());
            r
        },
        None => owned(prefix),
    }
}

/// Nesting a router under `prefix` puts `prefix.` in front of the method name of each of its
/// handlers.
pub proof fn law_nested_method_name(
    prefix: Seq<char>,
    handler_prefix: Option<Seq<char>>,
    name: Seq<char>,
)
    ensures
        method_name_text(Some(nested_prefix_text(prefix, handler_prefix)), name) == prefix + "."@
            + method_name_text(handler_prefix, name),
{
    match handler_prefix {
        Some(h) => {
            assert(prefix + "."@ + h + "."@ + name =~= prefix + "."@ + (h + "."@ + name));
        },
        None => {},
    }
}

/// The pairs of a query string, in increasing key order, as `serde_qs` parses it into a map from
/// strings to strings (`None` when it cannot).
pub uninterp spec fn query_pairs(query: Seq<char>) -> Option<Seq<(Seq<char>, Seq<char>)>>;

/// The percent-decoding of `s` by `urlencoding` (`None` when the result is not UTF-8).
pub uninterp spec fn url_decoded(s: Seq<char>) -> Option<Seq<char>>;

/// The views of a list of pairs of strings.
pub open spec fn pairs_view(v: Seq<(String, String)>) -> Seq<(Seq<char>, Seq<char>)> {
    v.map_values(|p: (String, String)| (p.0@, p.1@))
}

/// Parses a query string into key and value pairs with `serde_qs::from_str` (into a
/// `BTreeMap<String, String>`, whose pairs come out in increasing key order, each key once).
/// The contract names the result; it adds that no key occurs twice.
#[verifier::external_body]
fn parse_query(query: &str) -> (r: Option<Vec<(String, String)>>)
    ensures
        match r {
            Some(v) => query_pairs(query@) == Some(pairs_view(v@)),
            None => query_pairs(query@) is None,
        },
        r matches Some(v) ==> forall|i: int, j: int|
            0 <= i < j < v@.len() ==> (#[trigger] v@[i]).0@ != (#[trigger] v@[j]).0@,
{
    match serde_qs::from_str::<std::collections::BTreeMap<String, String>>(query) {
        Ok(m) => Some(m.into_iter().collect()),
        Err(_) => None,
    }
}

/// Percent-decodes `s` with `urlencoding::decode`. The contract names the result, and states
/// what the crate's source shows: a string without `%` decodes to itself.
#[verifier::external_body]
fn decode_url(s: &str) -> (r: Option<String>)
    ensures
        match r {
            Some(d) => url_decoded(s@) == Some(d@),
            None => url_decoded(s@) is None,
        },
        !s@.contains('%') ==> r is Some && r.unwrap()@ == s@,
{
    match urlencoding::decode(s) {
        Ok(d) => Some(d.into_owned()),
        Err(_) => None,
    }
}

/// The body a `GET` request carries, given the pairs of its query string and the decoding of
/// their `input` value: the decoded `input` (empty when it does not decode), or nothing when the
/// query string has no `input`.
pub open spec fn body_text(
    pairs: Option<Seq<(Seq<char>, Seq<char>)>>,
    decoded: spec_fn(Seq<char>) -> Option<Seq<char>>,
) -> Option<Seq<char>> {
    match pairs {
        None => None,
        Some(ps) => match find(ps, "input"@) {
            None => None,
            Some(v) => Some(
                match decoded(v) {
                    Some(d) => d,
                    None => Seq::empty(),
                },
            ),
        },
    }
}

/// The value of the `input` pair, if there is one.
pub fn input_value(pairs: &Vec<(String, String)>) -> (r: Option<&String>)
    ensures
        match r {
            Some(v) => find(pairs_view(pairs@), "input"@) == Some(v@),
            None => find(pairs_view(pairs@), "input"@) is None,
        },
{
    let ghost pv = pairs_view(pairs@);
    let mut i: usize = 0;
    proof {
        assert(pv.skip(0) =~= pv);
    }
    while i < pairs.len()
        invariant
            i <= pairs@.len(),
            pv == pairs_view(pairs@),
            find(pv, "input"@) == find(pv.skip(i as int), "input"@),
        decreases pairs@.len() - i,
    {
        if crate::text::text_eq(pairs[i].0.as_str(), "input") {
            proof {
                assert(pv.skip(i as int)[0] == pv[i as int]);
            }
            return Some(&pairs[i].1);
        }
        proof {
            assert(pv.skip(i as int).drop_first() =~= pv.skip(i + 1));
            assert(pv.skip(i as int)[0] == pv[i as int]);
        }
        i = i + 1;
    }
    None
}

/// The body carried by the query string of a `GET` request: the `input` value of the query
/// string, percent-decoded (empty when the decoding fails), or nothing when there is no query
/// string, it does not parse, or it has no `input`.
pub fn request_body(query: Option<&str>) -> (r: Option<String>)
    ensures
        match r {
            Some(b) => match query {
                Some(q) => body_text(query_pairs(q@), |s: Seq<char>| url_decoded(s)) == Some(b@),
                None => false,
            },
            None => match query {
                Some(q) => body_text(query_pairs(q@), |s: Seq<char>| url_decoded(s)) is None,
                None => true,
            },
        },
{
    let q = match query {
        Some(q) => q,
        None => {
            return None;
        },
    };
    let pairs = match parse_query(q) {
        Some(p) => p,
        None => {
            return None;
        },
    };
    match input_value(&pairs) {
        Some(input) => Some(decoded_or_empty(decode_url(input.as_str()))),
        None => None,
    }
}

/// The decoded body, or an empty body when the decoding failed.
pub fn decoded_or_empty(decoded: Option<String>) -> (r: String)
    ensures
        r@ == match decoded {
            Some(d) => d@,
            None => Seq::<char>::empty(),
        },
{
    match decoded {
        Some(d) => d,
        None => String::new(),
    }
}

} // verus!

//! Assembly of the index file of the generated bindings, and of the type of a router from its
//! entries.
use vstd::prelude::*;

use crate::reflection::handler::HandlerKind;
use crate::text::{has_infix, join_with, push_text, string_views};

verus! {

/// The first occurrence of each element of `s`, in order.
pub open spec fn first_occurrences<A>(s: Seq<A>) -> Seq<A>
    decreases s.len(),
{
    if s.len() == 0 {
        s
    } else if s.drop_last().contains(s.last()) {
        first_occurrences(s.drop_last())
    } else {
        first_occurrences(s.drop_last()).push(s.last())
    }
}

/// The parts that are not empty, in order.
pub open spec fn nonempty_parts(parts: Seq<Seq<char>>) -> Seq<Seq<char>>
    decreases parts.len(),
{
    if parts.len() == 0 {
        parts
    } else if parts.last().len() > 0 {
        nonempty_parts(parts.drop_last()).push(parts.last())
    } else {
        nonempty_parts(parts.drop_last())
    }
}

/// One line per type: `<keyword> type { <name> } from "<package>";`.
pub open spec fn type_lines(keyword: Seq<char>, types: Seq<(Seq<char>, Seq<char>)>) -> Seq<char>
    decreases types.len(),
{
    if types.len() == 0 {
        Seq::empty()
    } else {
        type_lines(keyword, types.drop_last()) + keyword + " type { "@ + types.last().1
            + " } from \""@ + types.last().0 + "\";"@ + "\n"@
    }
}

/// The views of `(package, type)` pairs.
pub open spec fn type_pairs(types: Seq<(String, String)>) -> Seq<(Seq<char>, Seq<char>)> {
    types.map_values(|t: (String, String)| (t.0@, t.1@))
}

/// The index file of the bindings: the header; the import of each type (given as
/// `(package, type)`, each distinct pair once, in order of first appearance); their exports; and
/// `export type QubitServer = <server type>;`. Empty parts are left out, and the others are
/// separated by a line feed.
pub open spec fn index_text(
    header: Seq<char>,
    types: Seq<(Seq<char>, Seq<char>)>,
    server_type: Seq<char>,
) -> Seq<char> {
    let ts = first_occurrences(types);
    join_with(
        nonempty_parts(
            seq![
                header,
                type_lines("import"@, ts),
                type_lines("export"@, ts),
                "export type QubitServer = "@ + server_type + ";"@,
            ],
        ),
        "\n"@,
    )
}

/// The object type of a router: `{ ` then its entries `<key>: <type>` separated by `, `, then
/// ` }`.
pub open spec fn router_type_text(entries: Seq<(Seq<char>, Seq<char>)>) -> Seq<char> {
    "{ "@ + join_with(
        entries.map_values(|e: (Seq<char>, Seq<char>)| e.0 + ": "@ + e.1),
        ", "@,
    ) + " }"@
}

/// The object type of a router whose entries (handlers, then nested routers) are
/// `(key, type)`.
pub fn router_type(entries: &Vec<(String, String)>) -> (r: String)
    ensures
        r@ == router_type_text(type_pairs(entries@)),
{
    let mut parts: Vec<String> = Vec::new();
    let mut i: usize = 0;
    while i < entries.len()
        invariant
            i <= entries@.len(),
            parts@.len() == i,
            forall|k: int|
                0 <= k < i ==> (#[trigger] parts@[k])@ == entries@[k].0@ + ": "@ + entries@[k].1@,
        decreases entries@.len() - i,
    {
        let mut p = String::new();
        push_text(&mut p, entries[i].0.as_str());
        push_text(&mut p, ": ");
        push_text(&mut p, entries[i].1.as_str());
        parts.push(p);
        i = i + 1;
    }
    let joined = crate::text::join_strings(&parts, ", ");
    let mut r = String::new();
    push_text(&mut r, "{ ");
    push_text(&mut r, joined.as_str());
    push_text(&mut r, " }");
    proof {
        assert(string_views(parts@) =~= type_pairs(entries@).map_values(
            |e: (Seq<char>, Seq<char>)| e.0 + ": "@ + e.1,
        ));
    }
    r
}

/// Appends `<keyword> type { <name> } from "<package>";` and a line feed.
fn push_type_line(out: &mut String, keyword: &str, package: &str, name: &str)
    ensures
        final(out)@ == old(out)@ + keyword@ + " type { "@ + name@ + " } from \""@ + package@
            + "\";"@ + "\n"@,
{
    let ghost start = out@;
    push_text(out, keyword);
    push_text(out, " type { ");
    push_text(out, name);
    push_text(out, " } from \"");
    push_text(out, package);
    push_text(out, "\";");
    push_text(out, "\n");
    proof {
        assert(out@ =~= start + keyword@ + " type { "@ + name@ + " } from \""@ + package@ + "\";"@
            + "\n"@);
    }
}

/// The index file of the bindings (see [`index_text`]).
pub fn bindings_index(header: &str, types: &Vec<(String, String)>, server_type: &str) -> (r:
    String)
    ensures
        r@ == index_text(header@, type_pairs(types@), server_type@),
{
    let ghost tv = type_pairs(types@);
    let mut seen: Vec<(String, String)> = Vec::new();
    let mut imports = String::new();
    let mut exports = String::new();
    let mut i: usize = 0;
    while i < types.len()
        invariant
            i <= types@.len(),
            tv == type_pairs(types@),
            type_pairs(seen@) == first_occurrences(tv.take(i as int)),
            imports@ == type_lines("import"@, type_pairs(seen@)),
            exports@ == type_lines("export"@, type_pairs(seen@)),
        decreases types@.len() - i,
    {
        let ghost before = seen@;
        let mut found = false;
        let mut j: usize = 0;
        while j < seen.len()
            invariant
                j <= seen@.len(),
                i < types@.len(),
                found == type_pairs(seen@).take(j as int).contains(tv[i as int]),
                tv == type_pairs(types@),
            decreases seen@.len() - j,
        {
            let same = crate::text::text_eq(seen[j].0.as_str(), types[i].0.as_str())
                && crate::text::text_eq(seen[j].1.as_str(), types[i].1.as_str());
            proof {
                let t = type_pairs(seen@).take(j + 1);
                assert(t =~= type_pairs(seen@).take(j as int).push(type_pairs(seen@)[j as int]));
                assert(t.contains(tv[i as int]) == (type_pairs(seen@).take(j as int).contains(
                    tv[i as int],
                ) || type_pairs(seen@)[j as int] == tv[i as int])) by {
                    if t.contains(tv[i as int]) {
                        let k = choose|k: int| 0 <= k < t.len() && t[k] == tv[i as int];
                        if k < j {
                            assert(type_pairs(seen@).take(j as int)[k] == tv[i as int]);
                        }
                    }
                    if type_pairs(seen@).take(j as int).contains(tv[i as int]) {
                        let k = choose|k: int|
                            0 <= k < j && type_pairs(seen@).take(j as int)[k] == tv[i as int];
                        assert(t[k] == tv[i as int]);
                    }
                    if type_pairs(seen@)[j as int] == tv[i as int] {
                        assert(t[j as int] == tv[i as int]);
                    }
                }
            }
            if same {
                found = true;
            }
            j = j + 1;
        }
        proof {
            assert(type_pairs(seen@).take(j as int) =~= type_pairs(seen@));
            assert(tv.take(i + 1).drop_last() =~= tv.take(i as int));
            assert(tv.take(i + 1).last() == tv[i as int]);
            lemma_first_occurrences_contains(tv.take(i as int), tv[i as int]);
        }
        if !found {
            push_type_line(&mut imports, "import", types[i].0.as_str(), types[i].1.as_str());
            push_type_line(&mut exports, "export", types[i].0.as_str(), types[i].1.as_str());
            let pair = (types[i].0.clone(), types[i].1.clone());
            seen.push(pair);
            proof {
                assert(type_pairs(seen@) =~= type_pairs(before).push(tv[i as int]));
                assert(type_pairs(seen@).drop_last() =~= type_pairs(before));
                assert(type_pairs(seen@).last() == tv[i as int]);
            }
        }
        i = i + 1;
    }
    proof {
        assert(tv.take(i as int) =~= tv);
    }
    let mut server = String::new();
    push_text(&mut server, "export type QubitServer = ");
    push_text(&mut server, server_type);
    push_text(&mut server, ";");
    let mut parts: Vec<String> = Vec::new();
    let ghost all = seq![header@, imports@, exports@, server@];
    if !header.is_empty() {
        parts.push(crate::text::owned(header));
    }
    proof {
        assert(all.take(1).drop_last() =~= Seq::<Seq<char>>::empty());
        assert(all.take(1).last() == header@);
        assert(nonempty_parts(all.take(1).drop_last()) =~= Seq::<Seq<char>>::empty());
        assert(string_views(parts@) =~= nonempty_parts(all.take(1)));
    }
    if !imports.as_str().is_empty() {
        parts.push(imports);
    }
    proof {
        assert(all.take(2).drop_last() =~= all.take(1));
        assert(string_views(parts@) =~= nonempty_parts(all.take(2)));
    }
    if !exports.as_str().is_empty() {
        parts.push(exports);
    }
    proof {
        assert(all.take(3).drop_last() =~= all.take(2));
        assert(string_views(parts@) =~= nonempty_parts(all.take(3)));
    }
    if !server.as_str().is_empty() {
        parts.push(server);
    }
    proof {
        assert(all.take(4).drop_last() =~= all.take(3));
        assert(all.take(4) =~= all);
        assert(string_views(parts@) =~= nonempty_parts(all));
    }
    crate::text::join_strings(&parts, "\n")
}

/// The TypeScript file of a router: the header, the import of the handler kinds, and the type
/// of the router, each followed by a line feed.
pub open spec fn type_file_text(header: Seq<char>, router_typescript: Seq<char>) -> Seq<char> {
    header + "\n"@ + "import type { Query, Mutation, Subscription } from \"@qubit-rs/client\";"@
        + "\n"@ + router_typescript + "\n"@
}

/// The second line of a bindings file imports, from the client package, every handler kind that
/// the router type can mention; the header comes before it and the router type after it.
pub proof fn law_type_file_imports_all_kinds(header: Seq<char>, router_typescript: Seq<char>)
    ensures
        exists|line: Seq<char>|
            type_file_text(header, router_typescript) == header + "\n"@ + line + "\n"@
                + router_typescript + "\n"@ && has_infix(line, "@qubit-rs/client"@) && forall|
                k: HandlerKind,
            | has_infix(line, #[trigger] k.spec_ts_name()),
{
    let line = "import type { Query, Mutation, Subscription } from \"@qubit-rs/client\";"@;
    reveal_strlit("import type { Query, Mutation, Subscription } from \"@qubit-rs/client\";");
    reveal_strlit("@qubit-rs/client");
    assert(line.subrange(14, 19) =~= HandlerKind::Query.spec_ts_name());
    assert(line.subrange(21, 29) =~= HandlerKind::Mutation.spec_ts_name());
    assert(line.subrange(31, 43) =~= HandlerKind::Subscription.spec_ts_name());
    assert(line.subrange(52, 68) =~= "@qubit-rs/client"@);
    assert forall|k: HandlerKind| has_infix(line, #[trigger] k.spec_ts_name()) by {
        match k {
            HandlerKind::Query => assert(line.subrange(14, 14 + k.spec_ts_name().len() as int) == k.spec_ts_name()),
            HandlerKind::Mutation => assert(line.subrange(21, 21 + k.spec_ts_name().len() as int) == k.spec_ts_name()),
            HandlerKind::Subscription => assert(line.subrange(31, 31 + k.spec_ts_name().len() as int) == k.spec_ts_name()),
        }
    }
    assert(has_infix(line, "@qubit-rs/client"@)) by {
        assert(line.subrange(52, 52 + "@qubit-rs/client"@.len() as int) == "@qubit-rs/client"@);
    }
}

/// The TypeScript file of a router (see [`type_file_text`]).
pub fn type_file(header: &str, router_typescript: &str) -> (r: String)
    ensures
        r@ == type_file_text(header@, router_typescript@),
{
    let mut r = String::new();
    push_text(&mut r, header);
    push_text(&mut r, "\n");
    push_text(&mut r, "import type { Query, Mutation, Subscription } from \"@qubit-rs/client\";");
    push_text(&mut r, "\n");
    push_text(&mut r, router_typescript);
    push_text(&mut r, "\n");
    proof {
        assert(r@ =~= type_file_text(header@, router_typescript@));
    }
    r
}

/// Whether `x` is among the first occurrences of `s` is whether it is in `s`.
proof fn lemma_first_occurrences_contains<A>(s: Seq<A>, x: A)
    ensures
        first_occurrences(s).contains(x) == s.contains(x),
    decreases s.len(),
{
    if s.len() > 0 {
        lemma_first_occurrences_contains(s.drop_last(), x);
        let f = first_occurrences(s.drop_last());
        if s.contains(x) {
            let k = choose|k: int| 0 <= k < s.len() && s[k] == x;
            if k < s.len() - 1 {
                assert(s.drop_last()[k] == x);
            }
        }
        if s.drop_last().contains(x) {
            let k = choose|k: int| 0 <= k < s.drop_last().len() && s.drop_last()[k] == x;
            assert(s[k] == x);
        }
        if !s.drop_last().contains(s.last()) {
            let g = f.push(s.last());
            if g.contains(x) {
                let k = choose|k: int| 0 <= k < g.len() && g[k] == x;
                if k < f.len() {
                    assert(f[k] == x);
                }
            }
            if f.contains(x) {
                let k = choose|k: int| 0 <= k < f.len() && f[k] == x;
                assert(g[k] == x);
            }
            if x == s.last() {
                assert(g[f.len() as int] == x);
                assert(s[s.len() - 1] == x);
            }
        } else {
            if x == s.last() {
                assert(s[s.len() - 1] == x);
            }
        }
    }
}

} // verus!

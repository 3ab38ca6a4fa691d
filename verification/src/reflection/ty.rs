//! Reflected type names, as they appear in generated TypeScript.
use vstd::prelude::*;

use crate::text::{
    chars_of, find_first, find_last, first_pos, join_strings, join_with, last_pos, lemma_first_pos,
    lemma_last_pos, lemma_split_join, lemma_trim_space, push_text, split_pieces, split_trimmed,
    string_of_range, string_views, trim_text_chars, trimmed,
};

verus! {

/// Whether `s` can be split into a name and generics: a `<` must be followed by a `>`.
pub open spec fn type_name_ok(s: Seq<char>) -> bool {
    first_pos(s, '<') < s.len() ==> last_pos(s.skip(first_pos(s, '<') + 1), '>') >= 0
}

/// The name and generics of the type written `s`: everything before the first `<` is the name;
/// the text between it and the last `>` after it, split at `,` and trimmed, are the generics.
pub open spec fn parse_type_name(s: Seq<char>) -> (Seq<char>, Seq<Seq<char>>) {
    let i = first_pos(s, '<');
    if i < s.len() {
        let rest = s.skip(i + 1);
        (
            s.take(i),
            split_pieces(rest.take(last_pos(rest, '>')), ',').map_values(
                |g: Seq<char>| trimmed(g),
            ),
        )
    } else {
        (s, Seq::empty())
    }
}

/// Writing a type and reading it back gives the same name and generics, and writing them again
/// gives the same text: for a name without `<` and generics without surrounding white space or
/// `,`.
pub proof fn law_parse_render_type(name: Seq<char>, gs: Seq<Seq<char>>)
    requires
        !name.contains('<'),
        forall|i: int|
            0 <= i < gs.len() ==> trimmed(#[trigger] gs[i]) == gs[i] && !gs[i].contains(','),
    ensures
        type_name_ok(render_type(name, gs)),
        parse_type_name(render_type(name, gs)) == (name, gs),
        render_type(parse_type_name(render_type(name, gs)).0, parse_type_name(render_type(name, gs)).1)
            == render_type(name, gs),
{
    let s = render_type(name, gs);
    if gs.len() == 0 {
        lemma_first_pos(name, '<', name.len() as int);
        assert(name.take(name.len() as int) =~= name);
    } else {
        let j = join_with(gs, seq![',', ' ']);
        assert(s =~= name + seq!['<'] + j + seq!['>']);
        assert forall|k: int| 0 <= k < name.len() implies s[k] != '<' by {
            assert(s[k] == name[k]);
        }
        lemma_first_pos(s, '<', name.len() as int);
        let rest = s.skip(name.len() as int + 1);
        assert(rest =~= j + seq!['>']);
        lemma_last_pos(rest, '>', j.len() as int);
        assert(rest.take(j.len() as int) =~= j);
        lemma_split_join(gs);
        let pieces = split_pieces(j, ',');
        assert forall|i: int| 0 <= i < gs.len() implies trimmed(#[trigger] pieces[i]) == gs[i] by {
            if i > 0 {
                lemma_trim_space(gs[i]);
            }
        }
        assert(pieces.map_values(|g: Seq<char>| trimmed(g)) =~= gs);
        assert(s.take(name.len() as int) =~= name);
    }
}

/// The text of a type with the given name and generics: `name` or `name<g1, g2>`.
pub open spec fn render_type(name: Seq<char>, generics: Seq<Seq<char>>) -> Seq<char> {
    if generics.len() == 0 {
        name
    } else {
        name + seq!['<'] + join_with(generics, seq![',', ' ']) + seq!['>']
    }
}

/// Whether `decl` has the shape `type <name> = <definition>;`.
pub open spec fn declaration_shape_ok(decl: Seq<char>) -> bool {
    let i = first_pos(decl, '=');
    let tail = decl.skip(i + 1);
    &&& i < decl.len()
    &&& tail.len() > 0
    &&& tail.last() == ';'
    &&& i >= 4
    &&& decl.take(4) == seq!['t', 'y', 'p', 'e']
}

/// Whether `decl` has the shape `type <name> = <definition>;`, with a well-formed name.
pub open spec fn declaration_ok(decl: Seq<char>) -> bool {
    &&& declaration_shape_ok(decl)
    &&& type_name_ok(trimmed(decl.take(first_pos(decl, '=')).skip(4)))
}

/// The declared name and the definition of a declaration `type <name> = <definition>;`.
pub open spec fn parse_declaration(decl: Seq<char>) -> (Seq<char>, Seq<char>) {
    let i = first_pos(decl, '=');
    let tail = decl.skip(i + 1);
    (trimmed(decl.take(i).skip(4)), trimmed(tail.drop_last()))
}

/// A type as it appears in generated code: a name and its generic arguments.
#[derive(Clone, Debug, PartialEq, Eq)]
pub struct CodegenType {
    name: String,
    generics: Vec<String>,
}

impl CodegenType {
    /// The name of the type.
    pub closed spec fn spec_name(&self) -> Seq<char> {
        self.name@
    }

    /// The generic arguments of the type.
    pub closed spec fn spec_generics(&self) -> Seq<Seq<char>> {
        string_views(self.generics@)
    }

    /// The text of the type.
    pub open spec fn spec_text(&self) -> Seq<char> {
        render_type(self.spec_name(), self.spec_generics())
    }

    /// Splits the type written `s` into its name and generic arguments.
    pub fn from_name_and_generics(s: &str) -> (r: Self)
        requires
            type_name_ok(s@),
        ensures
            (r.spec_name(), r.spec_generics()) == parse_type_name(s@),
    {
        let cs = chars_of(s);
        match find_first(&cs, '<') {
            Some(i) => {
                proof {
                    lemma_first_pos(cs@, '<', i as int);
                }
                let name = string_of_range(&cs, 0, i);
                let ghost rest = cs@.skip(i + 1);
                let j = match find_last(&cs, '>') {
                    Some(j) => j,
                    None => {
                        proof {
                            lemma_last_pos(rest, '>', -1);
                        }
                        0
                    },
                };
                proof {
                    if j <= i {
                        assert forall|t: int| 0 <= t < rest.len() implies rest[t] != '>' by {
                            assert(rest[t] == cs@[i + 1 + t]);
                        }
                        lemma_last_pos(rest, '>', -1);
                    } else {
                        assert forall|t: int| j - (i + 1) < t < rest.len() implies rest[t]
                            != '>' by {
                            assert(rest[t] == cs@[i + 1 + t]);
                        }
                        lemma_last_pos(rest, '>', j - (i + 1));
                    }
                }
                let generics = split_trimmed(&cs, i + 1, j, ',');
                let r = CodegenType { name, generics };
                proof {
                    assert(cs@.subrange(i + 1, j as int) =~= rest.take(j - (i + 1)));
                    assert(cs@.subrange(0, i as int) =~= cs@.take(i as int));
                    assert(r.spec_generics() =~= split_pieces(rest.take(last_pos(rest, '>')), ',').map_values(
                        |g: Seq<char>| trimmed(g),
                    ));
                }
                r
            },
            None => {
                proof {
                    lemma_first_pos(cs@, '<', cs@.len() as int);
                }
                let name = string_of_range(&cs, 0, cs.len());
                let r = CodegenType { name, generics: Vec::new() };
                proof {
                    assert(cs@.subrange(0, cs@.len() as int) =~= cs@);
                    assert(r.spec_generics() =~= Seq::<Seq<char>>::empty());
                }
                r
            },
        }
    }

    /// Splits a declaration `type <name> = <definition>;` into the declared type and its
    /// definition.
    pub fn from_type_with_definition(decl: &str) -> (r: (Self, String))
        requires
            declaration_ok(decl@),
        ensures
            (r.0.spec_name(), r.0.spec_generics()) == parse_type_name(parse_declaration(decl@).0),
            r.1@ == parse_declaration(decl@).1,
    {
        let (name, definition) = split_declaration(decl);
        let ty = Self::from_name_and_generics(name.as_str());
        (ty, definition)
    }

    /// The name and the generic arguments of the type.
    pub fn into_parts(self) -> (r: (String, Vec<String>))
        ensures
            r.0@ == self.spec_name(),
            string_views(r.1@) == self.spec_generics(),
    {
        (self.name, self.generics)
    }

    /// A copy of this type.
    pub fn duplicate(&self) -> (r: Self)
        ensures
            r.spec_name() == self.spec_name(),
            r.spec_generics() == self.spec_generics(),
    {
        let mut generics: Vec<String> = Vec::new();
        let mut i: usize = 0;
        while i < self.generics.len()
            invariant
                i <= self.generics@.len(),
                generics@.len() == i,
                forall|j: int| 0 <= j < i ==> (#[trigger] generics@[j])@ == self.generics@[j]@,
            decreases self.generics@.len() - i,
        {
            generics.push(self.generics[i].clone());
            i = i + 1;
        }
        let r = CodegenType { name: self.name.clone(), generics };
        proof {
            assert(r.spec_generics() =~= self.spec_generics());
        }
        r
    }

    /// The text of the type: its name, followed by its generic arguments in angle brackets
    /// (separated by `, `) when there are any.
    pub fn to_string(&self) -> (r: String)
        ensures
            r@ == self.spec_text(),
    {
        let mut r = String::new();
        push_text(&mut r, self.name.as_str());
        if self.generics.len() > 0 {
            proof {
                reveal_strlit("<");
                reveal_strlit(">");
                reveal_strlit(", ");
                assert("<"@ =~= seq!['<']);
                assert(">"@ =~= seq!['>']);
                assert(", "@ =~= seq![',', ' ']);
            }
            push_text(&mut r, "<");
            let g = join_strings(&self.generics, ", ");
            push_text(&mut r, g.as_str());
            push_text(&mut r, ">");
            proof {
                assert(r@ =~= self.spec_name() + seq!['<'] + join_with(
                    self.spec_generics(),
                    seq![',', ' '],
                ) + seq!['>']);
            }
        } else {
            proof {
                assert(r@ =~= self.spec_name());
            }
        }
        r
    }
}

/// Whether the type written `s` can be split into a name and generics (see
/// [`type_name_ok`]).
pub fn type_name_is_ok(s: &str) -> (r: bool)
    ensures
        r == type_name_ok(s@),
{
    let cs = chars_of(s);
    match find_first(&cs, '<') {
        None => {
            proof {
                lemma_first_pos(cs@, '<', cs@.len() as int);
            }
            true
        },
        Some(i) => {
            proof {
                lemma_first_pos(cs@, '<', i as int);
            }
            let rest = sub_chars(&cs, i + 1, cs.len());
            proof {
                assert(rest@ =~= cs@.skip(i + 1));
            }
            match find_last(&rest, '>') {
                Some(j) => {
                    proof {
                        lemma_last_pos(rest@, '>', j as int);
                    }
                    true
                },
                None => {
                    proof {
                        lemma_last_pos(rest@, '>', -1);
                    }
                    false
                },
            }
        },
    }
}

/// Whether `decl` has the shape `type <name> = <definition>;` with a well-formed name (see
/// [`declaration_ok`]).
pub fn declaration_is_ok(decl: &str) -> (r: bool)
    ensures
        r == declaration_ok(decl@),
{
    let cs = chars_of(decl);
    let i = match find_first(&cs, '=') {
        Some(i) => {
            proof {
                lemma_first_pos(cs@, '=', i as int);
            }
            i
        },
        None => {
            proof {
                lemma_first_pos(cs@, '=', cs@.len() as int);
            }
            return false;
        },
    };
    let n = cs.len();
    if i + 1 >= n {
        return false;
    }
    proof {
        assert(cs@.skip(i + 1).last() == cs@[n - 1]);
    }
    if cs[n - 1] != ';' {
        return false;
    }
    if i < 4 {
        return false;
    }
    if !(cs[0] == 't' && cs[1] == 'y' && cs[2] == 'p' && cs[3] == 'e') {
        proof {
            if cs@.take(4) == seq!['t', 'y', 'p', 'e'] {
                assert(cs@.take(4)[0] == cs@[0]);
                assert(cs@.take(4)[1] == cs@[1]);
                assert(cs@.take(4)[2] == cs@[2]);
                assert(cs@.take(4)[3] == cs@[3]);
            }
        }
        return false;
    }
    proof {
        assert(cs@.take(4) =~= seq!['t', 'y', 'p', 'e']);
    }
    let name_chars = sub_chars(&cs, 4, i);
    let name = trim_text_chars(&name_chars);
    proof {
        assert(name_chars@ =~= cs@.take(i as int).skip(4));
    }
    type_name_is_ok(name.as_str())
}

/// Splits a declaration `type <name> = <definition>;` into its name (with any generic
/// parameters) and its definition, both trimmed.
pub fn split_declaration(decl: &str) -> (r: (String, String))
    requires
        declaration_shape_ok(decl@),
    ensures
        (r.0@, r.1@) == parse_declaration(decl@),
{
    let cs = chars_of(decl);
    let i = match find_first(&cs, '=') {
        Some(i) => {
            proof {
                lemma_first_pos(cs@, '=', i as int);
            }
            i
        },
        None => {
            proof {
                lemma_first_pos(cs@, '=', cs@.len() as int);
            }
            0
        },
    };
    proof {
        assert(i < cs@.len());
        assert(first_pos(cs@, '=') == i);
    }
    let n = cs.len();
    let definition_chars = sub_chars(&cs, i + 1, n - 1);
    let definition = trim_text_chars(&definition_chars);
    let name_chars = sub_chars(&cs, 4, i);
    let name = trim_text_chars(&name_chars);
    proof {
        assert(definition_chars@ =~= cs@.skip(i + 1).drop_last());
        assert(name_chars@ =~= cs@.take(i as int).skip(4));
    }
    (name, definition)
}

/// The characters `cs[from..to]`.
pub fn sub_chars(cs: &Vec<char>, from: usize, to: usize) -> (r: Vec<char>)
    requires
        from <= to <= cs@.len(),
    ensures
        r@ == cs@.subrange(from as int, to as int),
{
    let mut r: Vec<char> = Vec::new();
    let mut i = from;
    while i < to
        invariant
            from <= i <= to <= cs@.len(),
            r@ == cs@.subrange(from as int, i as int),
        decreases to - i,
    {
        r.push(cs[i]);
        proof {
            assert(cs@.subrange(from as int, i + 1) =~= cs@.subrange(from as int, i as int).push(
                cs@[i as int],
            ));
        }
        i = i + 1;
    }
    r
}

} // verus!

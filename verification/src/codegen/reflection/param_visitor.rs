//! Matching the parameter types of a handler with its parameter names.
use vstd::prelude::*;

use crate::reflection::ty::{parse_type_name, type_name_ok, CodegenType};
use crate::text::{decimal, decimal_text, push_text};

verus! {

/// The name and generics of a parsed type.
pub open spec fn type_view(t: CodegenType) -> (Seq<char>, Seq<Seq<char>>) {
    (t.spec_name(), t.spec_generics())
}

/// Visits the parameter types of a handler in order, and pairs each with the next parameter
/// name.
pub enum ParamVisitor {
    /// Visitor is in a good state.
    Visiting {
        /// Parameters visited so far, with their names.
        params: Vec<(&'static str, CodegenType)>,
        /// Remaining parameter names.
        param_names: &'static [&'static str],
    },
    /// A parameter type was visited without any more parameter names. Tracks how many more
    /// parameters were expected.
    MissingNames(usize),
}

/// Error produced when the parameter names and types of a handler do not line up.
#[derive(Clone, Copy, Debug, PartialEq, Eq, Structural)]
pub enum ParamVisitorError {
    /// Tracks how many more parameter names were expected.
    MissingNames(usize),
    /// Tracks how many more parameter types were expected.
    MissingTypes(usize),
}

impl ParamVisitorError {
    /// The message of the error.
    pub open spec fn spec_message(self) -> Seq<char> {
        match self {
            ParamVisitorError::MissingNames(n) => "expected "@ + decimal(n as nat)
                + " more parameter names"@,
            ParamVisitorError::MissingTypes(n) => "expected "@ + decimal(n as nat)
                + " more parameter types"@,
        }
    }

    /// The message of the error: `expected <n> more parameter names` (or `types`).
    pub fn to_string(&self) -> (r: String)
        ensures
            r@ == self.spec_message(),
    {
        let mut r = String::new();
        push_text(&mut r, "expected ");
        match self {
            ParamVisitorError::MissingNames(n) => {
                let d = decimal_text(*n);
                push_text(&mut r, d.as_str());
                push_text(&mut r, " more parameter names");
            },
            ParamVisitorError::MissingTypes(n) => {
                let d = decimal_text(*n);
                push_text(&mut r, d.as_str());
                push_text(&mut r, " more parameter types");
            },
        }
        r
    }
}

impl ParamVisitor {
    /// A visitor that pairs types with `param_names`, in order.
    pub fn new(param_names: &'static [&'static str]) -> (r: Self)
        ensures
            r matches ParamVisitor::Visiting { params, param_names: n } && params@.len() == 0 && n
                == param_names,
    {
        ParamVisitor::Visiting { params: Vec::new(), param_names }
    }

    /// Visits the next parameter type, written `ty_name`: it is paired with the next
    /// parameter name, or counted as missing a name when none is left.
    pub fn visit_type(&mut self, ty_name: &str)
        requires
            match *old(self) {
                ParamVisitor::Visiting { params, param_names } => param_names@.len() > 0 ==> type_name_ok(
                    ty_name@,
                ),
                ParamVisitor::MissingNames(m) => m < usize::MAX,
            },
        ensures
            match *old(self) {
                ParamVisitor::Visiting { params, param_names } => if param_names@.len() == 0 {
                    *final(self) == ParamVisitor::MissingNames(1)
                } else {
                    *final(self) matches ParamVisitor::Visiting { params: p, param_names: n } && n@
                        == param_names@.drop_first() && p@.len() == params@.len() + 1
                        && p@.drop_last() == params@ && p@.last().0 == param_names@[0]
                        && type_view(p@.last().1) == parse_type_name(ty_name@)
                },
                ParamVisitor::MissingNames(m) => *final(self) == ParamVisitor::MissingNames(
                    (m + 1) as usize,
                ),
            },
    {
        let mut cur = ParamVisitor::MissingNames(0);
        std::mem::swap(&mut cur, self);
        let next = match cur {
            ParamVisitor::Visiting { mut params, param_names } => {
                if param_names.len() == 0 {
                    ParamVisitor::MissingNames(1)
                } else {
                    let param_name = param_names[0];
                    let rest = vstd::slice::slice_subrange(param_names, 1, param_names.len());
                    let ty = CodegenType::from_name_and_generics(ty_name);
                    let ghost before = params@;
                    params.push((param_name, ty));
                    proof {
                        assert(params@.drop_last() =~= before);
                        assert(rest@ =~= param_names@.drop_first());
                    }
                    ParamVisitor::Visiting { params, param_names: rest }
                }
            },
            ParamVisitor::MissingNames(missing) => ParamVisitor::MissingNames(missing + 1),
        };
        *self = next;
    }

    /// Pairs the parameter types of a handler, written `type_names` in order, with
    /// `param_names`. When there are more types than names, the error counts the missing names;
    /// when there are more names than types, it counts the missing types.
    pub fn visit(param_names: &'static [&'static str], type_names: &Vec<String>) -> (r: Result<
        Vec<(&'static str, CodegenType)>,
        ParamVisitorError,
    >)
        requires
            forall|i: int|
                0 <= i < type_names@.len() && i < param_names@.len() ==> type_name_ok(
                    #[trigger] type_names@[i]@,
                ),
        ensures
            param_names@.len() == type_names@.len() ==> (r matches Ok(p) && p@.len()
                == param_names@.len() && forall|i: int|
                0 <= i < p@.len() ==> (#[trigger] p@[i]).0 == param_names@[i] && type_view(p@[i].1)
                    == parse_type_name(type_names@[i]@)),
            param_names@.len() > type_names@.len() ==> r == Err::<
                Vec<(&'static str, CodegenType)>,
                ParamVisitorError,
            >(ParamVisitorError::MissingTypes((param_names@.len() - type_names@.len()) as usize)),
            param_names@.len() < type_names@.len() ==> r == Err::<
                Vec<(&'static str, CodegenType)>,
                ParamVisitorError,
            >(ParamVisitorError::MissingNames((type_names@.len() - param_names@.len()) as usize)),
    {
        let mut visitor = ParamVisitor::new(param_names);
        let mut i: usize = 0;
        while i < type_names.len()
            invariant
                i <= type_names@.len(),
                forall|j: int|
                    0 <= j < type_names@.len() && j < param_names@.len() ==> type_name_ok(
                        #[trigger] type_names@[j]@,
                    ),
                i <= param_names@.len() ==> (visitor matches ParamVisitor::Visiting {
                    params,
                    param_names: n,
                } && n@ == param_names@.skip(i as int) && params@.len() == i && forall|j: int|
                    0 <= j < i ==> (#[trigger] params@[j]).0 == param_names@[j] && type_view(
                        params@[j].1,
                    ) == parse_type_name(type_names@[j]@)),
                i > param_names@.len() ==> visitor == ParamVisitor::MissingNames(
                    (i - param_names@.len()) as usize,
                ),
            decreases type_names@.len() - i,
        {
            proof {
                if i < param_names@.len() {
                    assert(type_name_ok(type_names@[i as int]@));
                }
            }
            let ghost old_v = visitor;
            visitor.visit_type(type_names[i].as_str());
            let ghost new_v = visitor;
            proof {
                if i < param_names@.len() {
                    if let ParamVisitor::Visiting { params, param_names: n } = new_v {
                        if let ParamVisitor::Visiting { params: p0, param_names: n0 } = old_v {
                            assert(n@ =~= param_names@.skip(i + 1));
                            assert forall|j: int| 0 <= j < i + 1 implies (#[trigger] params@[j]).0
                                == param_names@[j] && type_view(params@[j].1) == parse_type_name(
                                type_names@[j]@,
                            ) by {
                                if j < i {
                                    assert(params@[j] == p0@[j]);
                                } else {
                                    assert(n0@[0] == param_names@[j]);
                                }
                            }
                        }
                    }
                }
            }
            i = i + 1;
        }
        match visitor {
            ParamVisitor::Visiting { params, param_names: rest } => {
                if rest.len() == 0 {
                    Ok(params)
                } else {
                    Err(ParamVisitorError::MissingTypes(rest.len()))
                }
            },
            ParamVisitor::MissingNames(missed) => Err(ParamVisitorError::MissingNames(missed)),
        }
    }
}

} // verus!

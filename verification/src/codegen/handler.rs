//! Building a handler description parameter by parameter.
use vstd::prelude::*;

use crate::codegen::reflection::param_visitor::ParamVisitorError;
use crate::reflection::handler::HandlerKind;

verus! {

/// Builds the description of a handler: parameters are pushed one at a time, then the return
/// type completes it.
pub trait HandlerBuilder: Sized {
    /// The completed description.
    type Output;
    /// How the type of a parameter is given to the builder.
    type Param;

    /// The parameters pushed so far, in order, each with its name and type.
    spec fn spec_params(&self) -> Seq<(&'static str, Self::Param)>;

    /// A builder for the handler `name` of the given kind, without parameters.
    fn new(name: &'static str, kind: HandlerKind) -> (r: Self)
        ensures
            r.spec_params() == Seq::<(&'static str, Self::Param)>::empty(),
    ;

    /// Adds a parameter.
    fn push_param(&mut self, param_name: &'static str, ty: Self::Param)
        ensures
            final(self).spec_params() == old(self).spec_params().push((param_name, ty)),
    ;

    /// Completes the description with the return type.
    fn returning(self, ty: Self::Param) -> Self::Output;
}

/// A builder that records each parameter with what is given for its type (such as its
/// TypeScript name), and completes with what is given for the return type.
#[derive(Clone, Debug, PartialEq)]
pub struct TsHandlerBuilder<P> {
    /// Name of the handler.
    pub name: &'static str,
    /// Kind of the handler.
    pub kind: HandlerKind,
    /// The parameters pushed so far, in order.
    pub params: Vec<(&'static str, P)>,
}

/// A handler described by a [`TsHandlerBuilder`].
#[derive(Clone, Debug, PartialEq)]
pub struct BuiltHandler<P> {
    /// Name of the handler.
    pub name: &'static str,
    /// Kind of the handler.
    pub kind: HandlerKind,
    /// The parameters, in order.
    pub params: Vec<(&'static str, P)>,
    /// The return type.
    pub return_ty: P,
}

impl<P> HandlerBuilder for TsHandlerBuilder<P> {
    type Output = BuiltHandler<P>;

    type Param = P;

    open spec fn spec_params(&self) -> Seq<(&'static str, P)> {
        self.params@
    }

    fn new(name: &'static str, kind: HandlerKind) -> (r: Self)
        ensures
            r.name == name,
            r.kind == kind,
    {
        TsHandlerBuilder { name, kind, params: Vec::new() }
    }

    fn push_param(&mut self, param_name: &'static str, ty: P) {
        self.params.push((param_name, ty));
    }

    fn returning(self, ty: P) -> (r: BuiltHandler<P>)
        ensures
            r.name == self.name,
            r.kind == self.kind,
            r.params@ == self.params@,
            r.return_ty == ty,
    {
        BuiltHandler { name: self.name, kind: self.kind, params: self.params, return_ty: ty }
    }
}

/// Each name of `names` paired with the type at the same position of `tys`, for the first
/// `tys.len()` names.
pub open spec fn paired<P>(names: Seq<&'static str>, tys: Seq<P>) -> Seq<(&'static str, P)> {
    Seq::new(tys.len(), |k: int| (names[k], tys[k]))
}

/// Visits the parameter types of a handler, and pushes each with the next parameter name to
/// the handler being built.
pub enum ParamVisitor<B> {
    /// Visitor is in a good state.
    Visiting {
        /// Handler to register parameters against.
        handler: B,
        /// Remaining parameter names.
        param_names: &'static [&'static str],
    },
    /// A parameter type was visited without any more parameter names. Tracks how many more
    /// parameters were expected.
    MissingNames(usize),
}

impl<B: HandlerBuilder> ParamVisitor<B> {
    /// Visits the next parameter type: it is pushed with the next parameter name, or counted as
    /// missing a name when none is left.
    pub fn visit_type(&mut self, ty: B::Param)
        requires
            *old(self) matches ParamVisitor::MissingNames(m) ==> m < usize::MAX,
        ensures
            match *old(self) {
                ParamVisitor::Visiting { handler, param_names } => if param_names@.len() == 0 {
                    *final(self) == ParamVisitor::<B>::MissingNames(1)
                } else {
                    *final(self) matches ParamVisitor::Visiting { handler: h, param_names: n }
                        && n@ == param_names@.drop_first() && h.spec_params()
                        == handler.spec_params().push((param_names@[0], ty))
                },
                ParamVisitor::MissingNames(m) => *final(self) == ParamVisitor::<B>::MissingNames(
                    (m + 1) as usize,
                ),
            },
    {
        let mut cur = ParamVisitor::MissingNames(0);
        std::mem::swap(&mut cur, self);
        let next = match cur {
            ParamVisitor::Visiting { mut handler, param_names } => {
                if param_names.len() == 0 {
                    ParamVisitor::MissingNames(1)
                } else {
                    let param_name = param_names[0];
                    let rest = vstd::slice::slice_subrange(param_names, 1, param_names.len());
                    handler.push_param(param_name, ty);
                    proof {
                        assert(rest@ =~= param_names@.drop_first());
                    }
                    ParamVisitor::Visiting { handler, param_names: rest }
                }
            },
            ParamVisitor::MissingNames(missing) => ParamVisitor::MissingNames(missing + 1),
        };
        *self = next;
    }

    /// Pushes the parameter types of a handler, `tys` in order, to `handler`, each with the
    /// parameter name at the same position in `param_names`. When there are more types than
    /// names, the error counts the missing names; when there are more names than types, it
    /// counts the missing types.
    pub fn visit(handler: B, param_names: &'static [&'static str], tys: Vec<B::Param>) -> (r:
        Result<B, ParamVisitorError>)
        ensures
            param_names@.len() == tys@.len() ==> r is Ok,
            r matches Ok(h) ==> h.spec_params() == handler.spec_params() + paired(
                param_names@,
                tys@,
            ),
            param_names@.len() > tys@.len() ==> (r matches Err(e) && e
                == ParamVisitorError::MissingTypes((param_names@.len() - tys@.len()) as usize)),
            param_names@.len() < tys@.len() ==> (r matches Err(e) && e
                == ParamVisitorError::MissingNames((tys@.len() - param_names@.len()) as usize)),
    {
        let ghost all = tys@;
        let ghost start = handler.spec_params();
        let n = tys.len();
        let mut visitor = ParamVisitor::Visiting { handler, param_names };
        let mut rest = tys;
        let mut i: usize = 0;
        while rest.len() > 0
            invariant
                i + rest@.len() == all.len(),
                all.len() == n,
                rest@ == all.skip(i as int),
                i <= param_names@.len() ==> (visitor matches ParamVisitor::Visiting {
                    handler: h,
                    param_names: left,
                } && left@ == param_names@.skip(i as int) && h.spec_params() == start + paired(
                    param_names@,
                    all.take(i as int),
                )),
                i > param_names@.len() ==> visitor == ParamVisitor::<B>::MissingNames(
                    (i - param_names@.len()) as usize,
                ),
            decreases rest@.len(),
        {
            let ty = rest.remove(0);
            visitor.visit_type(ty);
            let ghost new_v = visitor;
            proof {
                assert(rest@ =~= all.skip(i + 1));
                if i < param_names@.len() {
                    if let ParamVisitor::Visiting { handler: h, param_names: left } = new_v {
                        assert(left@ =~= param_names@.skip(i + 1));
                        assert(all.take(i as int).push(all[i as int]) =~= all.take(i + 1));
                        assert(paired(param_names@, all.take(i as int)).push(
                            (param_names@[i as int], all[i as int]),
                        ) =~= paired(param_names@, all.take(i + 1)));
                        assert(h.spec_params() =~= start + paired(param_names@, all.take(i + 1)));
                    }
                }
            }
            i = i + 1;
        }
        match visitor {
            ParamVisitor::Visiting { handler, param_names: left } => {
                if left.len() == 0 {
                    proof {
                        assert(all.take(i as int) =~= all);
                    }
                    Ok(handler)
                } else {
                    Err(ParamVisitorError::MissingTypes(left.len()))
                }
            },
            ParamVisitor::MissingNames(missed) => Err(ParamVisitorError::MissingNames(missed)),
        }
    }
}

} // verus!

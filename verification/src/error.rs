//! Unification errors.  Errors are data: the solver accumulates them so a
//! single inference run can surface many.

use vstd::prelude::*;
use crate::ty::TypeId;

verus! {

#[derive(Debug)]
pub enum UnifyError {
    /// Two concrete, incompatible shapes met during unification.
    CannotUnify(TypeId, TypeId),
    /// An attempt to solve a unification variable to a polymorphic type.
    ImpredicativeType(usize, TypeId),
    /// Occurs check failure: the variable occurs in its own solution.
    InfiniteType(usize, TypeId),
    /// `Function` or `Application` nodes of different arity met.
    InvalidArity(TypeId, usize, TypeId, usize),
}

/// An inference error: an environment lookup failed.  Such an error aborts
/// the current `infer` walk but not the run.
#[derive(Debug)]
pub enum InferError {
    /// No constructor or value of this name is bound in the environment.
    UnboundName(String),
}

impl InferError {
    /// The name the lookup failed on.
    pub open spec fn view(self) -> Seq<char> {
        match self {
            InferError::UnboundName(name) => name@,
        }
    }
}

/// Model of a [`UnifyError`].
pub ghost enum UnifyErrorM {
    CannotUnify(nat, nat),
    ImpredicativeType(nat, nat),
    InfiniteType(nat, nat),
    InvalidArity(nat, nat, nat, nat),
}

impl UnifyError {
    pub open spec fn view(self) -> UnifyErrorM {
        match self {
            UnifyError::CannotUnify(t, u) => UnifyErrorM::CannotUnify(t@, u@),
            UnifyError::ImpredicativeType(v, t) => UnifyErrorM::ImpredicativeType(v as nat, t@),
            UnifyError::InfiniteType(v, t) => UnifyErrorM::InfiniteType(v as nat, t@),
            UnifyError::InvalidArity(t, n, u, m) => UnifyErrorM::InvalidArity(
                t@,
                n as nat,
                u@,
                m as nat,
            ),
        }
    }
}

} // verus!

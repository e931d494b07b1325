//! The constraint language the solver consumes.  Producers (inferencer,
//! instantiator, unifier, entailer) push constraints; the solver loop drains
//! them.

use vstd::prelude::*;
use crate::error::{UnifyError, UnifyErrorM};
use crate::ty::{AssertM, Assertion, TypeId};

verus! {

#[derive(Debug)]
pub enum Constraint {
    /// A class obligation, keyed by a fresh marker.
    ClassEntail(usize, Assertion),
    /// Two unification variables must agree.
    UnifyDeep(usize, usize),
    /// A unification variable is solved to a type.
    UnifySolve(usize, TypeId),
    /// A unification failure, surfaced as data.
    UnifyError(UnifyError),
}

/// Model of a [`Constraint`].
pub ghost enum ConstraintM {
    ClassEntail(nat, AssertM),
    UnifyDeep(nat, nat),
    UnifySolve(nat, nat),
    UnifyError(UnifyErrorM),
}

impl Constraint {
    pub open spec fn view(self) -> ConstraintM {
        match self {
            Constraint::ClassEntail(marker, assertion) => ConstraintM::ClassEntail(
                marker as nat,
                assertion@,
            ),
            Constraint::UnifyDeep(p, q) => ConstraintM::UnifyDeep(p as nat, q as nat),
            Constraint::UnifySolve(v, t) => ConstraintM::UnifySolve(v as nat, t@),
            Constraint::UnifyError(e) => ConstraintM::UnifyError(e@),
        }
    }
}

/// The model of a sequence of constraints.
pub open spec fn constraints_m(cs: Seq<Constraint>) -> Seq<ConstraintM> {
    cs.map_values(|c: Constraint| c@)
}

} // verus!

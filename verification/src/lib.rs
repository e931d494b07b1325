//! Constraint-based type inference core for a small higher-rank, qualified
//! functional language.
//!
//! Expressions and types live in append-only arenas and are referred to by
//! copyable handles.  The inferencer walks expressions and emits constraints;
//! the unifier compares type handles structurally and emits solved-variable
//! facts or errors; the instantiator opens `forall`-types into fresh
//! unification variables and schedules class obligations; the entailer matches
//! class assertions against instance declarations; and the solver loop drains
//! the constraint queue until no further progress is possible.

pub mod arena;
pub mod ty;
pub mod expr;
pub mod error;
pub mod constraint;
pub mod names;
pub mod queue;
pub mod context;
pub mod unify;
pub mod instantiate;
pub mod infer;
pub mod entail;
pub mod solve;
pub mod pretty;

//! Structural unification.
//!
//! `unify` compares two type handles one level at a time and pushes what it
//! learns onto the constraint queue: `UnifySolve` when a unification
//! variable meets a concrete type, `UnifyDeep` when two unification
//! variables meet, and `UnifyError` when the shapes cannot agree.  It never
//! writes to the arena and never throws: errors are queued as data.
//!
//! The spec function [`unify_effects`] gives the exact sequence of
//! constraints a call emits; the occurs check has the spec [`occurs`].

use vstd::prelude::*;
use crate::constraint::{Constraint, ConstraintM};
use crate::context::Context;
use crate::error::{UnifyError, UnifyErrorM};
use crate::ty::{clone_ids, ids_below, ids_m, ty_m_wf, types_wf, AssertM, Type, TypeId, TypeM};

verus! {

// ---------------------------------------------------------------------------
// The occurs check, mathematically.
// ---------------------------------------------------------------------------

/// Does unification variable `v` occur in the type at position `t`?
/// Under `Forall` and `Constrained` the recursion descends into the inner
/// type and all assertion arguments.
pub open spec fn occurs(ts: Seq<TypeM>, t: nat, v: nat) -> bool
    decreases t, 2int, 0int,
{
    if t < ts.len() {
        match ts[t as int] {
            TypeM::Constructor { .. } => false,
            TypeM::Variable { .. } => false,
            TypeM::Unification { name } => name == v,
            TypeM::Function { arguments, result } => occurs_any(ts, arguments, t, v) || (if result
                < t {
                occurs(ts, result, v)
            } else {
                false
            }),
            TypeM::Application { function, arguments } => (if function < t {
                occurs(ts, function, v)
            } else {
                false
            }) || occurs_any(ts, arguments, t, v),
            TypeM::Forall { ty, .. } => if ty < t {
                occurs(ts, ty, v)
            } else {
                false
            },
            TypeM::Constrained { assertions, ty } => occurs_asserts(ts, assertions, t, v) || (
            if ty < t {
                occurs(ts, ty, v)
            } else {
                false
            }),
        }
    } else {
        false
    }
}

/// Does `v` occur in any of the listed positions (all below `bound`)?
pub open spec fn occurs_any(ts: Seq<TypeM>, args: Seq<nat>, bound: nat, v: nat) -> bool
    decreases bound, 0int, args.len(),
{
    if args.len() == 0 {
        false
    } else {
        (if args[0] < bound {
            occurs(ts, args[0], v)
        } else {
            false
        }) || occurs_any(ts, args.drop_first(), bound, v)
    }
}

/// Does `v` occur in any argument of any of the listed assertions?
pub open spec fn occurs_asserts(ts: Seq<TypeM>, asserts: Seq<AssertM>, bound: nat, v: nat) -> bool
    decreases bound, 1int, asserts.len(),
{
    if asserts.len() == 0 {
        false
    } else {
        occurs_any(ts, asserts[0].args, bound, v) || occurs_asserts(
            ts,
            asserts.drop_first(),
            bound,
            v,
        )
    }
}

// ---------------------------------------------------------------------------
// The constraints a unification call emits, mathematically.
// ---------------------------------------------------------------------------

/// What meeting unification variable `v` with the non-variable type at `t`
/// emits: the predicativity check, then the occurs check, then the solved
/// fact.
pub open spec fn solve_effects(ts: Seq<TypeM>, v: nat, t: nat) -> Seq<ConstraintM> {
    if ts[t as int] is Forall {
        seq![ConstraintM::UnifyError(UnifyErrorM::ImpredicativeType(v, t))]
    } else if occurs(ts, t, v) {
        seq![ConstraintM::UnifyError(UnifyErrorM::InfiniteType(v, t))]
    } else {
        seq![ConstraintM::UnifySolve(v, t)]
    }
}

/// The constraints `unify(t, u)` emits, in order.
pub open spec fn unify_effects(ts: Seq<TypeM>, t: nat, u: nat) -> Seq<ConstraintM>
    decreases t, 2int, 0int,
{
    if t < ts.len() && u < ts.len() {
        match (ts[t as int], ts[u as int]) {
            (TypeM::Constructor { name: tn }, TypeM::Constructor { name: un }) => {
                if tn == un {
                    Seq::<ConstraintM>::empty()
                } else {
                    seq![ConstraintM::UnifyError(UnifyErrorM::CannotUnify(t, u))]
                }
            },
            (
                TypeM::Variable { name: tn, rank: tr },
                TypeM::Variable { name: un, rank: ur },
            ) => {
                if tn == un && tr == ur {
                    Seq::<ConstraintM>::empty()
                } else {
                    seq![ConstraintM::UnifyError(UnifyErrorM::CannotUnify(t, u))]
                }
            },
            (TypeM::Unification { name: tn }, TypeM::Unification { name: un }) => {
                if tn != un {
                    seq![ConstraintM::UnifyDeep(tn, un)]
                } else {
                    Seq::<ConstraintM>::empty()
                }
            },
            (_, TypeM::Unification { name: un }) => solve_effects(ts, un, t),
            (TypeM::Unification { name: tn }, _) => solve_effects(ts, tn, u),
            (
                TypeM::Function { arguments: ta, result: tr },
                TypeM::Function { arguments: ua, result: ur },
            ) => {
                if ta.len() != ua.len() {
                    seq![ConstraintM::UnifyError(
                        UnifyErrorM::InvalidArity(t, ta.len(), u, ua.len()),
                    )]
                } else {
                    unify_args_effects(ts, ta, ua, t) + (if tr < t {
                        unify_effects(ts, tr, ur)
                    } else {
                        Seq::<ConstraintM>::empty()
                    })
                }
            },
            (
                TypeM::Application { function: tf, arguments: ta },
                TypeM::Application { function: uf, arguments: ua },
            ) => {
                (if tf < t {
                    unify_effects(ts, tf, uf)
                } else {
                    Seq::<ConstraintM>::empty()
                }) + unify_args_effects(ts, ta, ua, t)
            },
            _ => seq![ConstraintM::UnifyError(UnifyErrorM::CannotUnify(t, u))],
        }
    } else {
        Seq::<ConstraintM>::empty()
    }
}

/// The constraints emitted by unifying two argument lists pairwise, in
/// order; a surplus on either side is ignored, as pairing stops with the
/// shorter list.
pub open spec fn unify_args_effects(ts: Seq<TypeM>, tas: Seq<nat>, uas: Seq<nat>, bound: nat) -> Seq<
    ConstraintM,
>
    decreases bound, 1int, tas.len(),
{
    if tas.len() == 0 || uas.len() == 0 {
        Seq::<ConstraintM>::empty()
    } else {
        (if tas[0] < bound {
            unify_effects(ts, tas[0], uas[0])
        } else {
            Seq::<ConstraintM>::empty()
        }) + unify_args_effects(ts, tas.drop_first(), uas.drop_first(), bound)
    }
}

// ---------------------------------------------------------------------------
// What the emitted constraints satisfy: no obligation is ever emitted, every
// solved fact points into the arena, passes the occurs check, and is
// monomorphic.
// ---------------------------------------------------------------------------

/// The facts that hold of each constraint unification emits.
pub open spec fn unify_emission_ok(ts: Seq<TypeM>, c: ConstraintM) -> bool {
    match c {
        ConstraintM::UnifySolve(v, s) => s < ts.len() && !occurs(ts, s, v) && !(ts[s as int]
            is Forall),
        ConstraintM::ClassEntail(..) => false,
        ConstraintM::UnifyDeep(..) => true,
        ConstraintM::UnifyError(..) => true,
    }
}

pub proof fn lemma_unify_emissions(ts: Seq<TypeM>, t: nat, u: nat)
    ensures
        forall|i: int|
            0 <= i < unify_effects(ts, t, u).len() ==> unify_emission_ok(
                ts,
                #[trigger] unify_effects(ts, t, u)[i],
            ),
    decreases t, 2int, 0int,
{
    if t < ts.len() && u < ts.len() {
        match (ts[t as int], ts[u as int]) {
            (TypeM::Constructor { .. }, TypeM::Constructor { .. }) => {},
            (TypeM::Variable { .. }, TypeM::Variable { .. }) => {},
            (TypeM::Unification { .. }, TypeM::Unification { .. }) => {},
            (_, TypeM::Unification { .. }) => {},
            (TypeM::Unification { .. }, _) => {},
            (
                TypeM::Function { arguments: ta, result: tr },
                TypeM::Function { arguments: ua, result: ur },
            ) => {
                if ta.len() == ua.len() {
                    lemma_unify_emissions_args(ts, ta, ua, t);
                    if tr < t {
                        lemma_unify_emissions(ts, tr, ur);
                    }
                    let e1 = unify_args_effects(ts, ta, ua, t);
                    let e2 = if tr < t {
                        unify_effects(ts, tr, ur)
                    } else {
                        Seq::<ConstraintM>::empty()
                    };
                    assert forall|i: int|
                        0 <= i < unify_effects(ts, t, u).len() implies unify_emission_ok(
                        ts,
                        #[trigger] unify_effects(ts, t, u)[i],
                    ) by {
                        let e = unify_effects(ts, t, u);
                        assert(e == e1 + e2);
                        if i < e1.len() {
                            assert(e[i] == e1[i]);
                        } else {
                            assert(e[i] == e2[i - e1.len()]);
                        }
                    }
                }
            },
            (
                TypeM::Application { function: tf, arguments: ta },
                TypeM::Application { function: uf, arguments: ua },
            ) => {
                if tf < t {
                    lemma_unify_emissions(ts, tf, uf);
                }
                lemma_unify_emissions_args(ts, ta, ua, t);
                let e1 = if tf < t {
                    unify_effects(ts, tf, uf)
                } else {
                    Seq::<ConstraintM>::empty()
                };
                let e2 = unify_args_effects(ts, ta, ua, t);
                assert forall|i: int|
                    0 <= i < unify_effects(ts, t, u).len() implies unify_emission_ok(
                    ts,
                    #[trigger] unify_effects(ts, t, u)[i],
                ) by {
                    let e = unify_effects(ts, t, u);
                    assert(e == e1 + e2);
                    if i < e1.len() {
                        assert(e[i] == e1[i]);
                    } else {
                        assert(e[i] == e2[i - e1.len()]);
                    }
                }
            },
            _ => {},
        }
    }
}

pub proof fn lemma_unify_emissions_args(ts: Seq<TypeM>, tas: Seq<nat>, uas: Seq<nat>, bound: nat)
    ensures
        forall|i: int|
            0 <= i < unify_args_effects(ts, tas, uas, bound).len() ==> unify_emission_ok(
                ts,
                #[trigger] unify_args_effects(ts, tas, uas, bound)[i],
            ),
    decreases bound, 1int, tas.len(),
{
    if tas.len() == 0 || uas.len() == 0 {
    } else {
        if tas[0] < bound {
            lemma_unify_emissions(ts, tas[0], uas[0]);
        }
        lemma_unify_emissions_args(ts, tas.drop_first(), uas.drop_first(), bound);
        let e1 = if tas[0] < bound {
            unify_effects(ts, tas[0], uas[0])
        } else {
            Seq::<ConstraintM>::empty()
        };
        let e2 = unify_args_effects(ts, tas.drop_first(), uas.drop_first(), bound);
        assert forall|i: int|
            0 <= i < unify_args_effects(ts, tas, uas, bound).len() implies unify_emission_ok(
            ts,
            #[trigger] unify_args_effects(ts, tas, uas, bound)[i],
        ) by {
            let e = unify_args_effects(ts, tas, uas, bound);
            assert(e == e1 + e2);
            if i < e1.len() {
                assert(e[i] == e1[i]);
            } else {
                assert(e[i] == e2[i - e1.len()]);
            }
        }
    }
}

/// Occurs soundness: when unification records `UnifySolve(v, s)`, the
/// variable `v` does not occur in the solution `s`.
pub proof fn lemma_unify_occurs_sound(ts: Seq<TypeM>, t: nat, u: nat, i: int)
    requires
        0 <= i < unify_effects(ts, t, u).len(),
    ensures
        unify_effects(ts, t, u)[i] matches ConstraintM::UnifySolve(v, s) ==> !occurs(ts, s, v),
{
    lemma_unify_emissions(ts, t, u);
}

/// Predicativity: no `UnifySolve(_, s)` is ever produced with a polymorphic
/// solution `s`.
pub proof fn lemma_unify_predicative(ts: Seq<TypeM>, t: nat, u: nat, i: int)
    requires
        0 <= i < unify_effects(ts, t, u).len(),
    ensures
        unify_effects(ts, t, u)[i] matches ConstraintM::UnifySolve(v, s) ==> s < ts.len() && !(
        ts[s as int] is Forall),
{
    lemma_unify_emissions(ts, t, u);
}

// ---------------------------------------------------------------------------
// Executable code.
// ---------------------------------------------------------------------------

impl Context {
    /// Structural unification of two type handles, one level at a time.
    /// Solved facts, deeper goals, and failures are pushed onto the
    /// constraint queue, exactly the sequence [`unify_effects`] gives.
    /// The arena, the environment, and the fresh counter are untouched.
    pub fn unify(&mut self, t_idx: TypeId, u_idx: TypeId)
        requires
            old(self).wf(),
            t_idx@ < old(self).types().len(),
            u_idx@ < old(self).types().len(),
        ensures
            final(self).wf(),
            final(self).types() == old(self).types(),
            final(self).exprs() == old(self).exprs(),
            final(self).environment == old(self).environment,
            final(self).fresh == old(self).fresh,
            final(self).queue() == old(self).queue() + unify_effects(
                old(self).types(),
                t_idx@,
                u_idx@,
            ),
        decreases t_idx@, 1nat,
    {
        let ghost ts = self.types();
        let ghost q0 = self.queue();
        let ghost eff = unify_effects(ts, t_idx@, u_idx@);
        proof {
            assert(ts[t_idx@ as int] == self.volatile.type_arena@[t_idx@ as int]@);
            assert(ts[u_idx@ as int] == self.volatile.type_arena@[u_idx@ as int]@);
            assert(ty_m_wf(ts[t_idx@ as int], t_idx@ as int));
            assert(ty_m_wf(ts[u_idx@ as int], u_idx@ as int));
        }
        match (self.volatile.type_arena.get(t_idx), self.volatile.type_arena.get(u_idx)) {
            (Type::Constructor { name: t_name }, Type::Constructor { name: u_name }) => {
                if *t_name == *u_name {
                    proof {
                        assert(q0 + eff =~= q0);
                    }
                } else {
                    self.push_constraint(
                        Constraint::UnifyError(UnifyError::CannotUnify(t_idx, u_idx)),
                    );
                    proof {
                        assert(q0 + eff =~= self.queue());
                    }
                }
            },
            (
                Type::Variable { name: t_name, rank: t_rank },
                Type::Variable { name: u_name, rank: u_rank },
            ) => {
                if *t_name == *u_name && *t_rank == *u_rank {
                    proof {
                        assert(q0 + eff =~= q0);
                    }
                } else {
                    self.push_constraint(
                        Constraint::UnifyError(UnifyError::CannotUnify(t_idx, u_idx)),
                    );
                    proof {
                        assert(q0 + eff =~= self.queue());
                    }
                }
            },
            (Type::Unification { name: t_name }, Type::Unification { name: u_name }) => {
                let tn = *t_name;
                let un = *u_name;
                if tn != un {
                    self.push_constraint(Constraint::UnifyDeep(tn, un));
                    proof {
                        assert(q0 + eff =~= self.queue());
                    }
                } else {
                    proof {
                        assert(q0 + eff =~= q0);
                    }
                }
            },
            (t_ty, Type::Unification { name: u_name }) => {
                let un = *u_name;
                if t_ty.is_polymorphic() {
                    self.push_constraint(
                        Constraint::UnifyError(UnifyError::ImpredicativeType(un, t_idx)),
                    );
                } else if self.occurs_check(t_idx, un) {
                    self.push_constraint(
                        Constraint::UnifyError(UnifyError::InfiniteType(un, t_idx)),
                    );
                } else {
                    self.push_constraint(Constraint::UnifySolve(un, t_idx));
                }
                proof {
                    assert(eff == solve_effects(ts, un as nat, t_idx@));
                    assert(q0 + eff =~= self.queue());
                }
            },
            (Type::Unification { name: t_name }, _) => {
                let tn = *t_name;
                let u_poly = self.volatile.type_arena.get(u_idx).is_polymorphic();
                if u_poly {
                    self.push_constraint(
                        Constraint::UnifyError(UnifyError::ImpredicativeType(tn, u_idx)),
                    );
                } else if self.occurs_check(u_idx, tn) {
                    self.push_constraint(
                        Constraint::UnifyError(UnifyError::InfiniteType(tn, u_idx)),
                    );
                } else {
                    self.push_constraint(Constraint::UnifySolve(tn, u_idx));
                }
                proof {
                    assert(eff == solve_effects(ts, tn as nat, u_idx@));
                    assert(q0 + eff =~= self.queue());
                }
            },
            (
                Type::Function { arguments: t_arguments, result: t_result },
                Type::Function { arguments: u_arguments, result: u_result },
            ) => {
                if t_arguments.len() != u_arguments.len() {
                    let tl = t_arguments.len();
                    let ul = u_arguments.len();
                    self.push_constraint(
                        Constraint::UnifyError(UnifyError::InvalidArity(t_idx, tl, u_idx, ul)),
                    );
                    proof {
                        assert(q0 + eff =~= self.queue());
                    }
                } else {
                    let t_result = *t_result;
                    let u_result = *u_result;
                    let t_arguments = clone_ids(t_arguments);
                    let u_arguments = clone_ids(u_arguments);
                    let ghost tam = ids_m(t_arguments@);
                    let ghost uam = ids_m(u_arguments@);
                    self.unify_arg_lists(&t_arguments, &u_arguments, Ghost(t_idx@));
                    let ghost e1 = unify_args_effects(ts, tam, uam, t_idx@);
                    let ghost q1 = self.queue();
                    self.unify(t_result, u_result);
                    proof {
                        let e2 = unify_effects(ts, t_result@, u_result@);
                        assert(eff == e1 + e2);
                        assert(q0 + eff =~= self.queue());
                    }
                }
            },
            (
                Type::Application { function: t_function, arguments: t_arguments },
                Type::Application { function: u_function, arguments: u_arguments },
            ) => {
                let t_function = *t_function;
                let u_function = *u_function;
                let t_arguments = clone_ids(t_arguments);
                let u_arguments = clone_ids(u_arguments);
                let ghost tam = ids_m(t_arguments@);
                let ghost uam = ids_m(u_arguments@);
                self.unify(t_function, u_function);
                let ghost e1 = unify_effects(ts, t_function@, u_function@);
                self.unify_arg_lists(&t_arguments, &u_arguments, Ghost(t_idx@));
                proof {
                    let e2 = unify_args_effects(ts, tam, uam, t_idx@);
                    assert(eff == e1 + e2);
                    assert(q0 + eff =~= self.queue());
                }
            },
            (_, _) => {
                self.push_constraint(Constraint::UnifyError(UnifyError::CannotUnify(t_idx, u_idx)));
                proof {
                    assert(q0 + eff =~= self.queue());
                }
            },
        }
    }

    /// Unifies two argument lists pairwise, in order, stopping with the
    /// shorter list.
    fn unify_arg_lists(
        &mut self,
        t_args: &Vec<TypeId>,
        u_args: &Vec<TypeId>,
        bound: Ghost<nat>,
    )
        requires
            old(self).wf(),
            ids_below(ids_m(t_args@), bound@ as int),
            bound@ <= old(self).types().len(),
            ids_below(ids_m(u_args@), old(self).types().len() as int),
        ensures
            final(self).wf(),
            final(self).types() == old(self).types(),
            final(self).exprs() == old(self).exprs(),
            final(self).environment == old(self).environment,
            final(self).fresh == old(self).fresh,
            final(self).queue() == old(self).queue() + unify_args_effects(
                old(self).types(),
                ids_m(t_args@),
                ids_m(u_args@),
                bound@,
            ),
        decreases bound@, 0nat,
    {
        let ghost ts = self.types();
        let ghost q0 = self.queue();
        let ghost tam = ids_m(t_args@);
        let ghost uam = ids_m(u_args@);
        proof {
            assert(tam.skip(0) =~= tam);
            assert(uam.skip(0) =~= uam);
        }
        let n = if t_args.len() < u_args.len() {
            t_args.len()
        } else {
            u_args.len()
        };
        let mut i: usize = 0;
        while i < n
            invariant
                self.wf(),
                self.types() == ts,
                self.exprs() == old(self).exprs(),
                self.environment == old(self).environment,
                self.fresh == old(self).fresh,
                ids_below(tam, bound@ as int),
                bound@ <= ts.len(),
                ids_below(uam, ts.len() as int),
                tam == ids_m(t_args@),
                uam == ids_m(u_args@),
                n <= tam.len(),
                n <= uam.len(),
                n == if tam.len() < uam.len() {
                    tam.len()
                } else {
                    uam.len()
                },
                i <= n,
                q0 + unify_args_effects(ts, tam, uam, bound@) == self.queue()
                    + unify_args_effects(ts, tam.skip(i as int), uam.skip(i as int), bound@),
            decreases n - i,
        {
            proof {
                assert(tam.skip(i as int)[0] == tam[i as int]);
                assert(uam.skip(i as int)[0] == uam[i as int]);
                assert(tam[i as int] == t_args@[i as int]@);
                assert(uam[i as int] == u_args@[i as int]@);
                assert(tam.skip(i as int).drop_first() =~= tam.skip(i as int + 1));
                assert(uam.skip(i as int).drop_first() =~= uam.skip(i as int + 1));
            }
            let ghost qpre = self.queue();
            self.unify(t_args[i], u_args[i]);
            proof {
                let head = unify_effects(ts, tam[i as int], uam[i as int]);
                let rest = unify_args_effects(
                    ts,
                    tam.skip(i as int + 1),
                    uam.skip(i as int + 1),
                    bound@,
                );
                assert(unify_args_effects(ts, tam.skip(i as int), uam.skip(i as int), bound@)
                    == head + rest);
                assert(qpre + (head + rest) =~= (qpre + head) + rest);
                assert(q0 + unify_args_effects(ts, tam, uam, bound@) == self.queue() + rest);
            }
            i = i + 1;
        }
        proof {
            if tam.len() == 0 || uam.len() == 0 {
                assert(unify_args_effects(ts, tam.skip(n as int), uam.skip(n as int), bound@)
                    == Seq::<ConstraintM>::empty());
            } else {
                assert(tam.skip(n as int).len() == 0 || uam.skip(n as int).len() == 0);
                assert(unify_args_effects(ts, tam.skip(n as int), uam.skip(n as int), bound@)
                    == Seq::<ConstraintM>::empty());
            }
            assert(self.queue() + Seq::<ConstraintM>::empty() =~= self.queue());
        }
    }

    /// Whether unification variable `v` occurs in the type at `t_idx`.
    pub fn occurs_check(&self, t_idx: TypeId, v: usize) -> (r: bool)
        requires
            self.wf(),
            t_idx@ < self.types().len(),
        ensures
            r == occurs(self.types(), t_idx@, v as nat),
        decreases t_idx@,
    {
        let ghost ts = self.types();
        proof {
            assert(ts[t_idx@ as int] == self.volatile.type_arena@[t_idx@ as int]@);
            assert(ty_m_wf(ts[t_idx@ as int], t_idx@ as int));
        }
        match self.volatile.type_arena.get(t_idx) {
            Type::Constructor { .. } => false,
            Type::Variable { .. } => false,
            Type::Unification { name } => *name == v,
            Type::Function { arguments, result } => {
                let in_args = self.occurs_check_list(arguments, Ghost(t_idx@), v);
                in_args || self.occurs_check(*result, v)
            },
            Type::Application { function, arguments } => {
                let in_fun = self.occurs_check(*function, v);
                in_fun || self.occurs_check_list(arguments, Ghost(t_idx@), v)
            },
            Type::Forall { ty, .. } => self.occurs_check(*ty, v),
            Type::Constrained { assertions, ty } => {
                let in_asserts = self.occurs_check_asserts(assertions, Ghost(t_idx@), v);
                in_asserts || self.occurs_check(*ty, v)
            },
        }
    }

    /// Whether `v` occurs in any of the listed positions.
    fn occurs_check_list(&self, args: &Vec<TypeId>, bound: Ghost<nat>, v: usize) -> (r: bool)
        requires
            self.wf(),
            ids_below(ids_m(args@), bound@ as int),
            bound@ <= self.types().len(),
        ensures
            r == occurs_any(self.types(), ids_m(args@), bound@, v as nat),
        decreases bound@, 0nat, args@.len(),
    {
        let ghost ts = self.types();
        let ghost am = ids_m(args@);
        proof {
            assert(am.skip(0) =~= am);
        }
        let mut i: usize = 0;
        while i < args.len()
            invariant
                self.wf(),
                ids_below(am, bound@ as int),
                bound@ <= ts.len(),
                am == ids_m(args@),
                ts == self.types(),
                i <= args@.len(),
                occurs_any(ts, am, bound@, v as nat) == occurs_any(
                    ts,
                    am.skip(i as int),
                    bound@,
                    v as nat,
                ),
            decreases args@.len() - i,
        {
            proof {
                assert(am.skip(i as int)[0] == am[i as int]);
                assert(am[i as int] == args@[i as int]@);
                assert(am.skip(i as int).drop_first() =~= am.skip(i as int + 1));
            }
            if self.occurs_check(args[i], v) {
                return true;
            }
            i = i + 1;
        }
        proof {
            assert(am.skip(args@.len() as int) =~= Seq::<nat>::empty());
        }
        false
    }

    /// Whether `v` occurs in any argument of any of the listed assertions.
    fn occurs_check_asserts(
        &self,
        asserts: &Vec<crate::ty::Assertion>,
        bound: Ghost<nat>,
        v: usize,
    ) -> (r: bool)
        requires
            self.wf(),
            crate::ty::asserts_m_wf(
                asserts@.map_values(|a: crate::ty::Assertion| a@),
                bound@ as int,
            ),
            bound@ <= self.types().len(),
        ensures
            r == occurs_asserts(
                self.types(),
                asserts@.map_values(|a: crate::ty::Assertion| a@),
                bound@,
                v as nat,
            ),
        decreases bound@, 1nat, asserts@.len(),
    {
        let ghost ts = self.types();
        let ghost sm = asserts@.map_values(|a: crate::ty::Assertion| a@);
        proof {
            assert(sm.skip(0) =~= sm);
        }
        let mut i: usize = 0;
        while i < asserts.len()
            invariant
                self.wf(),
                crate::ty::asserts_m_wf(sm, bound@ as int),
                bound@ <= ts.len(),
                sm == asserts@.map_values(|a: crate::ty::Assertion| a@),
                ts == self.types(),
                i <= asserts@.len(),
                occurs_asserts(ts, sm, bound@, v as nat) == occurs_asserts(
                    ts,
                    sm.skip(i as int),
                    bound@,
                    v as nat,
                ),
            decreases asserts@.len() - i,
        {
            proof {
                assert(sm.skip(i as int)[0] == sm[i as int]);
                assert(sm[i as int] == asserts@[i as int]@);
                assert(sm.skip(i as int).drop_first() =~= sm.skip(i as int + 1));
                assert(crate::ty::assert_m_wf(sm[i as int], bound@ as int));
            }
            if self.occurs_check_list(&asserts[i].arguments, bound, v) {
                return true;
            }
            i = i + 1;
        }
        proof {
            assert(sm.skip(asserts@.len() as int) =~= Seq::<AssertM>::empty());
        }
        false
    }
}

} // verus!

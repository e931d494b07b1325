//! Instantiation of polymorphic types.
//!
//! `instantiate` opens a `Forall` (and its immediate `Constrained`): each
//! bound variable of the matching rank is replaced by a fresh unification
//! variable, and each assertion of the stripped `Constrained` is scheduled
//! on the queue as a class obligation under a fresh marker.  A type that is
//! not `Forall` at the top is returned unchanged, with nothing allocated
//! and nothing scheduled.
//!
//! Substitution never rewrites a node in place: traversed compound nodes
//! are rebuilt as fresh allocations, and nested `Forall`s are preserved
//! verbatim because their variables carry a different rank.

use vstd::prelude::*;
use crate::constraint::{Constraint, ConstraintM};
use crate::context::{fresh_next, Context};
use crate::names::RankMap;
use crate::ty::{clone_assertions, clone_binders, clone_ids, ids_below, ids_m, ty_m_wf,
    types_wf, AssertM, Assertion, Type, TypeId, TypeM, TypeVariableBinder};

verus! {

// ---------------------------------------------------------------------------
// Substitution, mathematically: a traversal threading the growing arena.
// ---------------------------------------------------------------------------

/// Substitutes inside the type at `t`: a `Variable` whose name and rank key
/// the map becomes its replacement, leaves stay, and compound nodes are
/// rebuilt as fresh allocations.  Returns the grown arena and the position
/// of the result.
pub open spec fn subst_ty(ts: Seq<TypeM>, sub: Map<(Seq<char>, nat), nat>, t: nat) -> (
    Seq<TypeM>,
    nat,
)
    decreases t, 2int, 0int, 0int,
{
    if t < ts.len() {
        match ts[t as int] {
            TypeM::Constructor { .. } => (ts, t),
            TypeM::Variable { name, rank } => {
                if sub.contains_key((name, rank)) {
                    (ts, sub[(name, rank)])
                } else {
                    (ts, t)
                }
            },
            TypeM::Unification { .. } => (ts, t),
            TypeM::Function { arguments, result } => {
                let (ts1, args2) = subst_list(ts, sub, arguments, t);
                let (ts2, r2) = if result < t {
                    subst_ty(ts1, sub, result)
                } else {
                    (ts1, result)
                };
                (ts2.push(TypeM::Function { arguments: args2, result: r2 }), ts2.len())
            },
            TypeM::Application { function, arguments } => {
                let (ts1, f2) = if function < t {
                    subst_ty(ts, sub, function)
                } else {
                    (ts, function)
                };
                let (ts2, args2) = subst_list(ts1, sub, arguments, t);
                (ts2.push(TypeM::Application { function: f2, arguments: args2 }), ts2.len())
            },
            TypeM::Forall { variables, rank, ty } => {
                let (ts1, ty2) = if ty < t {
                    subst_ty(ts, sub, ty)
                } else {
                    (ts, ty)
                };
                (ts1.push(TypeM::Forall { variables, rank, ty: ty2 }), ts1.len())
            },
            TypeM::Constrained { assertions, ty } => {
                let (ts1, as2) = subst_asserts(ts, sub, assertions, t);
                let (ts2, ty2) = if ty < t {
                    subst_ty(ts1, sub, ty)
                } else {
                    (ts1, ty)
                };
                (ts2.push(TypeM::Constrained { assertions: as2, ty: ty2 }), ts2.len())
            },
        }
    } else {
        (ts, t)
    }
}

/// Substitutes each listed position in order, threading the arena.
pub open spec fn subst_list(
    ts: Seq<TypeM>,
    sub: Map<(Seq<char>, nat), nat>,
    args: Seq<nat>,
    bound: nat,
) -> (Seq<TypeM>, Seq<nat>)
    decreases bound, 1int, 0int, args.len(),
{
    if args.len() == 0 {
        (ts, Seq::<nat>::empty())
    } else {
        let (ts1, a2) = if args[0] < bound {
            subst_ty(ts, sub, args[0])
        } else {
            (ts, args[0])
        };
        let (ts2, rest) = subst_list(ts1, sub, args.drop_first(), bound);
        (ts2, seq![a2] + rest)
    }
}

/// Substitutes inside one assertion's arguments.
pub open spec fn subst_assert(
    ts: Seq<TypeM>,
    sub: Map<(Seq<char>, nat), nat>,
    a: AssertM,
    bound: nat,
) -> (Seq<TypeM>, AssertM)
    decreases bound, 1int, 1int, 0int,
{
    let (ts1, args2) = subst_list(ts, sub, a.args, bound);
    (ts1, AssertM { name: a.name, args: args2 })
}

/// Substitutes inside each listed assertion in order.
pub open spec fn subst_asserts(
    ts: Seq<TypeM>,
    sub: Map<(Seq<char>, nat), nat>,
    asserts: Seq<AssertM>,
    bound: nat,
) -> (Seq<TypeM>, Seq<AssertM>)
    decreases bound, 1int, 1int, asserts.len(),
{
    if asserts.len() == 0 {
        (ts, Seq::<AssertM>::empty())
    } else {
        let (ts1, a2) = subst_assert(ts, sub, asserts[0], bound);
        let (ts2, rest) = subst_asserts(ts1, sub, asserts.drop_first(), bound);
        (ts2, seq![a2] + rest)
    }
}

// ---------------------------------------------------------------------------
// Opening a Forall, mathematically.
// ---------------------------------------------------------------------------

/// Builds the substitution for a binder list: one fresh unification
/// variable per binder, allocated in order, keyed at the `Forall`'s rank.
pub open spec fn build_subst(
    ts: Seq<TypeM>,
    fresh: nat,
    variables: Seq<Seq<char>>,
    rank: nat,
    acc: Map<(Seq<char>, nat), nat>,
) -> (Seq<TypeM>, nat, Map<(Seq<char>, nat), nat>)
    decreases variables.len(),
{
    if variables.len() == 0 {
        (ts, fresh, acc)
    } else {
        build_subst(
            ts.push(TypeM::Unification { name: fresh }),
            fresh_next(fresh),
            variables.drop_first(),
            rank,
            acc.insert((variables[0], rank), ts.len()),
        )
    }
}

/// The obligations scheduled for the stripped assertions: one `ClassEntail`
/// per assertion, each under its own fresh marker, drawn in order.
pub open spec fn entail_emissions(asserts: Seq<AssertM>, fresh: nat) -> (Seq<ConstraintM>, nat)
    decreases asserts.len(),
{
    if asserts.len() == 0 {
        (Seq::<ConstraintM>::empty(), fresh)
    } else {
        let (rest, f2) = entail_emissions(asserts.drop_first(), fresh_next(fresh));
        (seq![ConstraintM::ClassEntail(fresh, asserts[0])] + rest, f2)
    }
}

/// Everything `instantiate` does, as a function of the arena, the fresh
/// counter, and the handle.
pub ghost struct InstOut {
    pub ts: Seq<TypeM>,
    pub fresh: nat,
    pub emitted: Seq<ConstraintM>,
    pub result: nat,
}

pub open spec fn instantiate_spec(ts: Seq<TypeM>, fresh: nat, t: nat) -> InstOut {
    if t < ts.len() {
        match ts[t as int] {
            TypeM::Forall { variables, rank, ty } => {
                let (ts1, f1, sub) = build_subst(ts, fresh, variables, rank, Map::empty());
                if ty < t {
                    match ts[ty as int] {
                        TypeM::Constrained { assertions, ty: inner } => {
                            let (ts2, as2) = subst_asserts(ts1, sub, assertions, ty);
                            let (ts3, r) = if inner < ty {
                                subst_ty(ts2, sub, inner)
                            } else {
                                (ts2, inner)
                            };
                            let (em, f2) = entail_emissions(as2, f1);
                            InstOut { ts: ts3, fresh: f2, emitted: em, result: r }
                        },
                        _ => {
                            let (ts2, r) = subst_ty(ts1, sub, ty);
                            InstOut {
                                ts: ts2,
                                fresh: f1,
                                emitted: Seq::<ConstraintM>::empty(),
                                result: r,
                            }
                        },
                    }
                } else {
                    InstOut { ts: ts1, fresh: f1, emitted: Seq::<ConstraintM>::empty(), result: ty }
                }
            },
            _ => InstOut { ts, fresh, emitted: Seq::<ConstraintM>::empty(), result: t },
        }
    } else {
        InstOut { ts, fresh, emitted: Seq::<ConstraintM>::empty(), result: t }
    }
}

// ---------------------------------------------------------------------------
// Executable code.
// ---------------------------------------------------------------------------

/// The substitution's replacement positions all point into the arena.
pub open spec fn sub_valid(sub: Map<(Seq<char>, nat), nat>, tlen: int) -> bool {
    forall|k: (Seq<char>, nat)| sub.contains_key(k) ==> (#[trigger] sub[k]) < tlen
}

impl Context {
    /// Opens a `Forall`-quantified (and constrained) type: strips the
    /// quantifier, replaces each bound variable of the matching rank by a
    /// fresh unification variable, and schedules one class obligation per
    /// stripped assertion, each under a fresh marker.  A type that is not
    /// `Forall` at the top comes back unchanged: nothing is allocated,
    /// nothing is scheduled, and the counter does not move.
    pub fn instantiate(&mut self, t_idx: TypeId) -> (r: TypeId)
        requires
            old(self).wf(),
            t_idx@ < old(self).types().len(),
        ensures
            final(self).wf(),
            final(self).types() == instantiate_spec(
                old(self).types(),
                old(self).fresh as nat,
                t_idx@,
            ).ts,
            final(self).fresh as nat == instantiate_spec(
                old(self).types(),
                old(self).fresh as nat,
                t_idx@,
            ).fresh,
            final(self).queue() == old(self).queue() + instantiate_spec(
                old(self).types(),
                old(self).fresh as nat,
                t_idx@,
            ).emitted,
            r@ == instantiate_spec(old(self).types(), old(self).fresh as nat, t_idx@).result,
            r@ < final(self).types().len(),
            final(self).types().len() >= old(self).types().len(),
            forall|i: int|
                0 <= i < old(self).types().len() ==> final(self).types()[i] == old(self).types()[i],
            final(self).exprs() == old(self).exprs(),
            final(self).environment == old(self).environment,
            !(old(self).types()[t_idx@ as int] is Forall) ==> r == t_idx && final(self).types()
                == old(self).types() && final(self).fresh == old(self).fresh && final(self).queue()
                == old(self).queue(),
    {
        let ghost ts0 = self.types();
        let ghost f0 = self.fresh as nat;
        let ghost iout = instantiate_spec(ts0, f0, t_idx@);
        proof {
            assert(ts0[t_idx@ as int] == self.volatile.type_arena@[t_idx@ as int]@);
            assert(ty_m_wf(ts0[t_idx@ as int], t_idx@ as int));
        }
        let (variables, rank, ty) = match self.volatile.type_arena.get(t_idx) {
            Type::Forall { variables, rank, ty } => (clone_binders(variables), *rank, *ty),
            _ => {
                proof {
                    assert(self.queue() =~= self.queue() + iout.emitted);
                }
                return t_idx;
            },
        };
        let ghost varsm = variables@.map_values(|b: TypeVariableBinder| b.name@);
        proof {
            assert(varsm.skip(0) =~= varsm);
        }
        // One fresh unification variable per binder, at the Forall's rank.
        let mut map = RankMap::new();
        let mut i: usize = 0;
        while i < variables.len()
            invariant
                self.wf(),
                map.wf(),
                varsm == variables@.map_values(|b: TypeVariableBinder| b.name@),
                i <= variables@.len(),
                self.types().len() >= ts0.len(),
                forall|j: int| 0 <= j < ts0.len() ==> self.types()[j] == ts0[j],
                sub_valid(map@, self.types().len() as int),
                build_subst(ts0, f0, varsm, rank as nat, Map::empty()) == build_subst(
                    self.types(),
                    self.fresh as nat,
                    varsm.skip(i as int),
                    rank as nat,
                    map@,
                ),
                self.exprs() == old(self).exprs(),
                self.environment == old(self).environment,
                self.queue() == old(self).queue(),
            decreases variables@.len() - i,
        {
            proof {
                assert(varsm.skip(i as int)[0] == varsm[i as int]);
                assert(varsm[i as int] == variables@[i as int].name@);
                assert(varsm.skip(i as int).drop_first() =~= varsm.skip(i as int + 1));
            }
            let ghost pre_ts = self.volatile.type_arena@;
            let u = self.fresh_unification();
            proof {
                crate::ty::lemma_types_wf_push(
                    crate::ty::types_m(pre_ts),
                    TypeM::Unification { name: 0 },
                );
                assert(types_wf(self.types())) by {
                    crate::ty::lemma_types_wf_push(
                        crate::ty::types_m(pre_ts),
                        self.types().last(),
                    );
                    assert(self.types() =~= crate::ty::types_m(pre_ts).push(self.types().last()));
                }
            }
            map.insert(variables[i].name.clone(), rank, u);
            i = i + 1;
        }
        proof {
            assert(varsm.skip(variables@.len() as int) =~= Seq::<Seq<char>>::empty());
        }
        let ghost bs = build_subst(ts0, f0, varsm, rank as nat, Map::empty());
        proof {
            assert(bs.0 == self.types());
            assert(bs.1 == self.fresh as nat);
            assert(bs.2 == map@);
            assert(ty@ < t_idx@);
            assert(ts0[ty@ as int] == self.volatile.type_arena@[ty@ as int]@);
            assert(ty_m_wf(ts0[ty@ as int], ty@ as int));
        }
        match self.volatile.type_arena.get(ty) {
            Type::Constrained { assertions, ty: inner } => {
                let inner = *inner;
                let assertions = clone_assertions(assertions);
                proof {
                    assert(crate::ty::asserts_m_wf(
                        assertions@.map_values(|a: Assertion| a@),
                        ty@ as int,
                    ));
                }
                let as2 = self.subst_assert_list(&assertions, &map, Ghost(ty@));
                proof {
                    assert(inner@ < ty@);
                }
                let r = self.substitute(inner, &map);
                // Schedule one obligation per stripped assertion.
                let ghost as2m = as2@.map_values(|a: Assertion| a@);
                let ghost q1 = self.queue();
                let ghost f1 = self.fresh as nat;
                proof {
                    assert(as2m.skip(0) =~= as2m);
                }
                let mut k: usize = 0;
                while k < as2.len()
                    invariant
                        self.wf(),
                        k <= as2@.len(),
                        as2m == as2@.map_values(|a: Assertion| a@),
                        self.types() == iout.ts,
                        self.exprs() == old(self).exprs(),
                        self.environment == old(self).environment,
                        q1 + entail_emissions(as2m, f1).0 == self.queue() + entail_emissions(
                            as2m.skip(k as int),
                            self.fresh as nat,
                        ).0,
                        entail_emissions(as2m, f1).1 == entail_emissions(
                            as2m.skip(k as int),
                            self.fresh as nat,
                        ).1,
                    decreases as2@.len() - k,
                {
                    proof {
                        assert(as2m.skip(k as int)[0] == as2m[k as int]);
                        assert(as2m[k as int] == as2@[k as int]@);
                        assert(as2m.skip(k as int).drop_first() =~= as2m.skip(k as int + 1));
                    }
                    let ghost qpre = self.queue();
                    let ghost fpre = self.fresh as nat;
                    let marker = self.fresh_index();
                    let a = as2[k].clone();
                    self.push_constraint(Constraint::ClassEntail(marker, a));
                    proof {
                        let head = ConstraintM::ClassEntail(fpre, as2m[k as int]);
                        let rest = entail_emissions(as2m.skip(k as int + 1), self.fresh as nat);
                        assert(entail_emissions(as2m.skip(k as int), fpre) == (
                            seq![head] + rest.0,
                            rest.1,
                        ));
                        assert(qpre + (seq![head] + rest.0) =~= (qpre + seq![head]) + rest.0);
                        assert(self.queue() =~= qpre + seq![head]);
                    }
                    k = k + 1;
                }
                proof {
                    assert(as2m.skip(as2@.len() as int) =~= Seq::<AssertM>::empty());
                    assert(self.queue() + Seq::<ConstraintM>::empty() =~= self.queue());
                    assert(q1 == old(self).queue());
                    assert(self.queue() =~= old(self).queue() + iout.emitted);
                }
                r
            },
            _ => {
                let r = self.substitute(ty, &map);
                proof {
                    assert(self.queue() =~= self.queue() + iout.emitted);
                }
                r
            },
        }
    }

    /// Applies the substitution to the type at `t_idx`, allocating rebuilt
    /// nodes; the queue, the environment, and the fresh counter are
    /// untouched, and existing nodes are preserved.
    fn substitute(&mut self, t_idx: TypeId, map: &RankMap) -> (r: TypeId)
        requires
            old(self).wf(),
            t_idx@ < old(self).types().len(),
            map.wf(),
            sub_valid(map@, old(self).types().len() as int),
        ensures
            final(self).wf(),
            final(self).types() == subst_ty(old(self).types(), map@, t_idx@).0,
            r@ == subst_ty(old(self).types(), map@, t_idx@).1,
            final(self).types().len() >= old(self).types().len(),
            forall|i: int|
                0 <= i < old(self).types().len() ==> final(self).types()[i] == old(self).types()[i],
            r@ < final(self).types().len(),
            final(self).exprs() == old(self).exprs(),
            final(self).environment == old(self).environment,
            final(self).fresh == old(self).fresh,
            final(self).queue() == old(self).queue(),
        decreases t_idx@, 2nat, 0nat, 0nat,
    {
        let ghost ts = self.types();
        proof {
            assert(ts[t_idx@ as int] == self.volatile.type_arena@[t_idx@ as int]@);
            assert(ty_m_wf(ts[t_idx@ as int], t_idx@ as int));
        }
        let node = self.volatile.type_arena.get(t_idx);
        match node {
            Type::Constructor { .. } => t_idx,
            Type::Variable { name, rank } => {
                match map.get(name, *rank) {
                    Some(id) => {
                        proof {
                            assert(map@[(name@, *rank as nat)] < ts.len() as int);
                        }
                        id
                    },
                    None => t_idx,
                }
            },
            Type::Unification { .. } => t_idx,
            Type::Function { arguments, result } => {
                let result = *result;
                let arguments = clone_ids(arguments);
                let args2 = self.subst_id_list(&arguments, map, Ghost(t_idx@));
                let r2 = self.substitute(result, map);
                let ghost pre = self.volatile.type_arena@;
                let node2 = Type::Function { arguments: args2, result: r2 };
                let ghost node2v = node2;
                let out = self.volatile.type_arena.allocate(node2);
                proof {
                    crate::ty::lemma_types_m_push(pre, node2v);
                    crate::ty::lemma_types_wf_push(crate::ty::types_m(pre), node2v@);
                }
                out
            },
            Type::Application { function, arguments } => {
                let function = *function;
                let arguments = clone_ids(arguments);
                let f2 = self.substitute(function, map);
                let args2 = self.subst_id_list(&arguments, map, Ghost(t_idx@));
                let ghost pre = self.volatile.type_arena@;
                let node2 = Type::Application { function: f2, arguments: args2 };
                let ghost node2v = node2;
                let out = self.volatile.type_arena.allocate(node2);
                proof {
                    crate::ty::lemma_types_m_push(pre, node2v);
                    crate::ty::lemma_types_wf_push(crate::ty::types_m(pre), node2v@);
                }
                out
            },
            Type::Forall { variables, rank, ty } => {
                let rank = *rank;
                let ty = *ty;
                let variables = clone_binders(variables);
                let ty2 = self.substitute(ty, map);
                let ghost pre = self.volatile.type_arena@;
                let node2 = Type::Forall { variables, rank, ty: ty2 };
                let ghost node2v = node2;
                let out = self.volatile.type_arena.allocate(node2);
                proof {
                    crate::ty::lemma_types_m_push(pre, node2v);
                    crate::ty::lemma_types_wf_push(crate::ty::types_m(pre), node2v@);
                }
                out
            },
            Type::Constrained { assertions, ty } => {
                let ty = *ty;
                let assertions = clone_assertions(assertions);
                let as2 = self.subst_assert_list(&assertions, map, Ghost(t_idx@));
                let ty2 = self.substitute(ty, map);
                let ghost pre = self.volatile.type_arena@;
                let node2 = Type::Constrained { assertions: as2, ty: ty2 };
                let ghost node2v = node2;
                let out = self.volatile.type_arena.allocate(node2);
                proof {
                    crate::ty::lemma_types_m_push(pre, node2v);
                    crate::ty::lemma_types_wf_push(crate::ty::types_m(pre), node2v@);
                }
                out
            },
        }
    }

    /// Substitutes each handle in the list in order, returning the rebuilt
    /// list.
    fn subst_id_list(&mut self, args: &Vec<TypeId>, map: &RankMap, bound: Ghost<nat>) -> (r: Vec<
        TypeId,
    >)
        requires
            old(self).wf(),
            ids_below(ids_m(args@), bound@ as int),
            bound@ <= old(self).types().len(),
            map.wf(),
            sub_valid(map@, old(self).types().len() as int),
        ensures
            final(self).wf(),
            final(self).types() == subst_list(old(self).types(), map@, ids_m(args@), bound@).0,
            ids_m(r@) == subst_list(old(self).types(), map@, ids_m(args@), bound@).1,
            r@.len() == args@.len(),
            final(self).types().len() >= old(self).types().len(),
            forall|i: int|
                0 <= i < old(self).types().len() ==> final(self).types()[i] == old(self).types()[i],
            ids_below(ids_m(r@), final(self).types().len() as int),
            final(self).exprs() == old(self).exprs(),
            final(self).environment == old(self).environment,
            final(self).fresh == old(self).fresh,
            final(self).queue() == old(self).queue(),
        decreases bound@, 1nat, 0nat, 0nat,
    {
        let ghost ts0 = self.types();
        let ghost am = ids_m(args@);
        proof {
            assert(am.skip(0) =~= am);
        }
        let mut out: Vec<TypeId> = Vec::new();
        let mut i: usize = 0;
        while i < args.len()
            invariant
                self.wf(),
                map.wf(),
                am == ids_m(args@),
                ids_below(am, bound@ as int),
                bound@ <= ts0.len(),
                sub_valid(map@, ts0.len() as int),
                i <= args@.len(),
                out@.len() == i,
                self.types().len() >= ts0.len(),
                forall|j: int| 0 <= j < ts0.len() ==> self.types()[j] == ts0[j],
                ids_below(ids_m(out@), self.types().len() as int),
                subst_list(ts0, map@, am, bound@).0 == subst_list(
                    self.types(),
                    map@,
                    am.skip(i as int),
                    bound@,
                ).0,
                subst_list(ts0, map@, am, bound@).1 == ids_m(out@) + subst_list(
                    self.types(),
                    map@,
                    am.skip(i as int),
                    bound@,
                ).1,
                self.exprs() == old(self).exprs(),
                self.environment == old(self).environment,
                self.fresh == old(self).fresh,
                self.queue() == old(self).queue(),
            decreases args@.len() - i,
        {
            proof {
                assert(am.skip(i as int)[0] == am[i as int]);
                assert(am[i as int] == args@[i as int]@);
                assert(am.skip(i as int).drop_first() =~= am.skip(i as int + 1));
            }
            let ghost ts_pre = self.types();
            let ghost out_pre = ids_m(out@);
            let a2 = self.substitute(args[i], map);
            out.push(a2);
            proof {
                assert(ids_m(out@) =~= out_pre + seq![a2@]);
                let step = subst_ty(ts_pre, map@, am[i as int]);
                let rest = subst_list(self.types(), map@, am.skip(i as int + 1), bound@);
                assert(subst_list(ts_pre, map@, am.skip(i as int), bound@).0 == rest.0);
                assert(subst_list(ts_pre, map@, am.skip(i as int), bound@).1 == seq![a2@]
                    + rest.1);
                assert(out_pre + (seq![a2@] + rest.1) =~= (out_pre + seq![a2@]) + rest.1);
            }
            i = i + 1;
        }
        proof {
            assert(am.skip(args@.len() as int) =~= Seq::<nat>::empty());
            assert(ids_m(out@) + Seq::<nat>::empty() =~= ids_m(out@));
        }
        out
    }

    /// Substitutes inside each assertion's arguments in order, returning
    /// the rebuilt assertions.
    fn subst_assert_list(
        &mut self,
        asserts: &Vec<Assertion>,
        map: &RankMap,
        bound: Ghost<nat>,
    ) -> (r: Vec<Assertion>)
        requires
            old(self).wf(),
            crate::ty::asserts_m_wf(asserts@.map_values(|a: Assertion| a@), bound@ as int),
            bound@ <= old(self).types().len(),
            map.wf(),
            sub_valid(map@, old(self).types().len() as int),
        ensures
            final(self).wf(),
            final(self).types() == subst_asserts(
                old(self).types(),
                map@,
                asserts@.map_values(|a: Assertion| a@),
                bound@,
            ).0,
            r@.map_values(|a: Assertion| a@) == subst_asserts(
                old(self).types(),
                map@,
                asserts@.map_values(|a: Assertion| a@),
                bound@,
            ).1,
            r@.len() == asserts@.len(),
            final(self).types().len() >= old(self).types().len(),
            forall|i: int|
                0 <= i < old(self).types().len() ==> final(self).types()[i] == old(self).types()[i],
            crate::ty::asserts_m_wf(
                r@.map_values(|a: Assertion| a@),
                final(self).types().len() as int,
            ),
            final(self).exprs() == old(self).exprs(),
            final(self).environment == old(self).environment,
            final(self).fresh == old(self).fresh,
            final(self).queue() == old(self).queue(),
        decreases bound@, 1nat, 1nat, 0nat,
    {
        let ghost ts0 = self.types();
        let ghost sm = asserts@.map_values(|a: Assertion| a@);
        proof {
            assert(sm.skip(0) =~= sm);
        }
        let mut out: Vec<Assertion> = Vec::new();
        let mut i: usize = 0;
        while i < asserts.len()
            invariant
                self.wf(),
                map.wf(),
                sm == asserts@.map_values(|a: Assertion| a@),
                crate::ty::asserts_m_wf(sm, bound@ as int),
                bound@ <= ts0.len(),
                sub_valid(map@, ts0.len() as int),
                i <= asserts@.len(),
                out@.len() == i,
                self.types().len() >= ts0.len(),
                forall|j: int| 0 <= j < ts0.len() ==> self.types()[j] == ts0[j],
                crate::ty::asserts_m_wf(
                    out@.map_values(|a: Assertion| a@),
                    self.types().len() as int,
                ),
                subst_asserts(ts0, map@, sm, bound@).0 == subst_asserts(
                    self.types(),
                    map@,
                    sm.skip(i as int),
                    bound@,
                ).0,
                subst_asserts(ts0, map@, sm, bound@).1 == out@.map_values(|a: Assertion| a@)
                    + subst_asserts(self.types(), map@, sm.skip(i as int), bound@).1,
                self.exprs() == old(self).exprs(),
                self.environment == old(self).environment,
                self.fresh == old(self).fresh,
                self.queue() == old(self).queue(),
            decreases asserts@.len() - i,
        {
            proof {
                assert(sm.skip(i as int)[0] == sm[i as int]);
                assert(sm[i as int] == asserts@[i as int]@);
                assert(sm.skip(i as int).drop_first() =~= sm.skip(i as int + 1));
                assert(crate::ty::assert_m_wf(sm[i as int], bound@ as int));
            }
            let ghost ts_pre = self.types();
            let ghost out_pre = out@.map_values(|a: Assertion| a@);
            let name = asserts[i].name.clone();
            let args2 = self.subst_id_list(&asserts[i].arguments, map, bound);
            let a2 = Assertion { name, arguments: args2 };
            let ghost a2m = a2@;
            out.push(a2);
            proof {
                assert(out@.map_values(|a: Assertion| a@) =~= out_pre + seq![a2m]);
                let step = subst_assert(ts_pre, map@, sm[i as int], bound@);
                assert(sm[i as int].args == ids_m(asserts@[i as int].arguments@));
                assert(step.0 == self.types());
                assert(step.1 == a2m);
                let rest = subst_asserts(self.types(), map@, sm.skip(i as int + 1), bound@);
                assert(subst_asserts(ts_pre, map@, sm.skip(i as int), bound@).0 == rest.0);
                assert(subst_asserts(ts_pre, map@, sm.skip(i as int), bound@).1 == seq![a2m]
                    + rest.1);
                assert(out_pre + (seq![a2m] + rest.1) =~= (out_pre + seq![a2m]) + rest.1);
            }
            i = i + 1;
        }
        proof {
            assert(sm.skip(asserts@.len() as int) =~= Seq::<AssertM>::empty());
            assert(out@.map_values(|a: Assertion| a@) + Seq::<AssertM>::empty() =~= out@.map_values(
                |a: Assertion| a@,
            ));
        }
        out
    }
}

} // verus!

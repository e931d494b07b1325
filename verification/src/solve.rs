//! The solver loop: the outer fixed point that drains the constraint
//! queue, dispatches each constraint, parks the undecidable, and wakes
//! parked items when new facts unlock progress.
//!
//! One `step` has two phases.  Phase A drains the queue: a class obligation
//! goes to the entailer (its evidence is recorded and its arguments are
//! unified with the matched instance head, or it is parked); a `UnifyDeep`
//! consults the solved table, unifying or aliasing, or parks; a
//! `UnifySolve` records a solution; a `UnifyError` is appended to the error
//! list.  Phase B re-enqueues every parked pair with a newly solved side
//! and substitutes fresh solutions into every parked assertion, re-enqueuing
//! those with nothing left to wait for.
//!
//! Phase A's drain and the outer loop each carry an iteration cap
//! ([`STEP_LIMIT`], [`SOLVE_LIMIT`]) to defend against pathological
//! instance libraries; the caps are part of the stated contracts.  Work left
//! undone at the caps stays queued or parked and is visible as diagnostics.

use vstd::prelude::*;
use crate::constraint::{Constraint, ConstraintM};
use crate::context::{assertion_entailable, constraint_m_valid, constraints_valid, instances_ok,
    insts_m, Context, Environment};
use crate::entail::{entail_spec, EntailResult, EntailResultM, Evidence};
use crate::error::{UnifyError, UnifyErrorM};
use crate::names::IntMap;
use crate::ty::{ids_below, ids_m, AssertM, Assertion, TypeId, TypeM};
use crate::unify::{unify_effects, unify_emission_ok};

verus! {

/// The drain budget of one `step`: how many constraints one pass may
/// dispatch before it leaves the rest queued.
pub const STEP_LIMIT: u64 = 1000000;

/// How many `step`s `solve` may take before it stops with work left.
pub const SOLVE_LIMIT: u64 = 1000000;

/// A parked class obligation: the marker it was scheduled under, the
/// assertion as last seen, and the `(argument position, unification
/// variable)` pairs it waits for.
#[derive(Debug)]
pub struct DeferredAssertion {
    pub index: usize,
    pub assertion: Assertion,
    pub needs_solution: Vec<(usize, usize)>,
}

/// Model of a [`DeferredAssertion`].
pub ghost struct DeferredM {
    pub index: nat,
    pub assertion: AssertM,
    pub needs: Seq<(nat, nat)>,
}

impl DeferredAssertion {
    pub open spec fn view(self) -> DeferredM {
        DeferredM {
            index: self.index as nat,
            assertion: self.assertion@,
            needs: crate::entail::pairs_m(self.needs_solution@),
        }
    }
}

/// The solver and its side tables.
pub struct Solve {
    pub context: Context,
    /// For each unification variable, the type it resolved to.
    pub unification_solved: IntMap<TypeId>,
    /// Parked `UnifyDeep` pairs both of whose sides are still unsolved.
    pub unification_deferred: Vec<(usize, usize)>,
    pub unification_errors: Vec<UnifyError>,
    /// For each obligation marker, its evidence dictionary.
    pub entailment_evidences: IntMap<Evidence>,
    pub entailment_deferred: Vec<DeferredAssertion>,
}

/// The model of the whole solver state.
pub ghost struct SolveM {
    pub ts: Seq<TypeM>,
    pub fresh: nat,
    pub queue: Seq<ConstraintM>,
    pub solved: Map<nat, nat>,
    pub deferred: Seq<(nat, nat)>,
    pub errors: Seq<UnifyErrorM>,
    pub evidences: Map<nat, Seq<nat>>,
    pub ent_deferred: Seq<DeferredM>,
}

/// The positions an `IntMap` of type handles points at.
pub open spec fn solved_m(m: Map<nat, TypeId>) -> Map<nat, nat> {
    Map::new(|k: nat| m.contains_key(k), |k: nat| m[k]@)
}

/// The dictionaries an `IntMap` of evidence holds.
pub open spec fn evidences_m(m: Map<nat, Evidence>) -> Map<nat, Seq<nat>> {
    Map::new(|k: nat| m.contains_key(k), |k: nat| m[k]@)
}

impl Solve {
    /// The mathematical state of the solver.
    pub open spec fn view(self) -> SolveM {
        SolveM {
            ts: self.context.types(),
            fresh: self.context.fresh as nat,
            queue: self.context.queue(),
            solved: solved_m(self.unification_solved@),
            deferred: crate::entail::pairs_m(self.unification_deferred@),
            errors: self.unification_errors@.map_values(|e: UnifyError| e@),
            evidences: evidences_m(self.entailment_evidences@),
            ent_deferred: self.entailment_deferred@.map_values(|d: DeferredAssertion| d@),
        }
    }

    /// Everything the solver relies on: a well-formed context, usable
    /// instance declarations, valid queued constraints and side tables, and
    /// parked obligations it can safely wake.
    pub open spec fn wf(self) -> bool {
        &&& self.context.wf()
        &&& self.unification_solved.wf()
        &&& self.entailment_evidences.wf()
        &&& instances_ok(self.context.environment, self@.ts.len() as int)
        &&& constraints_valid(self@.queue, self.context.environment, self@.ts.len() as int)
        &&& forall|v: nat|
            self@.solved.contains_key(v) ==> (#[trigger] self@.solved[v]) < self@.ts.len()
        &&& forall|i: int|
            0 <= i < self@.ent_deferred.len() ==> assertion_entailable(
                (#[trigger] self@.ent_deferred[i]).assertion,
                self.context.environment,
                self@.ts.len() as int,
            ) && (forall|j: int|
                0 <= j < self@.ent_deferred[i].needs.len()
                    ==> (#[trigger] self@.ent_deferred[i].needs[j]).0
                    < self@.ent_deferred[i].assertion.args.len())
    }
}

// ---------------------------------------------------------------------------
// Phase A, mathematically.
// ---------------------------------------------------------------------------

/// The constraints emitted by unifying two argument lists pairwise, in
/// order (the propagation of a matched instance head back to the caller).
pub open spec fn zip_unify_effects(ts: Seq<TypeM>, tas: Seq<nat>, uas: Seq<nat>) -> Seq<
    ConstraintM,
>
    decreases tas.len(),
{
    if tas.len() == 0 || uas.len() == 0 {
        Seq::<ConstraintM>::empty()
    } else {
        unify_effects(ts, tas[0], uas[0]) + zip_unify_effects(
            ts,
            tas.drop_first(),
            uas.drop_first(),
        )
    }
}

/// The `ClassEntail` constraints scheduling an instance's dependencies.
pub open spec fn deps_constraints(deps: Seq<(nat, AssertM)>) -> Seq<ConstraintM> {
    deps.map_values(|p: (nat, AssertM)| ConstraintM::ClassEntail(p.0, p.1))
}

/// Dispatching one constraint (the head of the queue).
pub open spec fn step_once(env: Environment, s: SolveM) -> SolveM {
    if s.queue.len() == 0 {
        s
    } else {
        let c = s.queue[0];
        let s1 = SolveM { queue: s.queue.drop_first(), ..s };
        match c {
            ConstraintM::ClassEntail(marker, a) => {
                let out = entail_spec(
                    s1.ts,
                    env.classes@[a.name]@,
                    insts_m(env.instances@[a.name]@),
                    s1.fresh,
                    a,
                );
                match out.result {
                    EntailResultM::Solved { evidence, instance_assertion } => SolveM {
                        ts: out.ts,
                        fresh: out.fresh,
                        queue: s1.queue + zip_unify_effects(
                            out.ts,
                            a.args,
                            instance_assertion.args,
                        ),
                        evidences: s1.evidences.insert(marker, evidence),
                        ..s1
                    },
                    EntailResultM::Depends {
                        evidence,
                        instance_assertion,
                        instance_dependencies,
                    } => SolveM {
                        ts: out.ts,
                        fresh: out.fresh,
                        queue: s1.queue + zip_unify_effects(
                            out.ts,
                            a.args,
                            instance_assertion.args,
                        ) + deps_constraints(instance_dependencies),
                        evidences: s1.evidences.insert(marker, evidence),
                        ..s1
                    },
                    EntailResultM::Deferred { needs_solution } => SolveM {
                        ts: out.ts,
                        fresh: out.fresh,
                        ent_deferred: s1.ent_deferred.push(
                            DeferredM { index: marker, assertion: a, needs: needs_solution },
                        ),
                        ..s1
                    },
                }
            },
            ConstraintM::UnifyDeep(p, q) => {
                if s1.solved.contains_key(p) && s1.solved.contains_key(q) {
                    SolveM {
                        queue: s1.queue + unify_effects(s1.ts, s1.solved[p], s1.solved[q]),
                        ..s1
                    }
                } else if s1.solved.contains_key(q) {
                    SolveM { solved: s1.solved.insert(p, s1.solved[q]), ..s1 }
                } else if s1.solved.contains_key(p) {
                    SolveM { solved: s1.solved.insert(q, s1.solved[p]), ..s1 }
                } else {
                    SolveM { deferred: s1.deferred.push((p, q)), ..s1 }
                }
            },
            ConstraintM::UnifySolve(v, t) => SolveM { solved: s1.solved.insert(v, t), ..s1 },
            ConstraintM::UnifyError(e) => SolveM { errors: s1.errors.push(e), ..s1 },
        }
    }
}

/// Phase A: dispatch queued constraints until the queue is empty or the
/// budget runs out.
pub open spec fn drain(env: Environment, s: SolveM, budget: nat) -> SolveM
    decreases budget,
{
    if budget == 0 || s.queue.len() == 0 {
        s
    } else {
        drain(env, step_once(env, s), (budget - 1) as nat)
    }
}

// ---------------------------------------------------------------------------
// Phase B, mathematically.
// ---------------------------------------------------------------------------

/// Wakes parked `UnifyDeep` pairs: one with a newly solved side is
/// re-enqueued, the rest stay parked.
pub open spec fn wake_deep(
    solved: Map<nat, nat>,
    pairs: Seq<(nat, nat)>,
    queue: Seq<ConstraintM>,
) -> (Seq<ConstraintM>, Seq<(nat, nat)>)
    decreases pairs.len(),
{
    if pairs.len() == 0 {
        (queue, Seq::<(nat, nat)>::empty())
    } else {
        let (p, q) = pairs[0];
        if solved.contains_key(p) || solved.contains_key(q) {
            wake_deep(solved, pairs.drop_first(), queue.push(ConstraintM::UnifyDeep(p, q)))
        } else {
            let (q2, kept) = wake_deep(solved, pairs.drop_first(), queue);
            (q2, seq![(p, q)] + kept)
        }
    }
}

/// Substitutes fresh solutions into one parked assertion's waiting
/// positions; the pairs still unsolved remain.
pub open spec fn wake_needs(solved: Map<nat, nat>, a: AssertM, needs: Seq<(nat, nat)>) -> (
    AssertM,
    Seq<(nat, nat)>,
)
    decreases needs.len(),
{
    if needs.len() == 0 {
        (a, Seq::<(nat, nat)>::empty())
    } else {
        let (idx, v) = needs[0];
        if solved.contains_key(v) {
            let a2 = AssertM { name: a.name, args: a.args.update(idx as int, solved[v]) };
            wake_needs(solved, a2, needs.drop_first())
        } else {
            let (a2, rest) = wake_needs(solved, a, needs.drop_first());
            (a2, seq![(idx, v)] + rest)
        }
    }
}

/// Wakes parked assertions: one whose waiting list empties is re-enqueued,
/// the rest stay parked with their refreshed arguments.
pub open spec fn wake_ent(
    solved: Map<nat, nat>,
    entries: Seq<DeferredM>,
    queue: Seq<ConstraintM>,
) -> (Seq<ConstraintM>, Seq<DeferredM>)
    decreases entries.len(),
{
    if entries.len() == 0 {
        (queue, Seq::<DeferredM>::empty())
    } else {
        let e = entries[0];
        let (a2, needs2) = wake_needs(solved, e.assertion, e.needs);
        if needs2.len() == 0 {
            wake_ent(
                solved,
                entries.drop_first(),
                queue.push(ConstraintM::ClassEntail(e.index, a2)),
            )
        } else {
            let (q2, kept) = wake_ent(solved, entries.drop_first(), queue);
            (q2, seq![DeferredM { index: e.index, assertion: a2, needs: needs2 }] + kept)
        }
    }
}

/// One full pass of the solver loop: phase A, then both wake passes.
pub open spec fn step_spec(env: Environment, s: SolveM) -> SolveM {
    let sa = drain(env, s, STEP_LIMIT as nat);
    let (qb, kept_deep) = wake_deep(sa.solved, sa.deferred, sa.queue);
    let sb = SolveM { queue: qb, deferred: kept_deep, ..sa };
    let (qc, kept_ent) = wake_ent(sb.solved, sb.ent_deferred, sb.queue);
    SolveM { queue: qc, ent_deferred: kept_ent, ..sb }
}

/// The whole solver run: repeat `step_spec` until the queue is empty or
/// the round budget runs out.
pub open spec fn solve_spec(env: Environment, s: SolveM, rounds: nat) -> SolveM
    decreases rounds,
{
    if rounds == 0 {
        s
    } else {
        let s2 = step_spec(env, s);
        if s2.queue.len() == 0 {
            s2
        } else {
            solve_spec(env, s2, (rounds - 1) as nat)
        }
    }
}

// ---------------------------------------------------------------------------
// Laws.
// ---------------------------------------------------------------------------

/// The total amount of waiting across all parked assertions.
pub open spec fn sum_needs(entries: Seq<DeferredM>) -> nat
    decreases entries.len(),
{
    if entries.len() == 0 {
        0
    } else {
        entries[0].needs.len() + sum_needs(entries.drop_first())
    }
}

pub proof fn lemma_wake_needs_shrinks(solved: Map<nat, nat>, a: AssertM, needs: Seq<(nat, nat)>)
    ensures
        wake_needs(solved, a, needs).1.len() <= needs.len(),
    decreases needs.len(),
{
    if needs.len() > 0 {
        let (idx, v) = needs[0];
        if solved.contains_key(v) {
            let a2 = AssertM { name: a.name, args: a.args.update(idx as int, solved[v]) };
            lemma_wake_needs_shrinks(solved, a2, needs.drop_first());
        } else {
            lemma_wake_needs_shrinks(solved, a, needs.drop_first());
        }
    }
}

/// Deferral monotone progress: the waking pass never grows the total
/// amount of waiting — every parked assertion keeps or shrinks its waiting
/// list, and one that empties leaves the parked set altogether.
pub proof fn lemma_wake_ent_monotone(
    solved: Map<nat, nat>,
    entries: Seq<DeferredM>,
    queue: Seq<ConstraintM>,
)
    ensures
        sum_needs(wake_ent(solved, entries, queue).1) <= sum_needs(entries),
    decreases entries.len(),
{
    if entries.len() > 0 {
        let e = entries[0];
        let (a2, needs2) = wake_needs(solved, e.assertion, e.needs);
        lemma_wake_needs_shrinks(solved, e.assertion, e.needs);
        if needs2.len() == 0 {
            lemma_wake_ent_monotone(
                solved,
                entries.drop_first(),
                queue.push(ConstraintM::ClassEntail(e.index, a2)),
            );
        } else {
            lemma_wake_ent_monotone(solved, entries.drop_first(), queue);
            let (q2, kept) = wake_ent(solved, entries.drop_first(), queue);
            let head = DeferredM { index: e.index, assertion: a2, needs: needs2 };
            assert((seq![head] + kept).drop_first() =~= kept);
        }
    }
}

/// Deferral monotone progress across a whole pass that starts with an
/// empty queue: such a pass only wakes, so the total amount of waiting
/// across parked assertions cannot grow.  (A pass that dequeues a fresh
/// obligation may of course park it, adding new waiting.)
pub proof fn lemma_step_deferral_monotone(env: Environment, s: SolveM)
    requires
        s.queue.len() == 0,
    ensures
        sum_needs(step_spec(env, s).ent_deferred) <= sum_needs(s.ent_deferred),
{
    let sa = drain(env, s, STEP_LIMIT as nat);
    assert(sa == s);
    let (qb, kept_deep) = wake_deep(sa.solved, sa.deferred, sa.queue);
    let sb = SolveM { queue: qb, deferred: kept_deep, ..sa };
    lemma_wake_ent_monotone(sb.solved, sb.ent_deferred, sb.queue);
}

/// Determinism: the solver is a mathematical function of its input state,
/// so two runs from equal states produce equal solved tables and equal
/// evidence maps — there is nothing in a run that could tell them apart.
pub proof fn lemma_solver_deterministic(env: Environment, s1: SolveM, s2: SolveM, rounds: nat)
    requires
        s1 == s2,
    ensures
        solve_spec(env, s1, rounds).solved == solve_spec(env, s2, rounds).solved,
        solve_spec(env, s1, rounds).evidences == solve_spec(env, s2, rounds).evidences,
{
}

// ---------------------------------------------------------------------------
// Executable code.
// ---------------------------------------------------------------------------

/// Valid constraints stay valid as the arena grows.
pub proof fn lemma_constraints_valid_widen(
    cs: Seq<ConstraintM>,
    env: Environment,
    l1: int,
    l2: int,
)
    requires
        constraints_valid(cs, env, l1),
        l1 <= l2,
    ensures
        constraints_valid(cs, env, l2),
{
    assert forall|i: int| 0 <= i < cs.len() implies constraint_m_valid(#[trigger] cs[i], env, l2) by {
        assert(constraint_m_valid(cs[i], env, l1));
    }
}

/// Everything pairwise unification emits is a valid constraint.
pub proof fn lemma_zip_unify_valid(ts: Seq<TypeM>, tas: Seq<nat>, uas: Seq<nat>, env: Environment)
    ensures
        constraints_valid(zip_unify_effects(ts, tas, uas), env, ts.len() as int),
    decreases tas.len(),
{
    if tas.len() == 0 || uas.len() == 0 {
    } else {
        crate::unify::lemma_unify_emissions(ts, tas[0], uas[0]);
        lemma_zip_unify_valid(ts, tas.drop_first(), uas.drop_first(), env);
        let e1 = unify_effects(ts, tas[0], uas[0]);
        let e2 = zip_unify_effects(ts, tas.drop_first(), uas.drop_first());
        assert forall|i: int|
            0 <= i < (e1 + e2).len() implies constraint_m_valid(
            #[trigger] (e1 + e2)[i],
            env,
            ts.len() as int,
        ) by {
            if i < e1.len() {
                assert((e1 + e2)[i] == e1[i]);
                assert(unify_emission_ok(ts, e1[i]));
            } else {
                assert((e1 + e2)[i] == e2[i - e1.len()]);
            }
        }
    }
}

/// Copies a list of index pairs.
fn clone_upairs(v: &Vec<(usize, usize)>) -> (r: Vec<(usize, usize)>)
    ensures
        r@ == v@,
{
    let mut r: Vec<(usize, usize)> = Vec::new();
    let mut i: usize = 0;
    while i < v.len()
        invariant
            i <= v.len(),
            r@ == v@.subrange(0, i as int),
        decreases v.len() - i,
    {
        r.push(v[i]);
        i = i + 1;
    }
    assert(v@.subrange(0, v@.len() as int) == v@);
    r
}

impl Context {
    /// Unifies each assertion argument with the matching position of an
    /// instance head, in order, pairing up to the shorter list.
    #[verifier::loop_isolation(false)]
    fn unify_zip(&mut self, t_args: &Vec<TypeId>, u_args: &Vec<TypeId>)
        requires
            old(self).wf(),
            ids_below(ids_m(t_args@), old(self).types().len() as int),
            ids_below(ids_m(u_args@), old(self).types().len() as int),
        ensures
            final(self).wf(),
            final(self).types() == old(self).types(),
            final(self).exprs() == old(self).exprs(),
            final(self).environment == old(self).environment,
            final(self).fresh == old(self).fresh,
            final(self).queue() == old(self).queue() + zip_unify_effects(
                old(self).types(),
                ids_m(t_args@),
                ids_m(u_args@),
            ),
    {
        let ghost ts = self.types();
        let ghost q0 = self.queue();
        let ghost tam = ids_m(t_args@);
        let ghost uam = ids_m(u_args@);
        proof {
            assert(tam.skip(0) =~= tam);
            assert(uam.skip(0) =~= uam);
        }
        let n = if t_args.len() < u_args.len() {
            t_args.len()
        } else {
            u_args.len()
        };
        let mut i: usize = 0;
        while i < n
            invariant
                self.wf(),
                i <= n,
                self.types() == ts,
                self.exprs() == old(self).exprs(),
                self.environment == old(self).environment,
                self.fresh == old(self).fresh,
                q0 + zip_unify_effects(ts, tam, uam) == self.queue() + zip_unify_effects(
                    ts,
                    tam.skip(i as int),
                    uam.skip(i as int),
                ),
            decreases n - i,
        {
            proof {
                assert(tam.skip(i as int)[0] == tam[i as int]);
                assert(uam.skip(i as int)[0] == uam[i as int]);
                assert(tam[i as int] == t_args@[i as int]@);
                assert(uam[i as int] == u_args@[i as int]@);
                assert(tam.skip(i as int).drop_first() =~= tam.skip(i as int + 1));
                assert(uam.skip(i as int).drop_first() =~= uam.skip(i as int + 1));
            }
            let ghost qpre = self.queue();
            self.unify(t_args[i], u_args[i]);
            proof {
                let head = unify_effects(ts, tam[i as int], uam[i as int]);
                let rest = zip_unify_effects(ts, tam.skip(i as int + 1), uam.skip(i as int + 1));
                assert(zip_unify_effects(ts, tam.skip(i as int), uam.skip(i as int)) == head
                    + rest);
                assert(qpre + (head + rest) =~= (qpre + head) + rest);
            }
            i = i + 1;
        }
        proof {
            if tam.len() == 0 || uam.len() == 0 {
                assert(zip_unify_effects(ts, tam.skip(n as int), uam.skip(n as int)) == Seq::<
                    ConstraintM,
                >::empty());
            } else {
                assert(tam.skip(n as int).len() == 0 || uam.skip(n as int).len() == 0);
            }
            assert(self.queue() + Seq::<ConstraintM>::empty() =~= self.queue());
        }
    }
}

pub proof fn lemma_solved_insert(m: Map<nat, TypeId>, k: nat, id: TypeId)
    ensures
        solved_m(m.insert(k, id)) == solved_m(m).insert(k, id@),
{
    assert(solved_m(m.insert(k, id)) =~= solved_m(m).insert(k, id@));
}

pub proof fn lemma_evidences_insert(m: Map<nat, Evidence>, k: nat, e: Evidence)
    ensures
        evidences_m(m.insert(k, e)) == evidences_m(m).insert(k, e@),
{
    assert(evidences_m(m.insert(k, e)) =~= evidences_m(m).insert(k, e@));
}

impl Solve {
    pub fn new(context: Context) -> (r: Solve)
        ensures
            r.context == context,
            r@.solved == Map::<nat, nat>::empty(),
            r@.deferred == Seq::<(nat, nat)>::empty(),
            r@.errors == Seq::<UnifyErrorM>::empty(),
            r@.evidences == Map::<nat, Seq<nat>>::empty(),
            r@.ent_deferred == Seq::<DeferredM>::empty(),
            context.wf() && instances_ok(context.environment, context.types().len() as int)
                && constraints_valid(
                context.queue(),
                context.environment,
                context.types().len() as int,
            ) ==> r.wf(),
    {
        let r = Solve {
            context,
            unification_solved: IntMap::new(),
            unification_deferred: Vec::new(),
            unification_errors: Vec::new(),
            entailment_evidences: IntMap::new(),
            entailment_deferred: Vec::new(),
        };
        proof {
            assert(solved_m(r.unification_solved@) =~= Map::<nat, nat>::empty());
            assert(evidences_m(r.entailment_evidences@) =~= Map::<nat, Seq<nat>>::empty());
            assert(r@.deferred =~= Seq::<(nat, nat)>::empty());
            assert(r@.errors =~= Seq::<UnifyErrorM>::empty());
            assert(r@.ent_deferred =~= Seq::<DeferredM>::empty());
        }
        r
    }

    /// Phase A: drains the queue, dispatching each constraint, up to the
    /// step budget.
    #[verifier::loop_isolation(false)]
    #[verifier::rlimit(100)]
    fn drain_phase(&mut self)
        requires
            old(self).wf(),
        ensures
            final(self).wf(),
            final(self)@ == drain(
                old(self).context.environment,
                old(self)@,
                STEP_LIMIT as nat,
            ),
            final(self).context.environment == old(self).context.environment,
            final(self).context.exprs() == old(self).context.exprs(),
    {
        let ghost env = self.context.environment;
        let ghost m0 = self@;
        let mut budget: u64 = STEP_LIMIT;
        loop
            invariant
                self.wf(),
                self.context.environment == env,
                self.context.exprs() == old(self).context.exprs(),
                budget <= STEP_LIMIT,
                drain(env, m0, STEP_LIMIT as nat) == drain(env, self@, budget as nat),
            decreases budget,
        {
            if budget == 0 {
                break;
            }
            let ghost spre = self@;
            let constraint = match self.context.pop_constraint() {
                None => {
                    break;
                },
                Some(c) => c,
            };
            proof {
                assert(constraint@ == spre.queue[0]);
                assert(constraint_m_valid(spre.queue[0], env, spre.ts.len() as int));
            }
            match constraint {
                Constraint::ClassEntail(index, assertion) => {
                    let ghost tspre = self.context.types();
                    let out = self.context.entail(&assertion);
                    let ghost eout = entail_spec(
                        tspre,
                        env.classes@[assertion.name@]@,
                        insts_m(env.instances@[assertion.name@]@),
                        spre.fresh,
                        assertion@,
                    );
                    proof {
                        lemma_constraints_valid_widen(
                            spre.queue.drop_first(),
                            env,
                            spre.ts.len() as int,
                            self.context.types().len() as int,
                        );
                    }
                    match out {
                        EntailResult::Solved { evidence, instance_assertion } => {
                            let ghost epre = self.entailment_evidences@;
                            let ghost ev = evidence;
                            self.entailment_evidences.insert(index, evidence);
                            proof {
                                lemma_evidences_insert(epre, index as nat, ev);
                            }
                            self.context.unify_zip(
                                &assertion.arguments,
                                &instance_assertion.arguments,
                            );
                            proof {
                                lemma_zip_unify_valid(
                                    self.context.types(),
                                    assertion@.args,
                                    instance_assertion@.args,
                                    env,
                                );
                                let target = step_once(env, spre);
                                assert(self@.ts == target.ts);
                                assert(self@.fresh == target.fresh);
                                assert(self@.queue == target.queue);
                                assert(self@.solved == target.solved);
                                assert(self@.deferred == target.deferred);
                                assert(self@.errors == target.errors);
                                assert(self@.evidences == target.evidences);
                                assert(self@.ent_deferred == target.ent_deferred);
                                assert(self@ == target);
                            }
                        },
                        EntailResult::Depends {
                            evidence,
                            instance_assertion,
                            instance_dependencies,
                        } => {
                            let ghost epre = self.entailment_evidences@;
                            let ghost ev = evidence;
                            self.entailment_evidences.insert(index, evidence);
                            proof {
                                lemma_evidences_insert(epre, index as nat, ev);
                            }
                            self.context.unify_zip(
                                &assertion.arguments,
                                &instance_assertion.arguments,
                            );
                            proof {
                                lemma_zip_unify_valid(
                                    self.context.types(),
                                    assertion@.args,
                                    instance_assertion@.args,
                                    env,
                                );
                            }
                            // Schedule each dependency obligation.
                            let ghost depsm = instance_dependencies@.map_values(
                                |p: (usize, Assertion)| (p.0 as nat, p.1@),
                            );
                            let ghost qmid = self.context.queue();
                            let ghost smid = self@;
                            proof {
                                assert(depsm.skip(0) =~= depsm);
                                assert(deps_constraints(depsm.take(0)) =~= Seq::<
                                    ConstraintM,
                                >::empty());
                                assert(qmid + deps_constraints(depsm.take(0)) =~= qmid);
                            }
                            let mut k: usize = 0;
                            while k < instance_dependencies.len()
                                invariant
                                    self.wf(),
                                    k <= instance_dependencies@.len(),
                                    depsm.len() == instance_dependencies@.len(),
                                    self.context.environment == env,
                                    self.context.exprs() == old(self).context.exprs(),
                                    self.context.types() == eout.ts,
                                    self.context.fresh as nat == eout.fresh,
                                    self@.solved == smid.solved,
                                    self@.deferred == smid.deferred,
                                    self@.errors == smid.errors,
                                    self@.evidences == smid.evidences,
                                    self@.ent_deferred == smid.ent_deferred,
                                    self.context.queue() == qmid + deps_constraints(
                                        depsm.take(k as int),
                                    ),
                                decreases instance_dependencies@.len() - k,
                            {
                                let marker = instance_dependencies[k].0;
                                let dep = instance_dependencies[k].1.clone();
                                proof {
                                    assert(depsm[k as int] == (marker as nat, dep@));
                                    assert(assertion_entailable(
                                        dep@,
                                        env,
                                        self.context.types().len() as int,
                                    ));
                                }
                                let ghost qpre = self.context.queue();
                                self.context.push_constraint(
                                    Constraint::ClassEntail(marker, dep),
                                );
                                proof {
                                    assert(deps_constraints(depsm.take(k as int + 1))
                                        =~= deps_constraints(depsm.take(k as int)).push(
                                        ConstraintM::ClassEntail(marker as nat, depsm[k as int].1),
                                    ));
                                    assert(self.context.queue() =~= qmid + deps_constraints(
                                        depsm.take(k as int + 1),
                                    ));
                                }
                                k = k + 1;
                            }
                            proof {
                                assert(depsm.take(instance_dependencies@.len() as int) =~= depsm);
                                let target = step_once(env, spre);
                                assert(self@.ts == target.ts);
                                assert(self@.fresh == target.fresh);
                                assert(self@.queue == target.queue);
                                assert(self@.solved == target.solved);
                                assert(self@.deferred == target.deferred);
                                assert(self@.errors == target.errors);
                                assert(self@.evidences == target.evidences);
                                assert(self@.ent_deferred == target.ent_deferred);
                                assert(self@ == target);
                            }
                        },
                        EntailResult::Deferred { needs_solution } => {
                            self.entailment_deferred.push(
                                DeferredAssertion { index, assertion, needs_solution },
                            );
                            proof {
                                assert(self@.ent_deferred =~= spre.ent_deferred.push(
                                    self.entailment_deferred@.last()@,
                                ));
                                assert(self@ == step_once(env, spre));
                            }
                        },
                    }
                },
                Constraint::UnifyDeep(p, q) => {
                    let tp: Option<TypeId> = match self.unification_solved.get(p) {
                        Some(t) => Some(*t),
                        None => None,
                    };
                    let tq: Option<TypeId> = match self.unification_solved.get(q) {
                        Some(t) => Some(*t),
                        None => None,
                    };
                    match (tp, tq) {
                        (Some(t1), Some(t2)) => {
                            self.context.unify(t1, t2);
                            proof {
                                let ts = spre.ts;
                                crate::unify::lemma_unify_emissions(ts, t1@, t2@);
                                let eff = unify_effects(ts, t1@, t2@);
                                assert forall|i: int|
                                    0 <= i < eff.len() implies constraint_m_valid(
                                    #[trigger] eff[i],
                                    env,
                                    ts.len() as int,
                                ) by {
                                    assert(unify_emission_ok(ts, eff[i]));
                                }
                                assert(self@ == step_once(env, spre));
                            }
                        },
                        (None, Some(t2)) => {
                            let ghost mpre = self.unification_solved@;
                            self.unification_solved.insert(p, t2);
                            proof {
                                lemma_solved_insert(mpre, p as nat, t2);
                                assert(self@ == step_once(env, spre));
                            }
                        },
                        (Some(t1), None) => {
                            let ghost mpre = self.unification_solved@;
                            self.unification_solved.insert(q, t1);
                            proof {
                                lemma_solved_insert(mpre, q as nat, t1);
                                assert(self@ == step_once(env, spre));
                            }
                        },
                        (None, None) => {
                            self.unification_deferred.push((p, q));
                            proof {
                                assert(self@.deferred =~= spre.deferred.push((p as nat, q as nat)));
                                assert(self@ == step_once(env, spre));
                            }
                        },
                    }
                },
                Constraint::UnifySolve(v, t) => {
                    let ghost mpre = self.unification_solved@;
                    self.unification_solved.insert(v, t);
                    proof {
                        lemma_solved_insert(mpre, v as nat, t);
                        assert(self@ == step_once(env, spre));
                    }
                },
                Constraint::UnifyError(e) => {
                    self.unification_errors.push(e);
                    proof {
                        assert(self@.errors =~= spre.errors.push(
                            self.unification_errors@.last()@,
                        ));
                        assert(self@ == step_once(env, spre));
                    }
                },
            }
            budget = budget - 1;
        }
    }

    /// Phase B, first pass: wakes parked pairs whose sides gained a
    /// solution.
    #[verifier::loop_isolation(false)]
    #[verifier::rlimit(100)]
    fn wake_deep_phase(&mut self)
        requires
            old(self).wf(),
        ensures
            final(self).wf(),
            final(self)@ == (SolveM {
                queue: wake_deep(old(self)@.solved, old(self)@.deferred, old(self)@.queue).0,
                deferred: wake_deep(old(self)@.solved, old(self)@.deferred, old(self)@.queue).1,
                ..old(self)@
            }),
            final(self).context.environment == old(self).context.environment,
            final(self).context.exprs() == old(self).context.exprs(),
    {
        let ghost env = self.context.environment;
        let ghost sa = self@;
        let mut kept: Vec<(usize, usize)> = Vec::new();
        let ghost pairs0 = sa.deferred;
        proof {
            assert(pairs0.skip(0) =~= pairs0);
            assert(crate::entail::pairs_m(kept@) =~= Seq::<(nat, nat)>::empty());
        }
        let mut i: usize = 0;
        while i < self.unification_deferred.len()
            invariant
                self.wf(),
                i <= self.unification_deferred@.len(),
                self.context.environment == env,
                self.context.exprs() == old(self).context.exprs(),
                self.context.types() == sa.ts,
                self.context.fresh as nat == sa.fresh,
                solved_m(self.unification_solved@) == sa.solved,
                self@.errors == sa.errors,
                self@.evidences == sa.evidences,
                self@.ent_deferred == sa.ent_deferred,
                pairs0.len() == self.unification_deferred@.len(),
                pairs0 == crate::entail::pairs_m(self.unification_deferred@),
                wake_deep(sa.solved, pairs0, sa.queue).0 == wake_deep(
                    sa.solved,
                    pairs0.skip(i as int),
                    self.context.queue(),
                ).0,
                wake_deep(sa.solved, pairs0, sa.queue).1 == crate::entail::pairs_m(kept@)
                    + wake_deep(sa.solved, pairs0.skip(i as int), self.context.queue()).1,
            decreases self.unification_deferred@.len() - i,
        {
            proof {
                assert(pairs0.skip(i as int)[0] == pairs0[i as int]);
                assert(pairs0[i as int] == (self.unification_deferred@[i as int].0 as nat,
                self.unification_deferred@[i as int].1 as nat));
                assert(pairs0.skip(i as int).drop_first() =~= pairs0.skip(i as int + 1));
            }
            let (p, q) = self.unification_deferred[i];
            let has_p = self.unification_solved.contains_key(p);
            let has_q = self.unification_solved.contains_key(q);
            if has_p || has_q {
                self.context.push_constraint(Constraint::UnifyDeep(p, q));
            } else {
                let ghost kept_pre = crate::entail::pairs_m(kept@);
                kept.push((p, q));
                proof {
                    assert(crate::entail::pairs_m(kept@) =~= kept_pre.push((p as nat, q as nat)));
                    let rest = wake_deep(
                        sa.solved,
                        pairs0.skip(i as int + 1),
                        self.context.queue(),
                    );
                    assert(kept_pre + (seq![(p as nat, q as nat)] + rest.1) =~= (kept_pre + seq![
                        (p as nat, q as nat),
                    ]) + rest.1);
                    assert(kept_pre.push((p as nat, q as nat)) =~= kept_pre + seq![
                        (p as nat, q as nat),
                    ]);
                }
            }
            i = i + 1;
        }
        proof {
            assert(pairs0.skip(self.unification_deferred@.len() as int) =~= Seq::<(
                nat,
                nat,
            )>::empty());
            assert(crate::entail::pairs_m(kept@) + Seq::<(nat, nat)>::empty()
                =~= crate::entail::pairs_m(kept@));
        }
        self.unification_deferred = kept;
    }

    /// Phase B, second pass: substitutes fresh solutions into parked
    /// assertions and re-enqueues those with nothing left to wait for.
    #[verifier::loop_isolation(false)]
    #[verifier::rlimit(100)]
    fn wake_ent_phase(&mut self)
        requires
            old(self).wf(),
        ensures
            final(self).wf(),
            final(self)@ == (SolveM {
                queue: wake_ent(old(self)@.solved, old(self)@.ent_deferred, old(self)@.queue).0,
                ent_deferred: wake_ent(old(self)@.solved, old(self)@.ent_deferred, old(self)@.queue).1,
                ..old(self)@
            }),
            final(self).context.environment == old(self).context.environment,
            final(self).context.exprs() == old(self).context.exprs(),
    {
        let ghost env = self.context.environment;
        let ghost sb = self@;
        // Phase B: wake parked assertions whose waited-on variables gained
        // solutions.
        let ghost entries0 = sb.ent_deferred;
        proof {
            assert(entries0.skip(0) =~= entries0);
        }
        let mut kept2: Vec<DeferredAssertion> = Vec::new();
        proof {
            assert(kept2@.map_values(|d: DeferredAssertion| d@) =~= Seq::<DeferredM>::empty());
        }
        let mut i: usize = 0;
        while i < self.entailment_deferred.len()
            invariant
                self.wf(),
                i <= self.entailment_deferred@.len(),
                self.context.environment == env,
                self.context.exprs() == old(self).context.exprs(),
                self.context.types() == sb.ts,
                self.context.fresh as nat == sb.fresh,
                solved_m(self.unification_solved@) == sb.solved,
                self@.errors == sb.errors,
                self@.evidences == sb.evidences,
                self@.deferred == sb.deferred,
                entries0.len() == self.entailment_deferred@.len(),
                entries0 == self.entailment_deferred@.map_values(|d: DeferredAssertion| d@),
                forall|j: int|
                    0 <= j < kept2@.len() ==> assertion_entailable(
                        (#[trigger] kept2@[j])@.assertion,
                        env,
                        sb.ts.len() as int,
                    ) && (forall|l: int|
                        0 <= l < kept2@[j]@.needs.len() ==> (#[trigger] kept2@[j]@.needs[l]).0
                            < kept2@[j]@.assertion.args.len()),
                wake_ent(sb.solved, entries0, sb.queue).0 == wake_ent(
                    sb.solved,
                    entries0.skip(i as int),
                    self.context.queue(),
                ).0,
                wake_ent(sb.solved, entries0, sb.queue).1 == kept2@.map_values(
                    |d: DeferredAssertion| d@,
                ) + wake_ent(sb.solved, entries0.skip(i as int), self.context.queue()).1,
            decreases self.entailment_deferred@.len() - i,
        {
            proof {
                assert(entries0.skip(i as int)[0] == entries0[i as int]);
                assert(entries0[i as int] == self.entailment_deferred@[i as int]@);
                assert(entries0.skip(i as int).drop_first() =~= entries0.skip(i as int + 1));
            }
            let index = self.entailment_deferred[i].index;
            let mut a = self.entailment_deferred[i].assertion.clone();
            let needs = clone_upairs(&self.entailment_deferred[i].needs_solution);
            let ghost needs0 = crate::entail::pairs_m(needs@);
            let ghost a0 = a@;
            proof {
                assert(needs0.skip(0) =~= needs0);
            }
            let mut needs2: Vec<(usize, usize)> = Vec::new();
            proof {
                assert(crate::entail::pairs_m(needs2@) =~= Seq::<(nat, nat)>::empty());
            }
            let mut j: usize = 0;
            while j < needs.len()
                invariant
                    self.wf(),
                    j <= needs@.len(),
                    needs0.len() == needs@.len(),
                    needs0 == crate::entail::pairs_m(needs@),
                    a.arguments@.len() == a0.args.len(),
                    a.name@ == a0.name,
                    crate::ty::assert_m_wf(a@, sb.ts.len() as int),
                    forall|l: int|
                        0 <= l < needs0.len() ==> (#[trigger] needs0[l]).0 < a0.args.len(),
                    wake_needs(sb.solved, a0, needs0).0 == wake_needs(
                        sb.solved,
                        a@,
                        needs0.skip(j as int),
                    ).0,
                    forall|l: int|
                        0 <= l < crate::entail::pairs_m(needs2@).len()
                            ==> (#[trigger] crate::entail::pairs_m(needs2@)[l]).0 < a0.args.len(),
                    wake_needs(sb.solved, a0, needs0).1 == crate::entail::pairs_m(needs2@)
                        + wake_needs(sb.solved, a@, needs0.skip(j as int)).1,
                decreases needs@.len() - j,
            {
                proof {
                    assert(needs0.skip(j as int)[0] == needs0[j as int]);
                    assert(needs0[j as int] == (needs@[j as int].0 as nat,
                    needs@[j as int].1 as nat));
                    assert(needs0.skip(j as int).drop_first() =~= needs0.skip(j as int + 1));
                }
                let (idx, v) = needs[j];
                let sol: Option<TypeId> = match self.unification_solved.get(v) {
                    Some(t) => Some(*t),
                    None => None,
                };
                match sol {
                    Some(t) => {
                        let ghost apre = a@;
                        a.arguments.set(idx, t);
                        proof {
                            assert(ids_m(a.arguments@) =~= apre.args.update(idx as int, t@));
                        }
                    },
                    None => {
                        let ghost n2pre = crate::entail::pairs_m(needs2@);
                        needs2.push((idx, v));
                        proof {
                            assert(crate::entail::pairs_m(needs2@) =~= n2pre.push(
                                (idx as nat, v as nat),
                            ));
                            let rest = wake_needs(sb.solved, a@, needs0.skip(j as int + 1));
                            assert(n2pre + (seq![(idx as nat, v as nat)] + rest.1) =~= (n2pre
                                + seq![(idx as nat, v as nat)]) + rest.1);
                            assert(n2pre.push((idx as nat, v as nat)) =~= n2pre + seq![
                                (idx as nat, v as nat),
                            ]);
                        }
                    },
                }
                j = j + 1;
            }
            proof {
                assert(needs0.skip(needs@.len() as int) =~= Seq::<(nat, nat)>::empty());
                assert(crate::entail::pairs_m(needs2@) + Seq::<(nat, nat)>::empty()
                    =~= crate::entail::pairs_m(needs2@));
            }
            proof {
                assert(assertion_entailable(entries0[i as int].assertion, env, sb.ts.len() as int));
                assert(a@.name == entries0[i as int].assertion.name);
                assert(a@.args.len() == entries0[i as int].assertion.args.len());
                assert(assertion_entailable(a@, env, sb.ts.len() as int));
            }
            if needs2.len() == 0 {
                self.context.push_constraint(Constraint::ClassEntail(index, a));
            } else {
                let ghost kept2_pre = kept2@.map_values(|d: DeferredAssertion| d@);
                let entry = DeferredAssertion { index, assertion: a, needs_solution: needs2 };
                let ghost entrym = entry@;
                kept2.push(entry);
                proof {
                    assert(kept2@.map_values(|d: DeferredAssertion| d@) =~= kept2_pre.push(
                        entrym,
                    ));
                    let rest = wake_ent(
                        sb.solved,
                        entries0.skip(i as int + 1),
                        self.context.queue(),
                    );
                    assert(kept2_pre + (seq![entrym] + rest.1) =~= (kept2_pre + seq![entrym])
                        + rest.1);
                    assert(kept2_pre.push(entrym) =~= kept2_pre + seq![entrym]);
                }
            }
            i = i + 1;
        }
        proof {
            assert(entries0.skip(self.entailment_deferred@.len() as int) =~= Seq::<
                DeferredM,
            >::empty());
            assert(kept2@.map_values(|d: DeferredAssertion| d@) + Seq::<DeferredM>::empty()
                =~= kept2@.map_values(|d: DeferredAssertion| d@));
        }
        self.entailment_deferred = kept2;
    }

    /// One pass of the solver loop: drain the queue (phase A), then wake
    /// parked pairs and parked assertions (phase B), exactly as
    /// [`step_spec`] says.
    pub fn step(&mut self)
        requires
            old(self).wf(),
        ensures
            final(self).wf(),
            final(self)@ == step_spec(old(self).context.environment, old(self)@),
            final(self).context.environment == old(self).context.environment,
            final(self).context.exprs() == old(self).context.exprs(),
    {
        let ghost env = self.context.environment;
        let ghost m0 = self@;
        self.drain_phase();
        self.wake_deep_phase();
        self.wake_ent_phase();
        proof {
            assert(self@ == step_spec(env, m0));
        }
    }

    /// Repeats [`Self::step`] until the queue stays empty, up to the round
    /// budget; what remains queued or parked afterwards is diagnostic
    /// output.
    #[verifier::loop_isolation(false)]
    pub fn solve(&mut self)
        requires
            old(self).wf(),
        ensures
            final(self).wf(),
            final(self)@ == solve_spec(
                old(self).context.environment,
                old(self)@,
                SOLVE_LIMIT as nat,
            ),
    {
        let ghost env = self.context.environment;
        let ghost m0 = self@;
        let mut rounds: u64 = SOLVE_LIMIT;
        loop
            invariant
                self.wf(),
                self.context.environment == env,
                rounds <= SOLVE_LIMIT,
                solve_spec(env, m0, SOLVE_LIMIT as nat) == solve_spec(env, self@, rounds as nat),
            decreases rounds,
        {
            if rounds == 0 {
                break;
            }
            self.step();
            rounds = rounds - 1;
            if self.context.constraints_empty() {
                break;
            }
        }
    }
}

} // verus!

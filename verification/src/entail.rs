//! Entailment: proving a class assertion from the instance database.
//!
//! The decision procedure first checks solvability through functional
//! dependencies: only the argument positions a dependency's domain names
//! (or all positions, for a class without dependencies) must be concrete,
//! and an assertion still carrying unification variables there is deferred.
//! It then walks the class's instances in declaration order, matching the
//! instance head against the assertion one-sidedly: instance variables are
//! pattern wildcards, assertion unification variables are permissive, and
//! concrete shapes must agree.  A matching instance yields evidence — a
//! dictionary whose leaves are the markers of the instance's dependency
//! obligations — after the accumulated bindings are substituted into the
//! head and the dependencies, any unbound instance variable generalizing to
//! a fresh unification variable.
//!
//! Matching chases bindings, which on a pathological instance database
//! could go on forever; a fixed step budget ([`MATCH_LIMIT`]) defends
//! against that, and running out of budget counts as a mismatch.  The
//! budget is part of the stated contracts, so the executable code agrees
//! with them exactly.

use vstd::prelude::*;
use crate::context::{assertion_entailable, fundeps_fit, instances_ok, insts_m, Context,
    Environment};
use crate::names::NameMap;
use crate::ty::{clone_ids, ids_below, ids_m, ty_m_wf, types_wf, AssertM, Assertion, FundepM,
    InstM, Instance, Type, TypeId, TypeM};

verus! {

// ---------------------------------------------------------------------------
// Results.
// ---------------------------------------------------------------------------

/// Runtime evidence for a solved obligation: a dictionary whose leaves name
/// the markers of dependency obligations.
#[derive(Debug)]
pub enum Evidence {
    Dictionary { dependencies: Vec<usize> },
}

impl Evidence {
    /// The dependency markers the dictionary holds.
    pub open spec fn view(self) -> Seq<nat> {
        match self {
            Evidence::Dictionary { dependencies } => dependencies@.map_values(
                |m: usize| m as nat,
            ),
        }
    }
}

#[derive(Debug)]
pub enum EntailResult {
    /// The assertion matches an instance with no outstanding dependencies.
    Solved { evidence: Evidence, instance_assertion: Assertion },
    /// The assertion matches an instance whose dependencies must themselves
    /// be entailed, each under the paired marker.
    Depends {
        evidence: Evidence,
        instance_assertion: Assertion,
        instance_dependencies: Vec<(usize, Assertion)>,
    },
    /// Cannot be decided now; the listed `(argument position, unification
    /// variable)` pairs must be solved first.  An empty list means no
    /// instance matched.
    Deferred { needs_solution: Vec<(usize, usize)> },
}

/// Model of an [`EntailResult`].
pub ghost enum EntailResultM {
    Solved { evidence: Seq<nat>, instance_assertion: AssertM },
    Depends {
        evidence: Seq<nat>,
        instance_assertion: AssertM,
        instance_dependencies: Seq<(nat, AssertM)>,
    },
    Deferred { needs_solution: Seq<(nat, nat)> },
}

/// The models of a list of `(position, variable)` pairs.
pub open spec fn pairs_m(s: Seq<(usize, usize)>) -> Seq<(nat, nat)> {
    s.map_values(|p: (usize, usize)| (p.0 as nat, p.1 as nat))
}

impl EntailResult {
    pub open spec fn view(self) -> EntailResultM {
        match self {
            EntailResult::Solved { evidence, instance_assertion } => EntailResultM::Solved {
                evidence: evidence@,
                instance_assertion: instance_assertion@,
            },
            EntailResult::Depends { evidence, instance_assertion, instance_dependencies } => EntailResultM::Depends {
                evidence: evidence@,
                instance_assertion: instance_assertion@,
                instance_dependencies: instance_dependencies@.map_values(
                    |p: (usize, Assertion)| (p.0 as nat, p.1@),
                ),
            },
            EntailResult::Deferred { needs_solution } => EntailResultM::Deferred {
                needs_solution: pairs_m(needs_solution@),
            },
        }
    }
}

// ---------------------------------------------------------------------------
// Solvability precheck via functional dependencies.
// ---------------------------------------------------------------------------

/// The unification variables among all argument positions, in order, for a
/// class without functional dependencies.
pub open spec fn ns_args(ts: Seq<TypeM>, args: Seq<nat>, i: nat) -> Seq<(nat, nat)>
    decreases args.len() - i,
{
    if i >= args.len() {
        Seq::<(nat, nat)>::empty()
    } else {
        let rest = ns_args(ts, args, i + 1);
        if args[i as int] < ts.len() && (ts[args[i as int] as int] matches TypeM::Unification {
            name,
        }) {
            seq![(i, ts[args[i as int] as int]->Unification_name)] + rest
        } else {
            rest
        }
    }
}

/// Collects the unification variables at the listed domain positions,
/// skipping pairs already recorded.
pub open spec fn ns_domain(
    ts: Seq<TypeM>,
    args: Seq<nat>,
    dom: Seq<nat>,
    acc: Seq<(nat, nat)>,
) -> Seq<(nat, nat)>
    decreases dom.len(),
{
    if dom.len() == 0 {
        acc
    } else {
        let d = dom[0];
        let acc2 = if d < args.len() && args[d as int] < ts.len() && (ts[args[d as int] as int]
            matches TypeM::Unification { name }) {
            let p = (d, ts[args[d as int] as int]->Unification_name);
            if acc.contains(p) {
                acc
            } else {
                acc.push(p)
            }
        } else {
            acc
        };
        ns_domain(ts, args, dom.drop_first(), acc2)
    }
}

pub open spec fn ns_fundeps(
    ts: Seq<TypeM>,
    args: Seq<nat>,
    fds: Seq<FundepM>,
    acc: Seq<(nat, nat)>,
) -> Seq<(nat, nat)>
    decreases fds.len(),
{
    if fds.len() == 0 {
        acc
    } else {
        ns_fundeps(ts, args, fds.drop_first(), ns_domain(ts, args, fds[0].domain, acc))
    }
}

/// The `(argument position, unification variable)` pairs that must be
/// solved before the assertion can be decided: every position for a class
/// without functional dependencies, otherwise only the positions in some
/// dependency's domain.
pub open spec fn needs_solution_spec(ts: Seq<TypeM>, fds: Seq<FundepM>, a: AssertM) -> Seq<
    (nat, nat),
> {
    if fds.len() == 0 {
        ns_args(ts, a.args, 0)
    } else {
        ns_fundeps(ts, a.args, fds, Seq::<(nat, nat)>::empty())
    }
}

// ---------------------------------------------------------------------------
// One-sided matching, with a step budget.
// ---------------------------------------------------------------------------

/// The step budget for one instance-head match.  Matching does work
/// proportional to the terms' sizes, so real matches stay far below this;
/// only a binding chain that chases itself in a circle could reach it.
pub const MATCH_LIMIT: u64 = 1000000;

/// How one matching attempt can end: the substitution built so far rides
/// along in every case.
pub ghost enum MatchOutcome {
    Matched(Map<Seq<char>, nat>),
    Mismatch(Map<Seq<char>, nat>),
    Exhausted(Map<Seq<char>, nat>),
}

/// The work stack for matching two argument lists pairwise: the first pair
/// sits on top (at the end), and a surplus on either side is ignored.
pub open spec fn pair_stack(tas: Seq<nat>, uas: Seq<nat>) -> Seq<(nat, nat)> {
    let n = if tas.len() < uas.len() {
        tas.len()
    } else {
        uas.len()
    };
    Seq::<(nat, nat)>::new(n, |j: int| (tas[n - 1 - j], uas[n - 1 - j]))
}

/// One-sided matching as a worklist: the top pair of the stack is examined
/// and either settled or expanded.  The instance side is the pattern: its
/// variables bind (or chase their earlier binding); a unification variable
/// on the assertion side matches anything; concrete shapes must agree.
/// Each step burns one unit of fuel.
pub open spec fn match_work(
    ts: Seq<TypeM>,
    sub: Map<Seq<char>, nat>,
    stack: Seq<(nat, nat)>,
    fuel: nat,
) -> MatchOutcome
    decreases fuel,
{
    if fuel == 0 {
        MatchOutcome::Exhausted(sub)
    } else if stack.len() == 0 {
        MatchOutcome::Matched(sub)
    } else {
        let t = stack.last().0;
        let u = stack.last().1;
        let rest = stack.drop_last();
        if t < ts.len() && u < ts.len() {
            let tn = ts[t as int];
            let un = ts[u as int];
            if (tn matches TypeM::Constructor { name: a }) && (un matches TypeM::Constructor {
                name: b,
            }) {
                if tn->Constructor_name == un->Constructor_name {
                    match_work(ts, sub, rest, (fuel - 1) as nat)
                } else {
                    MatchOutcome::Mismatch(sub)
                }
            } else if (tn matches TypeM::Variable { name: n1, rank: r1 }) && (un
                matches TypeM::Variable { name: n2, rank: r2 }) && tn->Variable_name
                == un->Variable_name && tn->Variable_rank == un->Variable_rank {
                match_work(ts, sub, rest, (fuel - 1) as nat)
            } else if (tn matches TypeM::Unification { name: p }) && (un
                matches TypeM::Unification { name: q }) && tn->Unification_name
                == un->Unification_name {
                match_work(ts, sub, rest, (fuel - 1) as nat)
            } else if (tn is Function) && (un is Function) {
                if tn->Function_arguments.len() == un->Function_arguments.len() {
                    let stack2 = rest.push((tn->Function_result, un->Function_result))
                        + pair_stack(tn->Function_arguments, un->Function_arguments);
                    match_work(ts, sub, stack2, (fuel - 1) as nat)
                } else {
                    MatchOutcome::Mismatch(sub)
                }
            } else if (tn is Application) && (un is Application) {
                let stack2 = (rest + pair_stack(
                    tn->Application_arguments,
                    un->Application_arguments,
                )).push((tn->Application_function, un->Application_function));
                match_work(ts, sub, stack2, (fuel - 1) as nat)
            } else if tn is Variable {
                let name = tn->Variable_name;
                if sub.contains_key(name) {
                    match_work(ts, sub, rest.push((sub[name], u)), (fuel - 1) as nat)
                } else {
                    match_work(ts, sub.insert(name, u), rest, (fuel - 1) as nat)
                }
            } else if un is Unification {
                match_work(ts, sub, rest, (fuel - 1) as nat)
            } else {
                MatchOutcome::Mismatch(sub)
            }
        } else {
            MatchOutcome::Mismatch(sub)
        }
    }
}

/// Matching an instance head's arguments against an assertion's arguments,
/// under the fixed budget.
pub open spec fn match_capped(ts: Seq<TypeM>, tas: Seq<nat>, uas: Seq<nat>) -> MatchOutcome {
    match_work(ts, Map::<Seq<char>, nat>::empty(), pair_stack(tas, uas), MATCH_LIMIT as nat)
}

// ---------------------------------------------------------------------------
// Substituting-generalizing-free, mathematically: the accumulated bindings
// are substituted into a term of the matched instance; an instance variable
// not yet bound is mapped to a fresh unification variable, extending the
// substitution.
// ---------------------------------------------------------------------------

/// The generalizing traversal over one type: the arena, the substitution,
/// and the fresh counter are threaded through and the rebuilt position is
/// returned.
pub open spec fn sgf_ty(ts: Seq<TypeM>, sub: Map<Seq<char>, nat>, fresh: nat, t: nat) -> (
    Seq<TypeM>,
    Map<Seq<char>, nat>,
    nat,
    nat,
)
    decreases t, 2int, 0int, 0int,
{
    if t < ts.len() {
        match ts[t as int] {
            TypeM::Constructor { .. } => (ts, sub, fresh, t),
            TypeM::Variable { name, .. } => {
                if sub.contains_key(name) {
                    (ts, sub, fresh, sub[name])
                } else {
                    (
                        ts.push(TypeM::Unification { name: fresh }),
                        sub.insert(name, ts.len()),
                        crate::context::fresh_next(fresh),
                        ts.len(),
                    )
                }
            },
            TypeM::Unification { .. } => (ts, sub, fresh, t),
            TypeM::Function { arguments, result } => {
                let (ts1, sub1, f1, args2) = sgf_list(ts, sub, fresh, arguments, t);
                let (ts2, sub2, f2, r2) = if result < t {
                    sgf_ty(ts1, sub1, f1, result)
                } else {
                    (ts1, sub1, f1, result)
                };
                (
                    ts2.push(TypeM::Function { arguments: args2, result: r2 }),
                    sub2,
                    f2,
                    ts2.len(),
                )
            },
            TypeM::Application { function, arguments } => {
                let (ts1, sub1, f1, f2pos) = if function < t {
                    sgf_ty(ts, sub, fresh, function)
                } else {
                    (ts, sub, fresh, function)
                };
                let (ts2, sub2, f2, args2) = sgf_list(ts1, sub1, f1, arguments, t);
                (
                    ts2.push(TypeM::Application { function: f2pos, arguments: args2 }),
                    sub2,
                    f2,
                    ts2.len(),
                )
            },
            TypeM::Forall { variables, rank, ty } => {
                let (ts1, sub1, f1, ty2) = if ty < t {
                    sgf_ty(ts, sub, fresh, ty)
                } else {
                    (ts, sub, fresh, ty)
                };
                (ts1.push(TypeM::Forall { variables, rank, ty: ty2 }), sub1, f1, ts1.len())
            },
            TypeM::Constrained { assertions, ty } => {
                let (ts1, sub1, f1, as2) = sgf_asserts(ts, sub, fresh, assertions, t);
                let (ts2, sub2, f2, ty2) = if ty < t {
                    sgf_ty(ts1, sub1, f1, ty)
                } else {
                    (ts1, sub1, f1, ty)
                };
                (
                    ts2.push(TypeM::Constrained { assertions: as2, ty: ty2 }),
                    sub2,
                    f2,
                    ts2.len(),
                )
            },
        }
    } else {
        (ts, sub, fresh, t)
    }
}

pub open spec fn sgf_list(
    ts: Seq<TypeM>,
    sub: Map<Seq<char>, nat>,
    fresh: nat,
    args: Seq<nat>,
    bound: nat,
) -> (Seq<TypeM>, Map<Seq<char>, nat>, nat, Seq<nat>)
    decreases bound, 1int, 0int, args.len(),
{
    if args.len() == 0 {
        (ts, sub, fresh, Seq::<nat>::empty())
    } else {
        let (ts1, sub1, f1, a2) = if args[0] < bound {
            sgf_ty(ts, sub, fresh, args[0])
        } else {
            (ts, sub, fresh, args[0])
        };
        let (ts2, sub2, f2, rest) = sgf_list(ts1, sub1, f1, args.drop_first(), bound);
        (ts2, sub2, f2, seq![a2] + rest)
    }
}

pub open spec fn sgf_asserts(
    ts: Seq<TypeM>,
    sub: Map<Seq<char>, nat>,
    fresh: nat,
    asserts: Seq<AssertM>,
    bound: nat,
) -> (Seq<TypeM>, Map<Seq<char>, nat>, nat, Seq<AssertM>)
    decreases bound, 1int, 1int, asserts.len(),
{
    if asserts.len() == 0 {
        (ts, sub, fresh, Seq::<AssertM>::empty())
    } else {
        let (ts1, sub1, f1, args2) = sgf_list(ts, sub, fresh, asserts[0].args, bound);
        let a2 = AssertM { name: asserts[0].name, args: args2 };
        let (ts2, sub2, f2, rest) = sgf_asserts(ts1, sub1, f1, asserts.drop_first(), bound);
        (ts2, sub2, f2, seq![a2] + rest)
    }
}

/// Generalizing substitution over a whole assertion's arguments.  The
/// argument positions are not children of one node, so this stands outside
/// the traversal's own recursion.
pub open spec fn sgf_args_top(
    ts: Seq<TypeM>,
    sub: Map<Seq<char>, nat>,
    fresh: nat,
    args: Seq<nat>,
) -> (Seq<TypeM>, Map<Seq<char>, nat>, nat, Seq<nat>)
    decreases args.len(),
{
    if args.len() == 0 {
        (ts, sub, fresh, Seq::<nat>::empty())
    } else {
        let (ts1, sub1, f1, a2) = sgf_ty(ts, sub, fresh, args[0]);
        let (ts2, sub2, f2, rest) = sgf_args_top(ts1, sub1, f1, args.drop_first());
        (ts2, sub2, f2, seq![a2] + rest)
    }
}

pub open spec fn sgf_assert_top(
    ts: Seq<TypeM>,
    sub: Map<Seq<char>, nat>,
    fresh: nat,
    a: AssertM,
) -> (Seq<TypeM>, Map<Seq<char>, nat>, nat, AssertM) {
    let (ts1, sub1, f1, args2) = sgf_args_top(ts, sub, fresh, a.args);
    (ts1, sub1, f1, AssertM { name: a.name, args: args2 })
}

/// Substitutes into each dependency, drawing that dependency's marker
/// first, exactly in program order.
pub open spec fn sgf_deps(
    ts: Seq<TypeM>,
    sub: Map<Seq<char>, nat>,
    fresh: nat,
    deps: Seq<AssertM>,
) -> (Seq<TypeM>, Map<Seq<char>, nat>, nat, Seq<(nat, AssertM)>)
    decreases deps.len(),
{
    if deps.len() == 0 {
        (ts, sub, fresh, Seq::<(nat, AssertM)>::empty())
    } else {
        let marker = fresh;
        let f1 = crate::context::fresh_next(fresh);
        let (ts2, sub2, f2, d2) = sgf_assert_top(ts, sub, f1, deps[0]);
        let (ts3, sub3, f3, rest) = sgf_deps(ts2, sub2, f2, deps.drop_first());
        (ts3, sub3, f3, seq![(marker, d2)] + rest)
    }
}

// ---------------------------------------------------------------------------
// The whole decision procedure, mathematically.
// ---------------------------------------------------------------------------

/// What `entail` does to the arena and the fresh counter, and what it
/// returns.
pub ghost struct EntailOut {
    pub ts: Seq<TypeM>,
    pub fresh: nat,
    pub result: EntailResultM,
}

/// The instance walk: instances are tried in declaration order; the first
/// whose head matches decides.  No match leaves the assertion deferred with
/// nothing to wait for.
pub open spec fn entail_insts(ts: Seq<TypeM>, insts: Seq<InstM>, fresh: nat, a: AssertM) -> EntailOut
    decreases insts.len(),
{
    if insts.len() == 0 {
        EntailOut {
            ts,
            fresh,
            result: EntailResultM::Deferred { needs_solution: Seq::<(nat, nat)>::empty() },
        }
    } else {
        match match_capped(ts, insts[0].assertion.args, a.args) {
            MatchOutcome::Matched(sub) => {
                let (ts1, sub1, f1, head) = sgf_assert_top(ts, sub, fresh, insts[0].assertion);
                if insts[0].dependencies.len() == 0 {
                    EntailOut {
                        ts: ts1,
                        fresh: f1,
                        result: EntailResultM::Solved {
                            evidence: Seq::<nat>::empty(),
                            instance_assertion: head,
                        },
                    }
                } else {
                    let (ts2, sub2, f2, pairs) = sgf_deps(ts1, sub1, f1, insts[0].dependencies);
                    EntailOut {
                        ts: ts2,
                        fresh: f2,
                        result: EntailResultM::Depends {
                            evidence: pairs.map_values(|p: (nat, AssertM)| p.0),
                            instance_assertion: head,
                            instance_dependencies: pairs,
                        },
                    }
                }
            },
            _ => entail_insts(ts, insts.drop_first(), fresh, a),
        }
    }
}

/// The full decision procedure for one assertion.
pub open spec fn entail_spec(
    ts: Seq<TypeM>,
    fds: Seq<FundepM>,
    insts: Seq<InstM>,
    fresh: nat,
    a: AssertM,
) -> EntailOut {
    let ns = needs_solution_spec(ts, fds, a);
    if ns.len() > 0 {
        EntailOut { ts, fresh, result: EntailResultM::Deferred { needs_solution: ns } }
    } else {
        entail_insts(ts, insts, fresh, a)
    }
}

// ---------------------------------------------------------------------------
// Executable code.
// ---------------------------------------------------------------------------

/// The model of a pair stack.
pub open spec fn stack_m(s: Seq<(TypeId, TypeId)>) -> Seq<(nat, nat)> {
    s.map_values(|p: (TypeId, TypeId)| (p.0@, p.1@))
}

/// Both components of every stacked pair point into the arena.
pub open spec fn stack_valid(s: Seq<(nat, nat)>, tlen: int) -> bool {
    forall|i: int| 0 <= i < s.len() ==> (#[trigger] s[i]).0 < tlen && s[i].1 < tlen
}

/// Whether the pair is already recorded.
#[verifier::loop_isolation(false)]
fn pair_in(v: &Vec<(usize, usize)>, a: usize, b: usize) -> (r: bool)
    ensures
        r == pairs_m(v@).contains((a as nat, b as nat)),
{
    let mut i: usize = 0;
    while i < v.len()
        invariant
            i <= v@.len(),
            forall|j: int| 0 <= j < i ==> pairs_m(v@)[j] != (a as nat, b as nat),
        decreases v@.len() - i,
    {
        if v[i].0 == a && v[i].1 == b {
            proof {
                assert(pairs_m(v@)[i as int] == (a as nat, b as nat));
            }
            return true;
        }
        proof {
            assert(pairs_m(v@)[i as int] == (v@[i as int].0 as nat, v@[i as int].1 as nat));
        }
        i = i + 1;
    }
    proof {
        if pairs_m(v@).contains((a as nat, b as nat)) {
            let j = choose|j: int|
                0 <= j < pairs_m(v@).len() && pairs_m(v@)[j] == (a as nat, b as nat);
            assert(false);
        }
    }
    false
}

/// Appends pairs so that the first pair of the lists ends on top of the
/// stack.
#[verifier::loop_isolation(false)]
fn push_pair_stack(stack: &mut Vec<(TypeId, TypeId)>, tas: &Vec<TypeId>, uas: &Vec<TypeId>)
    ensures
        stack_m(final(stack)@) == stack_m(old(stack)@) + pair_stack(ids_m(tas@), ids_m(uas@)),
{
    let n = if tas.len() < uas.len() {
        tas.len()
    } else {
        uas.len()
    };
    let ghost target = pair_stack(ids_m(tas@), ids_m(uas@));
    proof {
        assert(target.len() == n);
    }
    let mut k: usize = 0;
    while k < n
        invariant
            k <= n,
            n <= tas@.len(),
            n <= uas@.len(),
            target == pair_stack(ids_m(tas@), ids_m(uas@)),
            target.len() == n,
            stack@.len() == old(stack)@.len() + k,
            forall|j: int|
                0 <= j < old(stack)@.len() ==> stack@[j] == old(stack)@[j],
            forall|j: int|
                0 <= j < k ==> #[trigger] stack_m(stack@)[old(stack)@.len() + j] == target[j],
        decreases n - k,
    {
        let ghost pre = stack@;
        stack.push((tas[n - 1 - k], uas[n - 1 - k]));
        proof {
            assert forall|j: int|
                0 <= j < k + 1 implies #[trigger] stack_m(stack@)[old(stack)@.len() + j]
                == target[j] by {
                let idx = old(stack)@.len() + j;
                assert(stack_m(stack@)[idx] == (stack@[idx].0@, stack@[idx].1@));
                if j < k {
                    assert(stack@[idx] == pre[idx]);
                    assert(stack_m(pre)[idx] == (pre[idx].0@, pre[idx].1@));
                    assert(stack_m(pre)[idx] == target[j]);
                } else {
                    assert(target[k as int] == (ids_m(tas@)[n - 1 - k as int], ids_m(uas@)[n - 1
                        - k as int]));
                    assert(ids_m(tas@)[n - 1 - k as int] == tas@[n - 1 - k as int]@);
                    assert(ids_m(uas@)[n - 1 - k as int] == uas@[n - 1 - k as int]@);
                    assert(stack@[idx] == (tas@[n - 1 - k as int], uas@[n - 1 - k as int]));
                }
            }
        }
        k = k + 1;
    }
    proof {
        assert forall|i: int|
            0 <= i < old(stack)@.len() + n implies #[trigger] stack_m(stack@)[i] == (stack_m(
            old(stack)@,
        ) + target)[i] by {
            if i < old(stack)@.len() {
                assert(stack@[i] == old(stack)@[i]);
                assert(stack_m(stack@)[i] == (stack@[i].0@, stack@[i].1@));
                assert(stack_m(old(stack)@)[i] == (old(stack)@[i].0@, old(stack)@[i].1@));
            } else {
                let j = i - old(stack)@.len();
                assert(stack_m(stack@)[old(stack)@.len() + j] == target[j]);
            }
        }
        assert(stack_m(stack@) =~= stack_m(old(stack)@) + target);
    }
}

impl Context {
    /// The `(position, variable)` pairs that must be solved before this
    /// assertion can be decided.
    #[verifier::loop_isolation(false)]
    fn needs_solution(&self, assertion: &Assertion) -> (r: Vec<(usize, usize)>)
        requires
            self.wf(),
            assertion_entailable(assertion@, self.environment, self.types().len() as int),
        ensures
            pairs_m(r@) == needs_solution_spec(
                self.types(),
                self.environment.classes@[assertion.name@]@,
                assertion@,
            ),
            forall|j: int| 0 <= j < r@.len() ==> (#[trigger] r@[j]).0 < assertion.arguments@.len(),
        decreases 0nat,
    {
        let ghost ts = self.types();
        let ghost am = assertion@.args;
        let class = match self.environment.classes.get(&assertion.name) {
            Some(c) => c,
            None => {
                proof {
                    assert(false);
                }
                return Vec::new();
            },
        };
        let ghost fdsm = class@;
        let mut out: Vec<(usize, usize)> = Vec::new();
        if class.functional_dependencies.len() == 0 {
            let mut i: usize = 0;
            proof {
                assert(pairs_m(out@) =~= Seq::<(nat, nat)>::empty());
            }
            while i < assertion.arguments.len()
                invariant
                    i <= assertion.arguments@.len(),
                    ns_args(ts, am, 0) == pairs_m(out@) + ns_args(ts, am, i as nat),
                    forall|j: int|
                        0 <= j < out@.len() ==> (#[trigger] out@[j]).0 < assertion.arguments@.len(),
                decreases assertion.arguments@.len() - i,
            {
                proof {
                    assert(am[i as int] == assertion.arguments@[i as int]@);
                    assert(am[i as int] < ts.len());
                    assert(ts[am[i as int] as int] == self.volatile.type_arena@[am[i as int] as int]@);
                }
                let ghost out_pre = pairs_m(out@);
                match self.volatile.type_arena.get(assertion.arguments[i]) {
                    Type::Unification { name } => {
                        out.push((i, *name));
                        proof {
                            assert(pairs_m(out@) =~= out_pre + seq![
                                (i as nat, ts[am[i as int] as int]->Unification_name),
                            ]);
                            assert(out_pre + (seq![
                                (i as nat, ts[am[i as int] as int]->Unification_name),
                            ] + ns_args(ts, am, i as nat + 1)) =~= (out_pre + seq![
                                (i as nat, ts[am[i as int] as int]->Unification_name),
                            ]) + ns_args(ts, am, i as nat + 1));
                        }
                    },
                    _ => {},
                }
                i = i + 1;
            }
            proof {
                assert(ns_args(ts, am, assertion.arguments@.len() as nat) == Seq::<(
                    nat,
                    nat,
                )>::empty());
                assert(pairs_m(out@) + Seq::<(nat, nat)>::empty() =~= pairs_m(out@));
            }
        } else {
            let mut i: usize = 0;
            proof {
                assert(fdsm.skip(0) =~= fdsm);
                assert(pairs_m(out@) =~= Seq::<(nat, nat)>::empty());
            }
            while i < class.functional_dependencies.len()
                invariant
                    i <= class.functional_dependencies@.len(),
                    fdsm == class@,
                    fdsm.len() == class.functional_dependencies@.len(),
                    ns_fundeps(ts, am, fdsm, Seq::<(nat, nat)>::empty()) == ns_fundeps(
                        ts,
                        am,
                        fdsm.skip(i as int),
                        pairs_m(out@),
                    ),
                    forall|j: int|
                        0 <= j < out@.len() ==> (#[trigger] out@[j]).0 < assertion.arguments@.len(),
                decreases class.functional_dependencies@.len() - i,
            {
                proof {
                    assert(fdsm.skip(i as int)[0] == fdsm[i as int]);
                    assert(fdsm[i as int] == class.functional_dependencies@[i as int]@);
                    assert(fdsm.skip(i as int).drop_first() =~= fdsm.skip(i as int + 1));
                }
                let ghost domm = fdsm[i as int].domain;
                let ghost acc0 = pairs_m(out@);
                let mut j: usize = 0;
                proof {
                    assert(domm.skip(0) =~= domm);
                }
                while j < class.functional_dependencies[i].domain.len()
                    invariant
                        i < class.functional_dependencies@.len(),
                        j <= class.functional_dependencies@[i as int].domain@.len(),
                        domm == fdsm[i as int].domain,
                        domm.len() == class.functional_dependencies@[i as int].domain@.len(),
                        ns_domain(ts, am, domm, acc0) == ns_domain(
                            ts,
                            am,
                            domm.skip(j as int),
                            pairs_m(out@),
                        ),
                        forall|jj: int|
                            0 <= jj < out@.len() ==> (#[trigger] out@[jj]).0
                                < assertion.arguments@.len(),
                    decreases class.functional_dependencies@[i as int].domain@.len() - j,
                {
                    proof {
                        assert(domm.skip(j as int)[0] == domm[j as int]);
                        assert(domm[j as int] == class.functional_dependencies@[i as int].domain@[
                            j as int] as nat);
                        assert(domm.skip(j as int).drop_first() =~= domm.skip(j as int + 1));
                    }
                    let d = class.functional_dependencies[i].domain[j];
                    proof {
                        assert(domm[j as int] < am.len());
                        assert(d < assertion.arguments@.len());
                        assert(am[d as int] == assertion.arguments@[d as int]@);
                        assert(am[d as int] < ts.len());
                        assert(ts[am[d as int] as int] == self.volatile.type_arena@[am[
                            d as int] as int]@);
                    }
                    let ghost out_pre = pairs_m(out@);
                    match self.volatile.type_arena.get(assertion.arguments[d]) {
                        Type::Unification { name } => {
                            if !pair_in(&out, d, *name) {
                                out.push((d, *name));
                                proof {
                                    assert(pairs_m(out@) =~= out_pre.push(
                                        (d as nat, ts[am[d as int] as int]->Unification_name),
                                    ));
                                }
                            }
                        },
                        _ => {},
                    }
                    j = j + 1;
                }
                proof {
                    assert(domm.skip(
                        class.functional_dependencies@[i as int].domain@.len() as int,
                    ) =~= Seq::<nat>::empty());
                }
                i = i + 1;
            }
            proof {
                assert(fdsm.skip(class.functional_dependencies@.len() as int) =~= Seq::<
                    FundepM,
                >::empty());
            }
        }
        out
    }

    /// Matches an instance head's arguments against an assertion's
    /// arguments, extending `subst` with the bindings made along the way.
    /// Returns whether the match succeeded under the step budget.
    #[verifier::loop_isolation(false)]
    fn match_arguments(
        &self,
        subst: &mut NameMap<TypeId>,
        t_args: &Vec<TypeId>,
        u_args: &Vec<TypeId>,
    ) -> (r: bool)
        requires
            self.wf(),
            old(subst).wf(),
            crate::context::bindings_valid(old(subst)@, self.types().len() as int),
            ids_below(ids_m(t_args@), self.types().len() as int),
            ids_below(ids_m(u_args@), self.types().len() as int),
        ensures
            final(subst).wf(),
            crate::context::bindings_valid(final(subst)@, self.types().len() as int),
            r == (match_work(
                self.types(),
                crate::infer::vals_m(old(subst)@),
                pair_stack(ids_m(t_args@), ids_m(u_args@)),
                MATCH_LIMIT as nat,
            ) is Matched),
            r ==> match_work(
                self.types(),
                crate::infer::vals_m(old(subst)@),
                pair_stack(ids_m(t_args@), ids_m(u_args@)),
                MATCH_LIMIT as nat,
            ) == MatchOutcome::Matched(crate::infer::vals_m(final(subst)@)),
    {
        let ghost ts = self.types();
        let ghost sub0 = crate::infer::vals_m(old(subst)@);
        let mut stack: Vec<(TypeId, TypeId)> = Vec::new();
        push_pair_stack(&mut stack, t_args, u_args);
        let ghost stack0 = stack_m(stack@);
        proof {
            assert(stack_m(Seq::<(TypeId, TypeId)>::empty()) =~= Seq::<(nat, nat)>::empty());
            assert(stack0 == pair_stack(ids_m(t_args@), ids_m(u_args@)));
            assert(stack_valid(stack0, ts.len() as int));
        }
        let mut fuel: u64 = MATCH_LIMIT;
        loop
            invariant
                subst.wf(),
                crate::context::bindings_valid(subst@, ts.len() as int),
                stack_valid(stack_m(stack@), ts.len() as int),
                fuel <= MATCH_LIMIT,
                match_work(ts, sub0, stack0, MATCH_LIMIT as nat) == match_work(
                    ts,
                    crate::infer::vals_m(subst@),
                    stack_m(stack@),
                    fuel as nat,
                ),
            decreases fuel,
        {
            if fuel == 0 {
                return false;
            }
            let ghost stcur = stack_m(stack@);
            let ghost subcur = crate::infer::vals_m(subst@);
            let (t, u) = match stack.pop() {
                None => {
                    proof {
                        assert(stcur.len() == 0);
                    }
                    return true;
                },
                Some(p) => p,
            };
            proof {
                assert(stcur.last() == (t@, u@));
                assert(stack_m(stack@) =~= stcur.drop_last());
                assert(t@ < ts.len());
                assert(u@ < ts.len());
                assert(ts[t@ as int] == self.volatile.type_arena@[t@ as int]@);
                assert(ts[u@ as int] == self.volatile.type_arena@[u@ as int]@);
            }
            let ghost rest = stcur.drop_last();
            let fuel_next = fuel - 1;
            match (self.volatile.type_arena.get(t), self.volatile.type_arena.get(u)) {
                (Type::Constructor { name: a }, Type::Constructor { name: b }) => {
                    if !(*a == *b) {
                        return false;
                    }
                },
                (
                    Type::Variable { name: n1, rank: r1 },
                    Type::Variable { name: n2, rank: r2 },
                ) => {
                    if *n1 == *n2 && *r1 == *r2 {
                        // identical bound variables: settled
                    } else {
                        // the pattern variable is a wildcard
                        let n1c = n1.clone();
                        let ghost keym = n1c@;
                        match subst.get(&n1c) {
                            Some(b) => {
                                let b = *b;
                                stack.push((b, u));
                                proof {
                                    assert(stack_m(stack@) =~= rest.push((subcur[keym], u@)));
                                }
                            },
                            None => {
                                let ghost vpre = subst@;
                                subst.insert(n1c, u);
                                proof {
                                    crate::infer::lemma_vals_insert(vpre, keym, u);
                                }
                            },
                        }
                    }
                },
                (Type::Unification { name: p }, Type::Unification { name: q }) => {
                    // identical, or permissive against the assertion side
                },
                (
                    Type::Function { arguments: ta, result: tr },
                    Type::Function { arguments: ua, result: ur },
                ) => {
                    if ta.len() != ua.len() {
                        return false;
                    }
                    let tr = *tr;
                    let ur = *ur;
                    let ta = clone_ids(ta);
                    let ua = clone_ids(ua);
                    stack.push((tr, ur));
                    proof {
                        assert(stack_m(stack@) =~= rest.push((tr@, ur@)));
                    }
                    push_pair_stack(&mut stack, &ta, &ua);
                },
                (
                    Type::Application { function: tf, arguments: ta },
                    Type::Application { function: uf, arguments: ua },
                ) => {
                    let tf = *tf;
                    let uf = *uf;
                    let ta = clone_ids(ta);
                    let ua = clone_ids(ua);
                    push_pair_stack(&mut stack, &ta, &ua);
                    stack.push((tf, uf));
                    proof {
                        assert(stack_m(stack@) =~= (rest + pair_stack(ids_m(ta@), ids_m(ua@)))
                            .push((tf@, uf@)));
                    }
                },
                (Type::Variable { name, .. }, _) => {
                    let nc = name.clone();
                    let ghost keym = nc@;
                    match subst.get(&nc) {
                        Some(b) => {
                            let b = *b;
                            stack.push((b, u));
                            proof {
                                assert(stack_m(stack@) =~= rest.push((subcur[keym], u@)));
                            }
                        },
                        None => {
                            let ghost vpre = subst@;
                            subst.insert(nc, u);
                            proof {
                                crate::infer::lemma_vals_insert(vpre, keym, u);
                            }
                        },
                    }
                },
                (_, Type::Unification { .. }) => {
                    // permissive placeholder: the outer solver unifies later
                },
                (_, _) => {
                    return false;
                },
            }
            fuel = fuel_next;
        }
    }

    /// Substitutes the accumulated bindings into the type at `t_idx`,
    /// mapping any instance variable not yet bound to a fresh unification
    /// variable and extending the substitution.  Compound nodes are rebuilt
    /// as fresh allocations.
    fn generalize(&mut self, t_idx: TypeId, map: &mut NameMap<TypeId>) -> (r: TypeId)
        requires
            old(self).wf(),
            t_idx@ < old(self).types().len(),
            old(map).wf(),
            crate::context::bindings_valid(old(map)@, old(self).types().len() as int),
        ensures
            final(self).wf(),
            final(map).wf(),
            crate::context::bindings_valid(final(map)@, final(self).types().len() as int),
            final(self).types() == sgf_ty(
                old(self).types(),
                crate::infer::vals_m(old(map)@),
                old(self).fresh as nat,
                t_idx@,
            ).0,
            crate::infer::vals_m(final(map)@) == sgf_ty(
                old(self).types(),
                crate::infer::vals_m(old(map)@),
                old(self).fresh as nat,
                t_idx@,
            ).1,
            final(self).fresh as nat == sgf_ty(
                old(self).types(),
                crate::infer::vals_m(old(map)@),
                old(self).fresh as nat,
                t_idx@,
            ).2,
            r@ == sgf_ty(
                old(self).types(),
                crate::infer::vals_m(old(map)@),
                old(self).fresh as nat,
                t_idx@,
            ).3,
            final(self).types().len() >= old(self).types().len(),
            forall|i: int|
                0 <= i < old(self).types().len() ==> final(self).types()[i] == old(self).types()[i],
            r@ < final(self).types().len(),
            old(self).fresh <= final(self).fresh,
            final(self).exprs() == old(self).exprs(),
            final(self).environment == old(self).environment,
            final(self).queue() == old(self).queue(),
        decreases t_idx@, 2nat, 0nat, 0nat,
    {
        let ghost ts = self.types();
        proof {
            assert(ts[t_idx@ as int] == self.volatile.type_arena@[t_idx@ as int]@);
            assert(ty_m_wf(ts[t_idx@ as int], t_idx@ as int));
        }
        let node = self.volatile.type_arena.get(t_idx);
        match node {
            Type::Constructor { .. } => t_idx,
            Type::Variable { name, .. } => {
                let nc = name.clone();
                let ghost keym = nc@;
                match map.get(&nc) {
                    Some(id) => *id,
                    None => {
                        let u = self.fresh_unification();
                        proof {
                            crate::ty::lemma_types_wf_push(
                                ts,
                                TypeM::Unification { name: old(self).fresh as nat },
                            );
                        }
                        let ghost vpre = map@;
                        map.insert(nc, u);
                        proof {
                            crate::infer::lemma_vals_insert(vpre, keym, u);
                        }
                        u
                    },
                }
            },
            Type::Unification { .. } => t_idx,
            Type::Function { arguments, result } => {
                let result = *result;
                let arguments = clone_ids(arguments);
                let args2 = self.generalize_id_list(&arguments, map, Ghost(t_idx@));
                let r2 = self.generalize(result, map);
                let ghost pre = self.volatile.type_arena@;
                let node2 = Type::Function { arguments: args2, result: r2 };
                let ghost node2v = node2;
                let out = self.volatile.type_arena.allocate(node2);
                proof {
                    crate::ty::lemma_types_m_push(pre, node2v);
                    crate::ty::lemma_types_wf_push(crate::ty::types_m(pre), node2v@);
                }
                out
            },
            Type::Application { function, arguments } => {
                let function = *function;
                let arguments = clone_ids(arguments);
                let f2 = self.generalize(function, map);
                let args2 = self.generalize_id_list(&arguments, map, Ghost(t_idx@));
                let ghost pre = self.volatile.type_arena@;
                let node2 = Type::Application { function: f2, arguments: args2 };
                let ghost node2v = node2;
                let out = self.volatile.type_arena.allocate(node2);
                proof {
                    crate::ty::lemma_types_m_push(pre, node2v);
                    crate::ty::lemma_types_wf_push(crate::ty::types_m(pre), node2v@);
                }
                out
            },
            Type::Forall { variables, rank, ty } => {
                let rank = *rank;
                let ty = *ty;
                let variables = crate::ty::clone_binders(variables);
                let ty2 = self.generalize(ty, map);
                let ghost pre = self.volatile.type_arena@;
                let node2 = Type::Forall { variables, rank, ty: ty2 };
                let ghost node2v = node2;
                let out = self.volatile.type_arena.allocate(node2);
                proof {
                    crate::ty::lemma_types_m_push(pre, node2v);
                    crate::ty::lemma_types_wf_push(crate::ty::types_m(pre), node2v@);
                }
                out
            },
            Type::Constrained { assertions, ty } => {
                let ty = *ty;
                let assertions = crate::ty::clone_assertions(assertions);
                let as2 = self.generalize_assert_list(&assertions, map, Ghost(t_idx@));
                let ty2 = self.generalize(ty, map);
                let ghost pre = self.volatile.type_arena@;
                let node2 = Type::Constrained { assertions: as2, ty: ty2 };
                let ghost node2v = node2;
                let out = self.volatile.type_arena.allocate(node2);
                proof {
                    crate::ty::lemma_types_m_push(pre, node2v);
                    crate::ty::lemma_types_wf_push(crate::ty::types_m(pre), node2v@);
                }
                out
            },
        }
    }

    /// Generalizes each handle in the list in order.
    #[verifier::loop_isolation(false)]
    fn generalize_id_list(
        &mut self,
        args: &Vec<TypeId>,
        map: &mut NameMap<TypeId>,
        bound: Ghost<nat>,
    ) -> (r: Vec<TypeId>)
        requires
            old(self).wf(),
            ids_below(ids_m(args@), bound@ as int),
            bound@ <= old(self).types().len(),
            old(map).wf(),
            crate::context::bindings_valid(old(map)@, old(self).types().len() as int),
        ensures
            final(self).wf(),
            final(map).wf(),
            crate::context::bindings_valid(final(map)@, final(self).types().len() as int),
            final(self).types() == sgf_list(
                old(self).types(),
                crate::infer::vals_m(old(map)@),
                old(self).fresh as nat,
                ids_m(args@),
                bound@,
            ).0,
            crate::infer::vals_m(final(map)@) == sgf_list(
                old(self).types(),
                crate::infer::vals_m(old(map)@),
                old(self).fresh as nat,
                ids_m(args@),
                bound@,
            ).1,
            final(self).fresh as nat == sgf_list(
                old(self).types(),
                crate::infer::vals_m(old(map)@),
                old(self).fresh as nat,
                ids_m(args@),
                bound@,
            ).2,
            ids_m(r@) == sgf_list(
                old(self).types(),
                crate::infer::vals_m(old(map)@),
                old(self).fresh as nat,
                ids_m(args@),
                bound@,
            ).3,
            r@.len() == args@.len(),
            final(self).types().len() >= old(self).types().len(),
            forall|i: int|
                0 <= i < old(self).types().len() ==> final(self).types()[i] == old(self).types()[i],
            ids_below(ids_m(r@), final(self).types().len() as int),
            old(self).fresh <= final(self).fresh,
            final(self).exprs() == old(self).exprs(),
            final(self).environment == old(self).environment,
            final(self).queue() == old(self).queue(),
        decreases bound@, 1nat, 0nat, 0nat,
    {
        let ghost ts0 = self.types();
        let ghost sub0 = crate::infer::vals_m(map@);
        let ghost f0 = self.fresh as nat;
        let ghost am = ids_m(args@);
        proof {
            assert(am.skip(0) =~= am);
        }
        let mut out: Vec<TypeId> = Vec::new();
        let mut i: usize = 0;
        while i < args.len()
            invariant
                self.wf(),
                map.wf(),
                crate::context::bindings_valid(map@, self.types().len() as int),
                i <= args@.len(),
                out@.len() == i,
                self.types().len() >= ts0.len(),
                forall|j: int| 0 <= j < ts0.len() ==> self.types()[j] == ts0[j],
                ids_below(ids_m(out@), self.types().len() as int),
                f0 <= self.fresh as nat,
                sgf_list(ts0, sub0, f0, am, bound@).0 == sgf_list(
                    self.types(),
                    crate::infer::vals_m(map@),
                    self.fresh as nat,
                    am.skip(i as int),
                    bound@,
                ).0,
                sgf_list(ts0, sub0, f0, am, bound@).1 == sgf_list(
                    self.types(),
                    crate::infer::vals_m(map@),
                    self.fresh as nat,
                    am.skip(i as int),
                    bound@,
                ).1,
                sgf_list(ts0, sub0, f0, am, bound@).2 == sgf_list(
                    self.types(),
                    crate::infer::vals_m(map@),
                    self.fresh as nat,
                    am.skip(i as int),
                    bound@,
                ).2,
                sgf_list(ts0, sub0, f0, am, bound@).3 == ids_m(out@) + sgf_list(
                    self.types(),
                    crate::infer::vals_m(map@),
                    self.fresh as nat,
                    am.skip(i as int),
                    bound@,
                ).3,
                self.exprs() == old(self).exprs(),
                self.environment == old(self).environment,
                self.queue() == old(self).queue(),
            decreases args@.len() - i,
        {
            proof {
                assert(am.skip(i as int)[0] == am[i as int]);
                assert(am[i as int] == args@[i as int]@);
                assert(am.skip(i as int).drop_first() =~= am.skip(i as int + 1));
            }
            let ghost out_pre = ids_m(out@);
            let a2 = self.generalize(args[i], map);
            out.push(a2);
            proof {
                assert(ids_m(out@) =~= out_pre + seq![a2@]);
                let rest = sgf_list(
                    self.types(),
                    crate::infer::vals_m(map@),
                    self.fresh as nat,
                    am.skip(i as int + 1),
                    bound@,
                );
                assert(out_pre + (seq![a2@] + rest.3) =~= (out_pre + seq![a2@]) + rest.3);
            }
            i = i + 1;
        }
        proof {
            assert(am.skip(args@.len() as int) =~= Seq::<nat>::empty());
            assert(ids_m(out@) + Seq::<nat>::empty() =~= ids_m(out@));
        }
        out
    }

    /// Generalizes each assertion in the list in order (the assertions of a
    /// `Constrained` node).
    #[verifier::loop_isolation(false)]
    fn generalize_assert_list(
        &mut self,
        asserts: &Vec<Assertion>,
        map: &mut NameMap<TypeId>,
        bound: Ghost<nat>,
    ) -> (r: Vec<Assertion>)
        requires
            old(self).wf(),
            crate::ty::asserts_m_wf(asserts@.map_values(|a: Assertion| a@), bound@ as int),
            bound@ <= old(self).types().len(),
            old(map).wf(),
            crate::context::bindings_valid(old(map)@, old(self).types().len() as int),
        ensures
            final(self).wf(),
            final(map).wf(),
            crate::context::bindings_valid(final(map)@, final(self).types().len() as int),
            final(self).types() == sgf_asserts(
                old(self).types(),
                crate::infer::vals_m(old(map)@),
                old(self).fresh as nat,
                asserts@.map_values(|a: Assertion| a@),
                bound@,
            ).0,
            crate::infer::vals_m(final(map)@) == sgf_asserts(
                old(self).types(),
                crate::infer::vals_m(old(map)@),
                old(self).fresh as nat,
                asserts@.map_values(|a: Assertion| a@),
                bound@,
            ).1,
            final(self).fresh as nat == sgf_asserts(
                old(self).types(),
                crate::infer::vals_m(old(map)@),
                old(self).fresh as nat,
                asserts@.map_values(|a: Assertion| a@),
                bound@,
            ).2,
            r@.map_values(|a: Assertion| a@) == sgf_asserts(
                old(self).types(),
                crate::infer::vals_m(old(map)@),
                old(self).fresh as nat,
                asserts@.map_values(|a: Assertion| a@),
                bound@,
            ).3,
            crate::ty::asserts_m_wf(
                r@.map_values(|a: Assertion| a@),
                final(self).types().len() as int,
            ),
            final(self).types().len() >= old(self).types().len(),
            forall|i: int|
                0 <= i < old(self).types().len() ==> final(self).types()[i] == old(self).types()[i],
            old(self).fresh <= final(self).fresh,
            final(self).exprs() == old(self).exprs(),
            final(self).environment == old(self).environment,
            final(self).queue() == old(self).queue(),
        decreases bound@, 1nat, 1nat, 0nat,
    {
        let ghost ts0 = self.types();
        let ghost sub0 = crate::infer::vals_m(map@);
        let ghost f0 = self.fresh as nat;
        let ghost sm = asserts@.map_values(|a: Assertion| a@);
        proof {
            assert(sm.skip(0) =~= sm);
        }
        let mut out: Vec<Assertion> = Vec::new();
        let mut i: usize = 0;
        while i < asserts.len()
            invariant
                self.wf(),
                map.wf(),
                crate::context::bindings_valid(map@, self.types().len() as int),
                i <= asserts@.len(),
                out@.len() == i,
                self.types().len() >= ts0.len(),
                forall|j: int| 0 <= j < ts0.len() ==> self.types()[j] == ts0[j],
                f0 <= self.fresh as nat,
                crate::ty::asserts_m_wf(
                    out@.map_values(|a: Assertion| a@),
                    self.types().len() as int,
                ),
                sgf_asserts(ts0, sub0, f0, sm, bound@).0 == sgf_asserts(
                    self.types(),
                    crate::infer::vals_m(map@),
                    self.fresh as nat,
                    sm.skip(i as int),
                    bound@,
                ).0,
                sgf_asserts(ts0, sub0, f0, sm, bound@).1 == sgf_asserts(
                    self.types(),
                    crate::infer::vals_m(map@),
                    self.fresh as nat,
                    sm.skip(i as int),
                    bound@,
                ).1,
                sgf_asserts(ts0, sub0, f0, sm, bound@).2 == sgf_asserts(
                    self.types(),
                    crate::infer::vals_m(map@),
                    self.fresh as nat,
                    sm.skip(i as int),
                    bound@,
                ).2,
                sgf_asserts(ts0, sub0, f0, sm, bound@).3 == out@.map_values(|a: Assertion| a@)
                    + sgf_asserts(
                    self.types(),
                    crate::infer::vals_m(map@),
                    self.fresh as nat,
                    sm.skip(i as int),
                    bound@,
                ).3,
                self.exprs() == old(self).exprs(),
                self.environment == old(self).environment,
                self.queue() == old(self).queue(),
            decreases asserts@.len() - i,
        {
            proof {
                assert(sm.skip(i as int)[0] == sm[i as int]);
                assert(sm[i as int] == asserts@[i as int]@);
                assert(sm.skip(i as int).drop_first() =~= sm.skip(i as int + 1));
                assert(crate::ty::assert_m_wf(sm[i as int], bound@ as int));
            }
            let ghost out_pre = out@.map_values(|a: Assertion| a@);
            let name = asserts[i].name.clone();
            let args2 = self.generalize_id_list(&asserts[i].arguments, map, bound);
            let a2 = Assertion { name, arguments: args2 };
            let ghost a2m = a2@;
            out.push(a2);
            proof {
                assert(out@.map_values(|a: Assertion| a@) =~= out_pre + seq![a2m]);
                assert(sm[i as int].args == ids_m(asserts@[i as int].arguments@));
                let rest = sgf_asserts(
                    self.types(),
                    crate::infer::vals_m(map@),
                    self.fresh as nat,
                    sm.skip(i as int + 1),
                    bound@,
                );
                assert(out_pre + (seq![a2m] + rest.3) =~= (out_pre + seq![a2m]) + rest.3);
            }
            i = i + 1;
        }
        proof {
            assert(sm.skip(asserts@.len() as int) =~= Seq::<AssertM>::empty());
            assert(out@.map_values(|a: Assertion| a@) + Seq::<AssertM>::empty() =~= out@.map_values(
                |a: Assertion| a@,
            ));
        }
        out
    }

    /// Generalizes a whole assertion: the class name is kept, each argument
    /// is substituted.
    #[verifier::loop_isolation(false)]
    fn generalize_assertion(&mut self, a: &Assertion, map: &mut NameMap<TypeId>) -> (r: Assertion)
        requires
            old(self).wf(),
            crate::ty::assert_m_wf(a@, old(self).types().len() as int),
            old(map).wf(),
            crate::context::bindings_valid(old(map)@, old(self).types().len() as int),
        ensures
            final(self).wf(),
            final(map).wf(),
            crate::context::bindings_valid(final(map)@, final(self).types().len() as int),
            final(self).types() == sgf_assert_top(
                old(self).types(),
                crate::infer::vals_m(old(map)@),
                old(self).fresh as nat,
                a@,
            ).0,
            crate::infer::vals_m(final(map)@) == sgf_assert_top(
                old(self).types(),
                crate::infer::vals_m(old(map)@),
                old(self).fresh as nat,
                a@,
            ).1,
            final(self).fresh as nat == sgf_assert_top(
                old(self).types(),
                crate::infer::vals_m(old(map)@),
                old(self).fresh as nat,
                a@,
            ).2,
            r@ == sgf_assert_top(
                old(self).types(),
                crate::infer::vals_m(old(map)@),
                old(self).fresh as nat,
                a@,
            ).3,
            r.name@ == a.name@,
            r.arguments@.len() == a.arguments@.len(),
            crate::ty::assert_m_wf(r@, final(self).types().len() as int),
            final(self).types().len() >= old(self).types().len(),
            forall|i: int|
                0 <= i < old(self).types().len() ==> final(self).types()[i] == old(self).types()[i],
            old(self).fresh <= final(self).fresh,
            final(self).exprs() == old(self).exprs(),
            final(self).environment == old(self).environment,
            final(self).queue() == old(self).queue(),
    {
        let ghost ts0 = self.types();
        let ghost sub0 = crate::infer::vals_m(map@);
        let ghost f0 = self.fresh as nat;
        let ghost am = a@.args;
        proof {
            assert(am.skip(0) =~= am);
        }
        let mut args2: Vec<TypeId> = Vec::new();
        let mut i: usize = 0;
        while i < a.arguments.len()
            invariant
                self.wf(),
                map.wf(),
                crate::context::bindings_valid(map@, self.types().len() as int),
                i <= a.arguments@.len(),
                args2@.len() == i,
                self.types().len() >= ts0.len(),
                forall|j: int| 0 <= j < ts0.len() ==> self.types()[j] == ts0[j],
                ids_below(ids_m(args2@), self.types().len() as int),
                f0 <= self.fresh as nat,
                sgf_args_top(ts0, sub0, f0, am).0 == sgf_args_top(
                    self.types(),
                    crate::infer::vals_m(map@),
                    self.fresh as nat,
                    am.skip(i as int),
                ).0,
                sgf_args_top(ts0, sub0, f0, am).1 == sgf_args_top(
                    self.types(),
                    crate::infer::vals_m(map@),
                    self.fresh as nat,
                    am.skip(i as int),
                ).1,
                sgf_args_top(ts0, sub0, f0, am).2 == sgf_args_top(
                    self.types(),
                    crate::infer::vals_m(map@),
                    self.fresh as nat,
                    am.skip(i as int),
                ).2,
                sgf_args_top(ts0, sub0, f0, am).3 == ids_m(args2@) + sgf_args_top(
                    self.types(),
                    crate::infer::vals_m(map@),
                    self.fresh as nat,
                    am.skip(i as int),
                ).3,
                self.exprs() == old(self).exprs(),
                self.environment == old(self).environment,
                self.queue() == old(self).queue(),
            decreases a.arguments@.len() - i,
        {
            proof {
                assert(am.skip(i as int)[0] == am[i as int]);
                assert(am[i as int] == a.arguments@[i as int]@);
                assert(am.skip(i as int).drop_first() =~= am.skip(i as int + 1));
            }
            let ghost args2_pre = ids_m(args2@);
            let a2 = self.generalize(a.arguments[i], map);
            args2.push(a2);
            proof {
                assert(ids_m(args2@) =~= args2_pre + seq![a2@]);
                let rest = sgf_args_top(
                    self.types(),
                    crate::infer::vals_m(map@),
                    self.fresh as nat,
                    am.skip(i as int + 1),
                );
                assert(args2_pre + (seq![a2@] + rest.3) =~= (args2_pre + seq![a2@]) + rest.3);
            }
            i = i + 1;
        }
        proof {
            assert(am.skip(a.arguments@.len() as int) =~= Seq::<nat>::empty());
            assert(ids_m(args2@) + Seq::<nat>::empty() =~= ids_m(args2@));
        }
        Assertion { name: a.name.clone(), arguments: args2 }
    }

    /// Decides one class assertion against the instance database.  The
    /// environment and the queue are untouched; the arena and the fresh
    /// counter advance exactly as [`entail_spec`] says.  Dependency markers
    /// are drawn from the fresh counter, so each lies at or above the
    /// counter's value when entailment began.
    #[verifier::loop_isolation(false)]
    pub fn entail(&mut self, assertion: &Assertion) -> (r: EntailResult)
        requires
            old(self).wf(),
            instances_ok(old(self).environment, old(self).types().len() as int),
            assertion_entailable(assertion@, old(self).environment, old(self).types().len() as int),
        ensures
            final(self).wf(),
            final(self).environment == old(self).environment,
            final(self).exprs() == old(self).exprs(),
            final(self).queue() == old(self).queue(),
            final(self).types().len() >= old(self).types().len(),
            forall|i: int|
                0 <= i < old(self).types().len() ==> final(self).types()[i] == old(self).types()[i],
            old(self).fresh <= final(self).fresh,
            final(self).types() == entail_spec(
                old(self).types(),
                old(self).environment.classes@[assertion.name@]@,
                insts_m(old(self).environment.instances@[assertion.name@]@),
                old(self).fresh as nat,
                assertion@,
            ).ts,
            final(self).fresh as nat == entail_spec(
                old(self).types(),
                old(self).environment.classes@[assertion.name@]@,
                insts_m(old(self).environment.instances@[assertion.name@]@),
                old(self).fresh as nat,
                assertion@,
            ).fresh,
            r@ == entail_spec(
                old(self).types(),
                old(self).environment.classes@[assertion.name@]@,
                insts_m(old(self).environment.instances@[assertion.name@]@),
                old(self).fresh as nat,
                assertion@,
            ).result,
            r matches EntailResult::Deferred { needs_solution } ==> forall|j: int|
                0 <= j < needs_solution@.len() ==> (#[trigger] needs_solution@[j]).0
                    < assertion.arguments@.len(),
            r matches EntailResult::Solved { instance_assertion, .. }
                ==> crate::ty::assert_m_wf(instance_assertion@, final(self).types().len() as int),
            r matches EntailResult::Depends { instance_assertion, instance_dependencies, .. }
                ==> crate::ty::assert_m_wf(instance_assertion@, final(self).types().len() as int)
                && (forall|j: int|
                0 <= j < instance_dependencies@.len() ==> assertion_entailable(
                    (#[trigger] instance_dependencies@[j]).1@,
                    old(self).environment,
                    final(self).types().len() as int,
                ) && old(self).fresh <= instance_dependencies@[j].0),
    {
        let ghost ts0 = self.types();
        let ghost f0 = self.fresh as nat;
        let ghost fdsm = self.environment.classes@[assertion.name@]@;
        let ghost instsm = insts_m(self.environment.instances@[assertion.name@]@);
        let ns = self.needs_solution(assertion);
        if ns.len() > 0 {
            return EntailResult::Deferred { needs_solution: ns };
        }
        let instances = self.environment.find_instances(&assertion.name);
        proof {
            assert(insts_m(instances@) == instsm);
            assert(instsm.skip(0) =~= instsm);
        }
        let mut i: usize = 0;
        while i < instances.len()
            invariant
                self.wf(),
                i <= instances@.len(),
                instances@.len() == instsm.len(),
                self.types() == ts0,
                self.fresh as nat == f0,
                self.environment == old(self).environment,
                self.exprs() == old(self).exprs(),
                self.queue() == old(self).queue(),
                entail_insts(ts0, instsm, f0, assertion@) == entail_insts(
                    ts0,
                    instsm.skip(i as int),
                    f0,
                    assertion@,
                ),
            decreases instances@.len() - i,
        {
            proof {
                assert(instsm.skip(i as int)[0] == instsm[i as int]);
                assert(instsm[i as int] == instances@[i as int]@);
                assert(instsm.skip(i as int).drop_first() =~= instsm.skip(i as int + 1));
                assert(old(self).environment.instances@.contains_key(assertion.name@));
                assert(crate::context::inst_ok(
                    (old(self).environment.instances@[assertion.name@]@[i as int])@,
                    old(self).environment,
                    ts0.len() as int,
                ));
                assert(instsm[i as int] == (old(self).environment.instances@[
                    assertion.name@]@[i as int])@);
                assert(crate::ty::assert_m_wf(instsm[i as int].assertion, ts0.len() as int));
                assert(instsm[i as int].assertion.args == ids_m(
                    instances@[i as int].assertion.arguments@,
                ));
            }
            let mut subst: NameMap<TypeId> = NameMap::new();
            proof {
                assert(crate::infer::vals_m(subst@) =~= Map::<Seq<char>, nat>::empty());
            }
            let matched = self.match_arguments(
                &mut subst,
                &instances[i].assertion.arguments,
                &assertion.arguments,
            );
            if !matched {
                i = i + 1;
                continue;
            }
            let head = self.generalize_assertion(&instances[i].assertion, &mut subst);
            if instances[i].dependencies.len() == 0 {
                let r = EntailResult::Solved {
                    evidence: Evidence::Dictionary { dependencies: Vec::new() },
                    instance_assertion: head,
                };
                proof {
                    assert(r@->Solved_evidence =~= Seq::<nat>::empty());
                }
                return r;
            }
            // The instance has dependencies: draw a marker for each, then
            // substitute into it, in program order.
            let ghost depsm = instsm[i as int].dependencies;
            let ghost ts1 = self.types();
            let ghost f1 = self.fresh as nat;
            let ghost sub1 = crate::infer::vals_m(subst@);
            proof {
                assert(depsm.skip(0) =~= depsm);
            }
            let mut pairs: Vec<(usize, Assertion)> = Vec::new();
            let mut markers: Vec<usize> = Vec::new();
            let mut k: usize = 0;
            while k < instances[i].dependencies.len()
                invariant
                    self.wf(),
                    subst.wf(),
                    crate::context::bindings_valid(subst@, self.types().len() as int),
                    i < instances@.len(),
                    k <= instances@[i as int].dependencies@.len(),
                    depsm.len() == instances@[i as int].dependencies@.len(),
                    pairs@.len() == k,
                    markers@.len() == k,
                    self.types().len() >= ts1.len(),
                    ts1.len() >= ts0.len(),
                    forall|j: int| 0 <= j < ts0.len() ==> self.types()[j] == ts0[j],
                    f1 <= self.fresh as nat,
                    f0 <= f1,
                    self.environment == old(self).environment,
                    self.exprs() == old(self).exprs(),
                    self.queue() == old(self).queue(),
                    sgf_deps(ts1, sub1, f1, depsm).0 == sgf_deps(
                        self.types(),
                        crate::infer::vals_m(subst@),
                        self.fresh as nat,
                        depsm.skip(k as int),
                    ).0,
                    sgf_deps(ts1, sub1, f1, depsm).1 == sgf_deps(
                        self.types(),
                        crate::infer::vals_m(subst@),
                        self.fresh as nat,
                        depsm.skip(k as int),
                    ).1,
                    sgf_deps(ts1, sub1, f1, depsm).2 == sgf_deps(
                        self.types(),
                        crate::infer::vals_m(subst@),
                        self.fresh as nat,
                        depsm.skip(k as int),
                    ).2,
                    sgf_deps(ts1, sub1, f1, depsm).3 == pairs@.map_values(
                        |p: (usize, Assertion)| (p.0 as nat, p.1@),
                    ) + sgf_deps(
                        self.types(),
                        crate::infer::vals_m(subst@),
                        self.fresh as nat,
                        depsm.skip(k as int),
                    ).3,
                    markers@.map_values(|m: usize| m as nat) == pairs@.map_values(
                        |p: (usize, Assertion)| p.0 as nat,
                    ),
                    forall|j: int|
                        0 <= j < pairs@.len() ==> assertion_entailable(
                            (#[trigger] pairs@[j]).1@,
                            old(self).environment,
                            self.types().len() as int,
                        ) && f0 <= pairs@[j].0,
                decreases instances@[i as int].dependencies@.len() - k,
            {
                proof {
                    assert(depsm.skip(k as int)[0] == depsm[k as int]);
                    assert(depsm[k as int] == instances@[i as int].dependencies@[k as int]@);
                    assert(depsm.skip(k as int).drop_first() =~= depsm.skip(k as int + 1));
                    assert(assertion_entailable(
                        depsm[k as int],
                        old(self).environment,
                        ts0.len() as int,
                    ));
                }
                let ghost pairs_pre = pairs@.map_values(|p: (usize, Assertion)| (p.0 as nat, p.1@));
                let ghost markers_pre = markers@;
                let ghost pairs_prev = pairs@;
                let marker = self.fresh_index();
                let dep = self.generalize_assertion(&instances[i].dependencies[k], &mut subst);
                let ghost depm = dep@;
                pairs.push((marker, dep));
                markers.push(marker);
                proof {
                    assert(pairs@.map_values(|p: (usize, Assertion)| (p.0 as nat, p.1@))
                        =~= pairs_pre.push((marker as nat, depm)));
                    let rest = sgf_deps(
                        self.types(),
                        crate::infer::vals_m(subst@),
                        self.fresh as nat,
                        depsm.skip(k as int + 1),
                    );
                    assert(pairs_pre + (seq![(marker as nat, depm)] + rest.3) =~= (pairs_pre
                        + seq![(marker as nat, depm)]) + rest.3);
                    assert(pairs_pre.push((marker as nat, depm)) =~= pairs_pre + seq![
                        (marker as nat, depm),
                    ]);
                    assert(markers@.map_values(|m: usize| m as nat) =~= markers_pre.map_values(
                        |m: usize| m as nat,
                    ).push(marker as nat));
                    assert(pairs@.map_values(|p: (usize, Assertion)| p.0 as nat)
                        =~= pairs_prev.map_values(|p: (usize, Assertion)| p.0 as nat).push(
                        marker as nat,
                    ));
                }
                k = k + 1;
            }
            proof {
                assert(depsm.skip(instances@[i as int].dependencies@.len() as int) =~= Seq::<
                    AssertM,
                >::empty());
                assert(pairs@.map_values(|p: (usize, Assertion)| (p.0 as nat, p.1@)) + Seq::<(
                    nat,
                    AssertM,
                )>::empty() =~= pairs@.map_values(|p: (usize, Assertion)| (p.0 as nat, p.1@)));
            }
            let r = EntailResult::Depends {
                evidence: Evidence::Dictionary { dependencies: markers },
                instance_assertion: head,
                instance_dependencies: pairs,
            };
            proof {
                let pairsm = sgf_deps(ts1, sub1, f1, depsm).3;
                assert(pairsm.map_values(|p: (nat, AssertM)| p.0) =~= r@->Depends_evidence);
            }
            return r;
        }
        proof {
            assert(instsm.skip(instances@.len() as int) =~= Seq::<InstM>::empty());
            assert(pairs_m(Seq::<(usize, usize)>::empty()) =~= Seq::<(nat, nat)>::empty());
        }
        EntailResult::Deferred { needs_solution: Vec::new() }
    }
}

/// Dependency ordering: a dependency obligation's marker strictly exceeds
/// its parent's marker.  The parent's marker was drawn from the fresh
/// counter before the entailment call, so it lies below the counter's
/// value at that call; `entail` guarantees every dependency marker lies at
/// or above that value.
pub proof fn lemma_dependency_ordering(parent_marker: nat, fresh_at_entail: nat, dep_marker: nat)
    requires
        parent_marker < fresh_at_entail,
        fresh_at_entail <= dep_marker,
    ensures
        parent_marker < dep_marker,
{
}

/// The entailer, holding the context it works in.
pub struct Entail {
    pub context: Context,
}

impl Entail {
    pub fn new(context: Context) -> (r: Entail)
        ensures
            r.context == context,
    {
        Entail { context }
    }

    /// Decides one class assertion; see [`Context::entail`].
    pub fn entail(&mut self, assertion: &Assertion) -> (r: EntailResult)
        requires
            old(self).context.wf(),
            instances_ok(old(self).context.environment, old(self).context.types().len() as int),
            assertion_entailable(
                assertion@,
                old(self).context.environment,
                old(self).context.types().len() as int,
            ),
        ensures
            final(self).context.wf(),
            final(self).context.environment == old(self).context.environment,
            final(self).context.exprs() == old(self).context.exprs(),
            final(self).context.queue() == old(self).context.queue(),
            final(self).context.types() == entail_spec(
                old(self).context.types(),
                old(self).context.environment.classes@[assertion.name@]@,
                insts_m(old(self).context.environment.instances@[assertion.name@]@),
                old(self).context.fresh as nat,
                assertion@,
            ).ts,
            final(self).context.fresh as nat == entail_spec(
                old(self).context.types(),
                old(self).context.environment.classes@[assertion.name@]@,
                insts_m(old(self).context.environment.instances@[assertion.name@]@),
                old(self).context.fresh as nat,
                assertion@,
            ).fresh,
            r@ == entail_spec(
                old(self).context.types(),
                old(self).context.environment.classes@[assertion.name@]@,
                insts_m(old(self).context.environment.instances@[assertion.name@]@),
                old(self).context.fresh as nat,
                assertion@,
            ).result,
    {
        self.context.entail(assertion)
    }
}

} // verus!

//! Type inference for the expression language.
//!
//! `infer` walks an expression and produces a type handle.  Constructors and
//! variables are looked up in the environment; an application instantiates
//! the function's type and unifies it with a `Function` node built from the
//! inferred argument types and a fresh result variable; a lambda binds each
//! parameter to a fresh unification variable for the inference of its body
//! and removes those bindings on every exit path.
//!
//! The spec function [`infer_spec`] gives the exact result and the exact
//! effect on the arena, the value environment, the fresh counter, and the
//! constraint queue.

use vstd::prelude::*;
use crate::arena::clone_idxs;
use crate::constraint::ConstraintM;
use crate::context::{bindings_valid, fresh_next, Context};
use crate::error::InferError;
use crate::expr::{clone_strings, Expr, ExprM};
use crate::instantiate::instantiate_spec;
use crate::ty::{ids_m, ty_m_wf, types_wf, Type, TypeId, TypeM};
use crate::unify::unify_effects;

verus! {

/// The state inference threads along: the type arena, the value bindings,
/// the fresh counter, and the queue.  (The expression arena and the other
/// environment tables are read-only during inference.)
pub ghost struct InferSt {
    pub ts: Seq<TypeM>,
    pub values: Map<Seq<char>, nat>,
    pub fresh: nat,
    pub queue: Seq<ConstraintM>,
}

/// The positions a binding map points at.
pub open spec fn vals_m(m: Map<Seq<char>, TypeId>) -> Map<Seq<char>, nat> {
    Map::new(|k: Seq<char>| m.contains_key(k), |k: Seq<char>| m[k]@)
}

pub proof fn lemma_vals_insert(m: Map<Seq<char>, TypeId>, k: Seq<char>, id: TypeId)
    ensures
        vals_m(m.insert(k, id)) == vals_m(m).insert(k, id@),
{
    assert(vals_m(m.insert(k, id)) =~= vals_m(m).insert(k, id@));
}

pub proof fn lemma_vals_remove(m: Map<Seq<char>, TypeId>, k: Seq<char>)
    ensures
        vals_m(m.remove(k)) == vals_m(m).remove(k),
{
    assert(vals_m(m.remove(k)) =~= vals_m(m).remove(k));
}

/// Allocates `n` fresh unification variables in order, returning their
/// positions.
pub open spec fn lambda_freshes(ts: Seq<TypeM>, fresh: nat, n: nat) -> (Seq<TypeM>, nat, Seq<nat>)
    decreases n,
{
    if n == 0 {
        (ts, fresh, Seq::<nat>::empty())
    } else {
        let (ts1, f1, rest) = lambda_freshes(
            ts.push(TypeM::Unification { name: fresh }),
            fresh_next(fresh),
            (n - 1) as nat,
        );
        (ts1, f1, seq![ts.len()] + rest)
    }
}

/// Binds each name to the matching position, first to last.
pub open spec fn insert_all(
    values: Map<Seq<char>, nat>,
    names: Seq<Seq<char>>,
    poss: Seq<nat>,
) -> Map<Seq<char>, nat>
    decreases names.len(),
{
    if names.len() == 0 || poss.len() == 0 {
        values
    } else {
        insert_all(values.insert(names[0], poss[0]), names.drop_first(), poss.drop_first())
    }
}

/// Removes each name's binding, first to last.
pub open spec fn remove_all(values: Map<Seq<char>, nat>, names: Seq<Seq<char>>) -> Map<
    Seq<char>,
    nat,
>
    decreases names.len(),
{
    if names.len() == 0 {
        values
    } else {
        remove_all(values.remove(names[0]), names.drop_first())
    }
}

/// What inference of the expression at `e` returns and does to the state.
/// The error carries the unbound name.
pub open spec fn infer_spec(
    es: Seq<ExprM>,
    ctors: Map<Seq<char>, nat>,
    st: InferSt,
    e: nat,
) -> (InferSt, Result<nat, Seq<char>>)
    decreases e, 1int, 0int,
{
    if e < es.len() {
        match es[e as int] {
            ExprM::Constructor { name } => {
                if ctors.contains_key(name) {
                    (st, Ok(ctors[name]))
                } else {
                    (st, Err(name))
                }
            },
            ExprM::Variable { name } => {
                if st.values.contains_key(name) {
                    (st, Ok(st.values[name]))
                } else {
                    (st, Err(name))
                }
            },
            ExprM::Application { function, arguments } => {
                let (st1, rf) = if function < e {
                    infer_spec(es, ctors, st, function)
                } else {
                    (st, Err(Seq::<char>::empty()))
                };
                match rf {
                    Err(n) => (st1, Err(n)),
                    Ok(tf) => {
                        let io = instantiate_spec(st1.ts, st1.fresh, tf);
                        let st2 = InferSt {
                            ts: io.ts,
                            values: st1.values,
                            fresh: io.fresh,
                            queue: st1.queue + io.emitted,
                        };
                        let (st3, ra) = infer_list(es, ctors, st2, arguments, e);
                        match ra {
                            Err(n) => (st3, Err(n)),
                            Ok(targs) => {
                                let tr = st3.ts.len();
                                let ts4 = st3.ts.push(TypeM::Unification { name: st3.fresh });
                                let f4 = fresh_next(st3.fresh);
                                let med = ts4.len();
                                let ts5 = ts4.push(
                                    TypeM::Function { arguments: targs, result: tr },
                                );
                                let q5 = st3.queue + unify_effects(ts5, io.result, med);
                                (
                                    InferSt { ts: ts5, values: st3.values, fresh: f4, queue: q5 },
                                    Ok(tr),
                                )
                            },
                        }
                    },
                }
            },
            ExprM::Lambda { arguments, body } => {
                let (ts1, f1, poss) = lambda_freshes(st.ts, st.fresh, arguments.len());
                let vals1 = insert_all(st.values, arguments, poss);
                let st1 = InferSt { ts: ts1, values: vals1, fresh: f1, queue: st.queue };
                let (st2, rb) = if body < e {
                    infer_spec(es, ctors, st1, body)
                } else {
                    (st1, Err(Seq::<char>::empty()))
                };
                let vals2 = remove_all(st2.values, arguments);
                match rb {
                    Err(n) => (
                        InferSt { ts: st2.ts, values: vals2, fresh: st2.fresh, queue: st2.queue },
                        Err(n),
                    ),
                    Ok(tb) => {
                        let rpos = st2.ts.len();
                        let ts3 = st2.ts.push(TypeM::Function { arguments: poss, result: tb });
                        (
                            InferSt { ts: ts3, values: vals2, fresh: st2.fresh, queue: st2.queue },
                            Ok(rpos),
                        )
                    },
                }
            },
        }
    } else {
        (st, Err(Seq::<char>::empty()))
    }
}

/// Infers each listed expression in order, short-circuiting on the first
/// failure; the work done before the failure stands.
pub open spec fn infer_list(
    es: Seq<ExprM>,
    ctors: Map<Seq<char>, nat>,
    st: InferSt,
    args: Seq<nat>,
    bound: nat,
) -> (InferSt, Result<Seq<nat>, Seq<char>>)
    decreases bound, 0int, args.len(),
{
    if args.len() == 0 {
        (st, Ok(Seq::<nat>::empty()))
    } else {
        let (st1, r0) = if args[0] < bound {
            infer_spec(es, ctors, st, args[0])
        } else {
            (st, Err(Seq::<char>::empty()))
        };
        match r0 {
            Err(n) => (st1, Err(n)),
            Ok(t0) => {
                let (st2, rrest) = infer_list(es, ctors, st1, args.drop_first(), bound);
                match rrest {
                    Err(n) => (st2, Err(n)),
                    Ok(trest) => (st2, Ok(seq![t0] + trest)),
                }
            },
        }
    }
}

impl Context {
    /// The inference state this context denotes.
    pub open spec fn infer_st(self) -> InferSt {
        InferSt {
            ts: self.types(),
            values: vals_m(self.environment.values@),
            fresh: self.fresh as nat,
            queue: self.queue(),
        }
    }

    /// Do all value and constructor bindings point into the type arena?
    pub open spec fn env_valid(self) -> bool {
        &&& bindings_valid(self.environment.values@, self.types().len() as int)
        &&& bindings_valid(self.environment.constructors@, self.types().len() as int)
    }

    /// Infers a type for the expression at `e_idx`.  The environment's
    /// constructor, class, and instance tables are untouched; lambda
    /// bindings are added and removed exactly as [`infer_spec`] says, so a
    /// binding shadowed by a lambda parameter is gone afterwards.
    #[verifier::loop_isolation(false)]
    pub fn infer(&mut self, e_idx: crate::expr::ExprId) -> (r: Result<TypeId, InferError>)
        requires
            old(self).wf(),
            old(self).env_valid(),
            e_idx@ < old(self).exprs().len(),
        ensures
            final(self).wf(),
            final(self).env_valid(),
            final(self).exprs() == old(self).exprs(),
            final(self).environment.constructors == old(self).environment.constructors,
            final(self).environment.classes == old(self).environment.classes,
            final(self).environment.instances == old(self).environment.instances,
            final(self).types().len() >= old(self).types().len(),
            forall|i: int|
                0 <= i < old(self).types().len() ==> final(self).types()[i] == old(self).types()[i],
            final(self).infer_st() == infer_spec(
                old(self).exprs(),
                vals_m(old(self).environment.constructors@),
                old(self).infer_st(),
                e_idx@,
            ).0,
            match r {
                Ok(id) => infer_spec(
                    old(self).exprs(),
                    vals_m(old(self).environment.constructors@),
                    old(self).infer_st(),
                    e_idx@,
                ).1 == Ok::<nat, Seq<char>>(id@) && id@ < final(self).types().len(),
                Err(e) => infer_spec(
                    old(self).exprs(),
                    vals_m(old(self).environment.constructors@),
                    old(self).infer_st(),
                    e_idx@,
                ).1 == Err::<nat, Seq<char>>(e@),
            },
        decreases e_idx@, 1nat,
    {
        let ghost es = self.exprs();
        let ghost ctors = vals_m(self.environment.constructors@);
        let ghost st0 = self.infer_st();
        proof {
            assert(es[e_idx@ as int] == self.volatile.expr_arena@[e_idx@ as int]@);
            assert(crate::expr::expr_m_wf(es[e_idx@ as int], e_idx@ as int));
        }
        match self.volatile.expr_arena.get(e_idx) {
            Expr::Constructor { name } => {
                match self.environment.constructors.get(name) {
                    Some(id) => Ok(*id),
                    None => Err(InferError::UnboundName(name.clone())),
                }
            },
            Expr::Variable { name } => {
                match self.environment.values.get(name) {
                    Some(id) => Ok(*id),
                    None => Err(InferError::UnboundName(name.clone())),
                }
            },
            Expr::Application { function, arguments } => {
                let function = *function;
                let arguments = clone_idxs(arguments);
                let ghost am = arguments@.map_values(|id: crate::expr::ExprId| id@);
                proof {
                    assert(es[e_idx@ as int] == ExprM::Application {
                        function: function@,
                        arguments: am,
                    });
                    assert(function@ < e_idx@);
                    assert(crate::ty::ids_below(am, e_idx@ as int));
                    assert(am.skip(0) =~= am);
                }
                let tf = match self.infer(function) {
                    Ok(t) => t,
                    Err(e) => {
                        return Err(e);
                    },
                };
                let ghost stf = self.infer_st();
                let tf2 = self.instantiate(tf);
                let ghost io = instantiate_spec(stf.ts, stf.fresh, tf@);
                let ghost st2 = self.infer_st();
                proof {
                    assert(st2.ts == io.ts);
                    assert(st2.fresh == io.fresh);
                    assert(st2.queue == stf.queue + io.emitted);
                    assert(st2.values == stf.values);
                    assert(tf2@ == io.result);
                }
                // Infer each argument in order.
                let mut targs: Vec<TypeId> = Vec::new();
                let mut i: usize = 0;
                proof {
                    let full = infer_list(es, ctors, st2, am, e_idx@);
                    if full.1 is Ok {
                        assert(Seq::<nat>::empty() + full.1->Ok_0 =~= full.1->Ok_0);
                    }
                    assert(ids_m(targs@) =~= Seq::<nat>::empty());
                }
                loop
                    invariant
                        self.wf(),
                        self.env_valid(),
                        i <= arguments@.len(),
                        targs@.len() == i,
                        am == arguments@.map_values(|id: crate::expr::ExprId| id@),
                        crate::ty::ids_below(am, e_idx@ as int),
                        e_idx@ < es.len(),
                        es == self.exprs(),
                        es[e_idx@ as int] == (ExprM::Application {
                            function: function@,
                            arguments: am,
                        }),
                        self.environment.constructors == old(self).environment.constructors,
                        self.environment.classes == old(self).environment.classes,
                        self.environment.instances == old(self).environment.instances,
                        self.types().len() >= st2.ts.len(),
                        st2.ts.len() >= old(self).types().len(),
                        forall|j: int|
                            0 <= j < old(self).types().len() ==> self.types()[j] == old(
                                self,
                            ).types()[j],
                        ctors == vals_m(self.environment.constructors@),
                        crate::ty::ids_below(ids_m(targs@), self.types().len() as int),
                        infer_list(es, ctors, st2, am, e_idx@).0 == infer_list(
                            es,
                            ctors,
                            self.infer_st(),
                            am.skip(i as int),
                            e_idx@,
                        ).0,
                        infer_list(es, ctors, st2, am, e_idx@).1 == (match infer_list(
                            es,
                            ctors,
                            self.infer_st(),
                            am.skip(i as int),
                            e_idx@,
                        ).1 {
                            Err(n) => Err::<Seq<nat>, Seq<char>>(n),
                            Ok(tl) => Ok::<Seq<nat>, Seq<char>>(ids_m(targs@) + tl),
                        }),
                    decreases arguments@.len() - i,
                {
                    if i >= arguments.len() {
                        break;
                    }
                    proof {
                        assert(am.skip(i as int)[0] == am[i as int]);
                        assert(am[i as int] == arguments@[i as int]@);
                        assert(am[i as int] < e_idx@);
                        assert(am.skip(i as int).drop_first() =~= am.skip(i as int + 1));
                    }
                    let ghost st_pre = self.infer_st();
                    let ghost targs_pre = ids_m(targs@);
                    match self.infer(arguments[i]) {
                        Ok(t) => {
                            targs.push(t);
                            proof {
                                assert(ids_m(targs@) =~= targs_pre + seq![t@]);
                                let step = infer_spec(es, ctors, st_pre, am[i as int]);
                                assert(step.0 == self.infer_st());
                                assert(step.1 == Ok::<nat, Seq<char>>(t@));
                                let rest = infer_list(
                                    es,
                                    ctors,
                                    self.infer_st(),
                                    am.skip(i as int + 1),
                                    e_idx@,
                                );
                                assert(infer_list(es, ctors, st_pre, am.skip(i as int), e_idx@).0
                                    == rest.0);
                                if rest.1 is Ok {
                                    assert(infer_list(
                                        es,
                                        ctors,
                                        st_pre,
                                        am.skip(i as int),
                                        e_idx@,
                                    ).1 == Ok::<Seq<nat>, Seq<char>>(seq![t@] + rest.1->Ok_0));
                                    assert(targs_pre + (seq![t@] + rest.1->Ok_0) =~= (targs_pre
                                        + seq![t@]) + rest.1->Ok_0);
                                }
                            }
                            i = i + 1;
                        },
                        Err(e) => {
                            proof {
                                let step = infer_spec(es, ctors, st_pre, am[i as int]);
                                assert(step.0 == self.infer_st());
                                assert(step.1 == Err::<nat, Seq<char>>(e@));
                                assert(infer_list(es, ctors, st_pre, am.skip(i as int), e_idx@)
                                    == (self.infer_st(), Err::<Seq<nat>, Seq<char>>(e@)));
                            }
                            return Err(e);
                        },
                    }
                }
                let ghost st3 = self.infer_st();
                let ghost targsm = ids_m(targs@);
                proof {
                    assert(am.skip(arguments@.len() as int) =~= Seq::<nat>::empty());
                    assert(targsm + Seq::<nat>::empty() =~= targsm);
                    assert(infer_list(es, ctors, st2, am, e_idx@).0 == st3);
                    assert(infer_list(es, ctors, st2, am, e_idx@).1 == Ok::<Seq<nat>, Seq<char>>(
                        targsm,
                    ));
                }
                let tr = self.fresh_unification();
                let ghost pre = self.volatile.type_arena@;
                let node = Type::Function { arguments: targs, result: tr };
                let ghost nodev = node;
                let medium = self.volatile.type_arena.allocate(node);
                proof {
                    crate::ty::lemma_types_m_push(pre, nodev);
                    crate::ty::lemma_types_wf_push(crate::ty::types_m(pre), nodev@);
                    assert(nodev@ == TypeM::Function { arguments: targsm, result: tr@ });
                }
                self.unify(tf2, medium);
                proof {
                    let fin = infer_spec(es, ctors, st0, e_idx@);
                    assert(fin.0 == self.infer_st());
                    assert(fin.1 == Ok::<nat, Seq<char>>(tr@));
                }
                Ok(tr)
            },
            Expr::Lambda { arguments, body } => {
                let body = *body;
                let names = clone_strings(arguments);
                let ghost nm = names@.map_values(|s: String| s@);
                proof {
                    assert(nm.skip(0) =~= nm);
                    assert(nm.len() == names@.len());
                    assert(es[e_idx@ as int] == ExprM::Lambda { arguments: nm, body: body@ });
                    assert(body@ < e_idx@);
                }
                // One fresh unification variable per parameter, in order.
                let mut fresh_ids: Vec<TypeId> = Vec::new();
                let mut i: usize = 0;
                while i < names.len()
                    invariant
                        self.wf(),
                        self.env_valid(),
                        i <= names@.len(),
                        fresh_ids@.len() == i,
                        self.exprs() == es,
                        self.environment == old(self).environment,
                        self.types().len() >= old(self).types().len(),
                        forall|j: int|
                            0 <= j < old(self).types().len() ==> self.types()[j] == old(
                                self,
                            ).types()[j],
                        crate::ty::ids_below(ids_m(fresh_ids@), self.types().len() as int),
                        lambda_freshes(st0.ts, st0.fresh, nm.len()) == {
                            let (tsx, fx, px) = lambda_freshes(
                                self.types(),
                                self.fresh as nat,
                                (nm.len() - i) as nat,
                            );
                            (tsx, fx, ids_m(fresh_ids@) + px)
                        },
                        self.queue() == st0.queue,
                    decreases names@.len() - i,
                {
                    let ghost tspre = self.types();
                    let ghost fpre = self.fresh as nat;
                    let ghost fidspre = ids_m(fresh_ids@);
                    let u = self.fresh_unification();
                    proof {
                        crate::ty::lemma_types_wf_push(tspre, TypeM::Unification { name: fpre });
                        assert(self.types() == tspre.push(TypeM::Unification { name: fpre }));
                        assert(u@ == tspre.len());
                    }
                    fresh_ids.push(u);
                    proof {
                        assert(ids_m(fresh_ids@) =~= fidspre + seq![u@]);
                        assert((nm.len() - i) as nat != 0);
                        assert(lambda_freshes(tspre, fpre, (nm.len() - i) as nat) == {
                            let (ts1x, f1x, restx) = lambda_freshes(
                                tspre.push(TypeM::Unification { name: fpre }),
                                fresh_next(fpre),
                                (nm.len() - i - 1) as nat,
                            );
                            (ts1x, f1x, seq![tspre.len()] + restx)
                        });
                        let (tsx, fx, px) = lambda_freshes(
                            self.types(),
                            self.fresh as nat,
                            (nm.len() - i - 1) as nat,
                        );
                        assert(fidspre + (seq![u@] + px) =~= (fidspre + seq![u@]) + px);
                    }
                    i = i + 1;
                }
                let ghost lf = lambda_freshes(st0.ts, st0.fresh, nm.len());
                proof {
                    assert((nm.len() - names@.len()) as nat == 0);
                    let (tsx, fx, px) = lambda_freshes(self.types(), self.fresh as nat, 0nat);
                    assert(px == Seq::<nat>::empty());
                    assert(ids_m(fresh_ids@) + px =~= ids_m(fresh_ids@));
                    assert(lf.0 == self.types());
                    assert(lf.1 == self.fresh as nat);
                    assert(lf.2 == ids_m(fresh_ids@));
                    assert(lf.2.len() == nm.len());
                    assert(lf.2.skip(0) =~= lf.2);
                    assert(nm.skip(0) =~= nm);
                    assert(vals_m(self.environment.values@) == st0.values);
                }
                // Bind each parameter for the body's inference.
                let mut i: usize = 0;
                while i < names.len()
                    invariant
                        self.wf(),
                        self.env_valid(),
                        i <= names@.len(),
                        names@.len() == fresh_ids@.len(),
                        nm == names@.map_values(|s: String| s@),
                        self.exprs() == es,
                        self.environment.constructors == old(self).environment.constructors,
                        self.environment.classes == old(self).environment.classes,
                        self.environment.instances == old(self).environment.instances,
                        self.types() == lf.0,
                        self.fresh as nat == lf.1,
                        self.queue() == st0.queue,
                        self.types().len() >= old(self).types().len(),
                        forall|j: int|
                            0 <= j < old(self).types().len() ==> self.types()[j] == old(
                                self,
                            ).types()[j],
                        crate::ty::ids_below(ids_m(fresh_ids@), self.types().len() as int),
                        insert_all(st0.values, nm, lf.2) == insert_all(
                            vals_m(self.environment.values@),
                            nm.skip(i as int),
                            lf.2.skip(i as int),
                        ),
                    decreases names@.len() - i,
                {
                    proof {
                        assert(nm.skip(i as int)[0] == nm[i as int]);
                        assert(nm[i as int] == names@[i as int]@);
                        assert(lf.2.skip(i as int)[0] == lf.2[i as int]);
                        assert(lf.2[i as int] == fresh_ids@[i as int]@);
                        assert(nm.skip(i as int).drop_first() =~= nm.skip(i as int + 1));
                        assert(lf.2.skip(i as int).drop_first() =~= lf.2.skip(i as int + 1));
                    }
                    let ghost vpre = self.environment.values@;
                    self.environment.values.insert(names[i].clone(), fresh_ids[i]);
                    proof {
                        lemma_vals_insert(vpre, names@[i as int]@, fresh_ids@[i as int]);
                    }
                    i = i + 1;
                }
                proof {
                    assert(nm.skip(names@.len() as int) =~= Seq::<Seq<char>>::empty());
                    assert(lf.2.skip(names@.len() as int) =~= Seq::<nat>::empty());
                }
                let ghost st1 = self.infer_st();
                proof {
                    assert(st1.ts == lf.0);
                    assert(st1.fresh == lf.1);
                    assert(st1.queue == st0.queue);
                    assert(st1.values == insert_all(st0.values, nm, lf.2));
                }
                let rb = self.infer(body);
                let ghost st2 = self.infer_st();
                // Remove the bindings on every exit path.
                let mut i: usize = 0;
                while i < names.len()
                    invariant
                        self.wf(),
                        self.env_valid(),
                        i <= names@.len(),
                        nm == names@.map_values(|s: String| s@),
                        self.exprs() == es,
                        self.environment.constructors == old(self).environment.constructors,
                        self.environment.classes == old(self).environment.classes,
                        self.environment.instances == old(self).environment.instances,
                        self.types() == st2.ts,
                        self.fresh as nat == st2.fresh,
                        self.queue() == st2.queue,
                        self.types().len() >= old(self).types().len(),
                        forall|j: int|
                            0 <= j < old(self).types().len() ==> self.types()[j] == old(
                                self,
                            ).types()[j],
                        remove_all(st2.values, nm) == remove_all(
                            vals_m(self.environment.values@),
                            nm.skip(i as int),
                        ),
                    decreases names@.len() - i,
                {
                    proof {
                        assert(nm.skip(i as int)[0] == nm[i as int]);
                        assert(nm[i as int] == names@[i as int]@);
                        assert(nm.skip(i as int).drop_first() =~= nm.skip(i as int + 1));
                    }
                    let ghost vpre = self.environment.values@;
                    self.environment.values.remove(&names[i]);
                    proof {
                        lemma_vals_remove(vpre, names@[i as int]@);
                    }
                    i = i + 1;
                }
                proof {
                    assert(nm.skip(names@.len() as int) =~= Seq::<Seq<char>>::empty());
                    assert(remove_all(st2.values, nm) == vals_m(self.environment.values@));
                }
                match rb {
                    Err(e) => {
                        proof {
                            let fin = infer_spec(es, ctors, st0, e_idx@);
                            assert(fin.0 == self.infer_st());
                            assert(fin.1 == Err::<nat, Seq<char>>(e@));
                        }
                        Err(e)
                    },
                    Ok(tb) => {
                        let ghost pre = self.volatile.type_arena@;
                        let node = Type::Function { arguments: fresh_ids, result: tb };
                        let ghost nodev = node;
                        let out = self.volatile.type_arena.allocate(node);
                        proof {
                            crate::ty::lemma_types_m_push(pre, nodev);
                            crate::ty::lemma_types_wf_push(crate::ty::types_m(pre), nodev@);
                            assert(nodev@ == TypeM::Function { arguments: lf.2, result: tb@ });
                            let fin = infer_spec(es, ctors, st0, e_idx@);
                            assert(fin.0 == self.infer_st());
                            assert(fin.1 == Ok::<nat, Seq<char>>(out@));
                        }
                        Ok(out)
                    },
                }
            },
        }
    }
}

} // verus!

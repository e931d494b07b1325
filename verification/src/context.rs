//! The shared context: the environment of constructors, values, classes and
//! instances, the two arenas, the fresh-identifier counter, and the
//! constraint work queue.

use vstd::prelude::*;
use concurrent_queue::ConcurrentQueue;
use crate::arena::Arena;
use crate::constraint::{constraints_m, Constraint, ConstraintM};
use crate::expr::{exprs_m, exprs_wf, Expr, ExprM};
use crate::names::NameMap;
use crate::queue::{new_constraint_queue, queue_contents, queue_is_empty, queue_live, queue_pop,
    queue_push};
use crate::ty::{assert_m_wf, types_m, types_wf, AssertM, Class, FundepM, InstM, Instance, Type,
    TypeId, TypeM};

verus! {

/// The read-mostly environment inference consults.
pub struct Environment {
    pub constructors: NameMap<TypeId>,
    pub values: NameMap<TypeId>,
    pub classes: NameMap<Class>,
    pub instances: NameMap<Vec<Instance>>,
}

/// The models of a list of instances.
pub open spec fn insts_m(s: Seq<Instance>) -> Seq<InstM> {
    s.map_values(|i: Instance| i@)
}

/// Copies a list of instances, preserving their models.
pub fn clone_instances(v: &Vec<Instance>) -> (r: Vec<Instance>)
    ensures
        insts_m(r@) == insts_m(v@),
        r@.len() == v@.len(),
{
    let mut r: Vec<Instance> = Vec::new();
    let mut i: usize = 0;
    while i < v.len()
        invariant
            i <= v.len(),
            r@.len() == i,
            forall|j: int| 0 <= j < i ==> (#[trigger] r@[j])@ == v@[j]@,
        decreases v.len() - i,
    {
        let c = v[i].clone();
        proof {
            assert(c@ == v@[i as int]@);
        }
        r.push(c);
        i = i + 1;
    }
    assert(insts_m(r@) =~= insts_m(v@));
    r
}

impl Environment {
    pub open spec fn wf(self) -> bool {
        &&& self.constructors.wf()
        &&& self.values.wf()
        &&& self.classes.wf()
        &&& self.instances.wf()
    }

    pub fn new() -> (r: Self)
        ensures
            r.wf(),
            r.constructors@ == Map::<Seq<char>, TypeId>::empty(),
            r.values@ == Map::<Seq<char>, TypeId>::empty(),
            r.classes@ == Map::<Seq<char>, Class>::empty(),
            r.instances@ == Map::<Seq<char>, Vec<Instance>>::empty(),
    {
        Environment {
            constructors: NameMap::new(),
            values: NameMap::new(),
            classes: NameMap::new(),
            instances: NameMap::new(),
        }
    }

    /// Binds a constructor name to its declared type.
    pub fn insert_constructor(&mut self, name: String, ty: TypeId)
        requires
            old(self).wf(),
        ensures
            final(self).wf(),
            final(self).constructors@ == old(self).constructors@.insert(name@, ty),
            final(self).values == old(self).values,
            final(self).classes == old(self).classes,
            final(self).instances == old(self).instances,
    {
        self.constructors.insert(name, ty);
    }

    /// Binds a value name to its declared type.
    pub fn insert_value(&mut self, name: String, ty: TypeId)
        requires
            old(self).wf(),
        ensures
            final(self).wf(),
            final(self).values@ == old(self).values@.insert(name@, ty),
            final(self).constructors == old(self).constructors,
            final(self).classes == old(self).classes,
            final(self).instances == old(self).instances,
    {
        self.values.insert(name, ty);
    }

    /// Records a class declaration.
    pub fn insert_class(&mut self, name: String, class: Class)
        requires
            old(self).wf(),
        ensures
            final(self).wf(),
            final(self).classes@ == old(self).classes@.insert(name@, class),
            final(self).constructors == old(self).constructors,
            final(self).values == old(self).values,
            final(self).instances == old(self).instances,
    {
        self.classes.insert(name, class);
    }

    /// Appends an instance to a class's declaration list; declaration
    /// order is significant, as the first matching instance wins.
    pub fn insert_instance(&mut self, name: String, instance: Instance)
        requires
            old(self).wf(),
        ensures
            final(self).wf(),
            final(self).instances@.contains_key(name@),
            insts_m(final(self).instances@[name@]@) == if old(self).instances@.contains_key(
                name@,
            ) {
                insts_m(old(self).instances@[name@]@).push(instance@)
            } else {
                seq![instance@]
            },
            forall|k: Seq<char>|
                k != name@ ==> (#[trigger] final(self).instances@.contains_key(k)) == old(
                    self,
                ).instances@.contains_key(k) && (old(self).instances@.contains_key(k)
                    ==> final(self).instances@[k] == old(self).instances@[k]),
            final(self).constructors == old(self).constructors,
            final(self).values == old(self).values,
            final(self).classes == old(self).classes,
    {
        let mut list = self.find_instances(&name);
        let ghost pre = insts_m(list@);
        list.push(instance);
        proof {
            assert(insts_m(list@) =~= pre.push(list@.last()@));
            if !old(self).instances@.contains_key(name@) {
                assert(insts_m(list@) =~= seq![list@.last()@]);
            }
        }
        self.instances.insert(name, list);
    }

    /// The type a value name is bound to, if any.
    pub fn lookup_value(&self, name: &String) -> (r: Option<TypeId>)
        requires
            self.wf(),
        ensures
            match r {
                Some(ty) => self.values@.contains_key(name@) && ty == self.values@[name@],
                None => !self.values@.contains_key(name@),
            },
    {
        match self.values.get(name) {
            Some(ty) => Some(*ty),
            None => None,
        }
    }

    /// The type a constructor name is bound to, if any.
    pub fn lookup_constructor(&self, name: &String) -> (r: Option<TypeId>)
        requires
            self.wf(),
        ensures
            match r {
                Some(ty) => self.constructors@.contains_key(name@) && ty == self.constructors@[
                    name@
                ],
                None => !self.constructors@.contains_key(name@),
            },
    {
        match self.constructors.get(name) {
            Some(ty) => Some(*ty),
            None => None,
        }
    }

    /// The instances declared for a class, in declaration order; a class
    /// with no entry has none.
    pub fn find_instances(&self, name: &String) -> (r: Vec<Instance>)
        requires
            self.wf(),
        ensures
            insts_m(r@) == if self.instances@.contains_key(name@) {
                insts_m(self.instances@[name@]@)
            } else {
                Seq::<InstM>::empty()
            },
    {
        match self.instances.get(name) {
            Some(v) => clone_instances(v),
            None => {
                let r: Vec<Instance> = Vec::new();
                assert(insts_m(r@) =~= Seq::<InstM>::empty());
                r
            },
        }
    }
}

/// The mutable allocation state: both arenas.
pub struct Volatile {
    pub expr_arena: Arena<Expr>,
    pub type_arena: Arena<Type>,
}

/// The shared state of an inference run.
pub struct Context {
    pub environment: Environment,
    pub volatile: Volatile,
    /// Monotonically increasing source of unification-variable identifiers
    /// and obligation markers.
    pub fresh: usize,
    pub constraints: ConcurrentQueue<Constraint>,
}

/// What the fresh counter becomes after one draw: it advances until it
/// reaches the top of its range, where further draws stop succeeding.
pub open spec fn fresh_next(f: nat) -> nat {
    if f < usize::MAX as nat {
        f + 1
    } else {
        f
    }
}

impl Context {
    /// The model of the type arena.
    pub open spec fn types(self) -> Seq<TypeM> {
        types_m(self.volatile.type_arena@)
    }

    /// The model of the expression arena.
    pub open spec fn exprs(self) -> Seq<ExprM> {
        exprs_m(self.volatile.expr_arena@)
    }

    /// The model of the constraint queue, oldest first.
    pub open spec fn queue(self) -> Seq<ConstraintM> {
        constraints_m(queue_contents(self.constraints))
    }

    pub open spec fn wf(self) -> bool {
        &&& self.environment.wf()
        &&& types_wf(self.types())
        &&& exprs_wf(self.exprs())
        &&& queue_live(self.constraints)
    }

    pub fn new() -> (r: Self)
        ensures
            r.wf(),
            r.fresh == 0,
            r.types() == Seq::<TypeM>::empty(),
            r.exprs() == Seq::<ExprM>::empty(),
            r.queue() == Seq::<ConstraintM>::empty(),
            r.environment.constructors@ == Map::<Seq<char>, TypeId>::empty(),
            r.environment.values@ == Map::<Seq<char>, TypeId>::empty(),
            r.environment.classes@ == Map::<Seq<char>, Class>::empty(),
            r.environment.instances@ == Map::<Seq<char>, Vec<Instance>>::empty(),
    {
        let r = Context {
            environment: Environment::new(),
            volatile: Volatile { expr_arena: Arena::new(), type_arena: Arena::new() },
            fresh: 0,
            constraints: new_constraint_queue(),
        };
        proof {
            assert(r.types() =~= Seq::<TypeM>::empty());
            assert(r.exprs() =~= Seq::<ExprM>::empty());
            assert(r.queue() =~= Seq::<ConstraintM>::empty());
        }
        r
    }

    /// Draws a fresh identifier.  Identifiers are handed out in increasing
    /// order and never reused while the counter still advances.
    pub fn fresh_index(&mut self) -> (r: usize)
        ensures
            r == old(self).fresh,
            final(self).fresh as nat == fresh_next(old(self).fresh as nat),
            final(self).environment == old(self).environment,
            final(self).volatile == old(self).volatile,
            final(self).constraints == old(self).constraints,
    {
        let index = self.fresh;
        if self.fresh < usize::MAX {
            self.fresh = self.fresh + 1;
        }
        index
    }

    /// Allocates a `Unification` node bearing a fresh identifier.
    pub fn fresh_unification(&mut self) -> (r: TypeId)
        ensures
            r@ == old(self).types().len(),
            final(self).types() == old(self).types().push(
                TypeM::Unification { name: old(self).fresh as nat },
            ),
            final(self).fresh as nat == fresh_next(old(self).fresh as nat),
            final(self).environment == old(self).environment,
            final(self).volatile.expr_arena == old(self).volatile.expr_arena,
            final(self).constraints == old(self).constraints,
    {
        let name = self.fresh_index();
        let ghost pre = self.volatile.type_arena@;
        let r = self.volatile.type_arena.allocate(Type::Unification { name });
        proof {
            crate::ty::lemma_types_m_push(pre, Type::Unification { name });
        }
        r
    }

    /// Appends a constraint to the work queue.
    pub fn push_constraint(&mut self, c: Constraint)
        requires
            queue_live(old(self).constraints),
        ensures
            queue_live(final(self).constraints),
            final(self).queue() == old(self).queue().push(c@),
            final(self).environment == old(self).environment,
            final(self).volatile == old(self).volatile,
            final(self).fresh == old(self).fresh,
    {
        let ghost pre = queue_contents(self.constraints);
        let _ok = queue_push(&mut self.constraints, c);
        proof {
            assert(constraints_m(pre.push(c)) =~= constraints_m(pre).push(c@));
        }
    }

    /// Removes and returns the oldest queued constraint, if any.
    pub fn pop_constraint(&mut self) -> (r: Option<Constraint>)
        requires
            queue_live(old(self).constraints),
        ensures
            queue_live(final(self).constraints),
            final(self).environment == old(self).environment,
            final(self).volatile == old(self).volatile,
            final(self).fresh == old(self).fresh,
            match r {
                Some(c) => old(self).queue().len() > 0 && c@ == old(self).queue()[0]
                    && final(self).queue() == old(self).queue().drop_first(),
                None => old(self).queue().len() == 0 && final(self).queue() == old(self).queue(),
            },
    {
        let ghost pre = queue_contents(self.constraints);
        let r = queue_pop(&mut self.constraints);
        proof {
            if pre.len() > 0 {
                assert(constraints_m(pre.drop_first()) =~= constraints_m(pre).drop_first());
                assert(constraints_m(pre)[0] == pre[0]@);
            }
        }
        r
    }

    /// Whether the work queue is empty.
    pub fn constraints_empty(&self) -> (r: bool)
        requires
            queue_live(self.constraints),
        ensures
            r == (self.queue().len() == 0),
    {
        queue_is_empty(&self.constraints)
    }
}

impl Default for Context {
    fn default() -> (r: Self)
        ensures
            r.wf(),
            r.fresh == 0,
            r.types() == Seq::<TypeM>::empty(),
            r.exprs() == Seq::<ExprM>::empty(),
            r.queue() == Seq::<ConstraintM>::empty(),
            r.environment.constructors@ == Map::<Seq<char>, TypeId>::empty(),
            r.environment.values@ == Map::<Seq<char>, TypeId>::empty(),
            r.environment.classes@ == Map::<Seq<char>, Class>::empty(),
            r.environment.instances@ == Map::<Seq<char>, Vec<Instance>>::empty(),
    {
        Context::new()
    }
}

/// Fresh uniqueness: no two successful draws from the counter return the
/// same identifier.  A successful draw returns the counter's value and
/// advances it, and the counter never moves backwards, so an identifier
/// drawn while the counter still advances differs from every later one.
pub proof fn lemma_fresh_markers_distinct(m1: nat, f1: nat, m2: nat, f2: nat)
    requires
        m1 == f1,
        f1 < usize::MAX as nat,
        fresh_next(f1) <= f2,
        m2 == f2,
    ensures
        m1 != m2,
{
}

// ---------------------------------------------------------------------------
// Validity of environment entries and constraints relative to the arena.
// ---------------------------------------------------------------------------

/// Every binding of the map points into the arena.
pub open spec fn bindings_valid(m: Map<Seq<char>, TypeId>, tlen: int) -> bool {
    forall|k: Seq<char>| m.contains_key(k) ==> (#[trigger] m[k])@ < tlen
}

/// Every functional dependency's domain position fits an assertion of the
/// given arity.
pub open spec fn fundeps_fit(fds: Seq<FundepM>, arity: int) -> bool {
    forall|i: int, j: int|
        0 <= i < fds.len() && 0 <= j < fds[i].domain.len() ==> #[trigger] fds[i].domain[j] < arity
}

/// The assertion can be handed to the entailer: its arguments point into
/// the arena, its class is declared with an instance list, and the class's
/// functional dependencies fit the assertion's arity.
pub open spec fn assertion_entailable(a: AssertM, env: Environment, tlen: int) -> bool {
    &&& assert_m_wf(a, tlen)
    &&& env.classes@.contains_key(a.name)
    &&& env.instances@.contains_key(a.name)
    &&& fundeps_fit(env.classes@[a.name]@, a.args.len() as int)
}

/// An instance is usable: its head and dependencies point into the arena,
/// and each dependency's class is itself declared and entailable.
pub open spec fn inst_ok(i: InstM, env: Environment, tlen: int) -> bool {
    &&& assert_m_wf(i.assertion, tlen)
    &&& forall|d: int|
        0 <= d < i.dependencies.len() ==> assertion_entailable(
            #[trigger] i.dependencies[d],
            env,
            tlen,
        )
}

/// All declared instances are usable.
pub open spec fn instances_ok(env: Environment, tlen: int) -> bool {
    forall|k: Seq<char>, i: int|
        env.instances@.contains_key(k) && 0 <= i < env.instances@[k]@.len()
            ==> inst_ok((#[trigger] env.instances@[k]@[i])@, env, tlen)
}

/// A queued constraint is valid relative to the environment and arena.
pub open spec fn constraint_m_valid(c: ConstraintM, env: Environment, tlen: int) -> bool {
    match c {
        ConstraintM::ClassEntail(marker, a) => assertion_entailable(a, env, tlen),
        ConstraintM::UnifyDeep(p, q) => true,
        ConstraintM::UnifySolve(v, t) => t < tlen,
        ConstraintM::UnifyError(e) => true,
    }
}

pub open spec fn constraints_valid(cs: Seq<ConstraintM>, env: Environment, tlen: int) -> bool {
    forall|i: int| 0 <= i < cs.len() ==> constraint_m_valid(#[trigger] cs[i], env, tlen)
}

} // verus!

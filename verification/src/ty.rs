//! The type grammar: structural types with polymorphism, qualified
//! constraints, and application/function forms, plus the class and instance
//! records the entailer consults.
//!
//! Type nodes live in an arena and refer to one another by handle.  A
//! well-formed arena is a DAG: every node refers only to nodes allocated
//! before it, which is what every structural recursion in this crate
//! decreases on.  Each executable type has a mathematical model (its view);
//! every contract in the crate speaks of models.

use vstd::prelude::*;
use crate::arena::Idx;

verus! {

pub type TypeId = Idx<Type>;

#[derive(Debug)]
pub struct TypeVariableBinder {
    pub name: String,
}

/// A class membership claim `C t1 .. tn`.
#[derive(Debug)]
pub struct Assertion {
    pub name: String,
    pub arguments: Vec<TypeId>,
}

#[derive(Debug)]
pub enum Type {
    /// A named concrete type constructor.
    Constructor { name: String },
    /// A bound type variable; `rank` distinguishes variables bound by
    /// different enclosing `Forall`s.
    Variable { name: String, rank: usize },
    /// A unification variable with numeric identity.
    Unification { name: usize },
    Function { arguments: Vec<TypeId>, result: TypeId },
    Application { function: TypeId, arguments: Vec<TypeId> },
    Forall { variables: Vec<TypeVariableBinder>, rank: usize, ty: TypeId },
    /// A qualified type `C a => t`; appears directly under a `Forall`.
    Constrained { assertions: Vec<Assertion>, ty: TypeId },
}

/// A functional dependency: the domain argument positions of a class
/// determine the codomain positions.
#[derive(Debug)]
pub struct FunctionalDependency {
    pub domain: Vec<usize>,
    pub codomain: Vec<usize>,
}

#[derive(Debug)]
pub struct Class {
    pub functional_dependencies: Vec<FunctionalDependency>,
}

/// An instance rule `D1 /\ .. /\ Dn => C t1 .. tn`.
#[derive(Debug)]
pub struct Instance {
    pub assertion: Assertion,
    pub dependencies: Vec<Assertion>,
}

// ---------------------------------------------------------------------------
// Mathematical models.  Handles are modelled as their arena positions.
// ---------------------------------------------------------------------------

/// Model of an [`Assertion`].
pub ghost struct AssertM {
    pub name: Seq<char>,
    pub args: Seq<nat>,
}

/// Model of a [`Type`] node.
pub ghost enum TypeM {
    Constructor { name: Seq<char> },
    Variable { name: Seq<char>, rank: nat },
    Unification { name: nat },
    Function { arguments: Seq<nat>, result: nat },
    Application { function: nat, arguments: Seq<nat> },
    Forall { variables: Seq<Seq<char>>, rank: nat, ty: nat },
    Constrained { assertions: Seq<AssertM>, ty: nat },
}

/// The positions a list of handles points at.
pub open spec fn ids_m(ids: Seq<TypeId>) -> Seq<nat> {
    ids.map_values(|id: TypeId| id@)
}

impl Assertion {
    pub open spec fn view(self) -> AssertM {
        AssertM { name: self.name@, args: ids_m(self.arguments@) }
    }
}

impl Type {
    pub open spec fn view(self) -> TypeM {
        match self {
            Type::Constructor { name } => TypeM::Constructor { name: name@ },
            Type::Variable { name, rank } => TypeM::Variable { name: name@, rank: rank as nat },
            Type::Unification { name } => TypeM::Unification { name: name as nat },
            Type::Function { arguments, result } => TypeM::Function {
                arguments: ids_m(arguments@),
                result: result@,
            },
            Type::Application { function, arguments } => TypeM::Application {
                function: function@,
                arguments: ids_m(arguments@),
            },
            Type::Forall { variables, rank, ty } => TypeM::Forall {
                variables: variables@.map_values(|b: TypeVariableBinder| b.name@),
                rank: rank as nat,
                ty: ty@,
            },
            Type::Constrained { assertions, ty } => TypeM::Constrained {
                assertions: assertions@.map_values(|a: Assertion| a@),
                ty: ty@,
            },
        }
    }
}

/// Model of a [`FunctionalDependency`].
pub ghost struct FundepM {
    pub domain: Seq<nat>,
    pub codomain: Seq<nat>,
}

/// Model of an [`Instance`].
pub ghost struct InstM {
    pub assertion: AssertM,
    pub dependencies: Seq<AssertM>,
}

impl FunctionalDependency {
    pub open spec fn view(self) -> FundepM {
        FundepM {
            domain: self.domain@.map_values(|x: usize| x as nat),
            codomain: self.codomain@.map_values(|x: usize| x as nat),
        }
    }
}

impl Class {
    /// Model of a [`Class`]: its functional dependencies.
    pub open spec fn view(self) -> Seq<FundepM> {
        self.functional_dependencies@.map_values(|f: FunctionalDependency| f@)
    }
}

impl Instance {
    pub open spec fn view(self) -> InstM {
        InstM {
            assertion: self.assertion@,
            dependencies: self.dependencies@.map_values(|a: Assertion| a@),
        }
    }
}

/// The model of a whole type arena.
pub open spec fn types_m(ts: Seq<Type>) -> Seq<TypeM> {
    ts.map_values(|t: Type| t@)
}

pub proof fn lemma_types_m_push(ts: Seq<Type>, t: Type)
    ensures
        types_m(ts.push(t)) == types_m(ts).push(t@),
{
    assert(types_m(ts.push(t)) =~= types_m(ts).push(t@));
}

// ---------------------------------------------------------------------------
// Well-formedness: every handle held by a node points strictly below the node.
// ---------------------------------------------------------------------------

/// All positions in `ids` lie strictly below `bound`.
pub open spec fn ids_below(ids: Seq<nat>, bound: int) -> bool {
    forall|i: int| 0 <= i < ids.len() ==> (#[trigger] ids[i]) < bound
}

/// All of the assertion's argument positions lie strictly below `bound`.
pub open spec fn assert_m_wf(a: AssertM, bound: int) -> bool {
    ids_below(a.args, bound)
}

pub open spec fn asserts_m_wf(s: Seq<AssertM>, bound: int) -> bool {
    forall|i: int| 0 <= i < s.len() ==> assert_m_wf(#[trigger] s[i], bound)
}

/// Every position the node holds lies strictly below `bound`.
pub open spec fn ty_m_wf(t: TypeM, bound: int) -> bool {
    match t {
        TypeM::Constructor { .. } => true,
        TypeM::Variable { .. } => true,
        TypeM::Unification { .. } => true,
        TypeM::Function { arguments, result } => ids_below(arguments, bound) && result < bound,
        TypeM::Application { function, arguments } => function < bound && ids_below(
            arguments,
            bound,
        ),
        TypeM::Forall { ty, .. } => ty < bound,
        TypeM::Constrained { assertions, ty } => asserts_m_wf(assertions, bound) && ty < bound,
    }
}

/// The arena is a DAG: each node refers only to nodes allocated before it.
pub open spec fn types_wf(ts: Seq<TypeM>) -> bool {
    forall|i: int| 0 <= i < ts.len() ==> ty_m_wf(#[trigger] ts[i], i)
}

pub proof fn lemma_types_wf_push(ts: Seq<TypeM>, t: TypeM)
    requires
        types_wf(ts),
        ty_m_wf(t, ts.len() as int),
    ensures
        types_wf(ts.push(t)),
{
    let ts2 = ts.push(t);
    assert forall|i: int| 0 <= i < ts2.len() implies ty_m_wf(#[trigger] ts2[i], i) by {
        if i < ts.len() {
            assert(ts2[i] == ts[i]);
        } else {
            assert(ts2[i] == t);
        }
    }
}

// ---------------------------------------------------------------------------
// Owned copies of node parts.
// ---------------------------------------------------------------------------

impl Type {
    /// A type is polymorphic iff its outermost constructor is `Forall`.
    pub fn is_polymorphic(&self) -> (r: bool)
        ensures
            r == (self@ is Forall),
    {
        matches!(self, Type::Forall { .. })
    }
}

/// Copies a list of handles.
pub fn clone_ids(v: &Vec<TypeId>) -> (r: Vec<TypeId>)
    ensures
        r@ == v@,
{
    let mut r: Vec<TypeId> = Vec::new();
    let mut i: usize = 0;
    while i < v.len()
        invariant
            i <= v.len(),
            r@ == v@.subrange(0, i as int),
        decreases v.len() - i,
    {
        r.push(v[i]);
        i = i + 1;
    }
    assert(v@.subrange(0, v@.len() as int) == v@);
    r
}

pub fn clone_binders(v: &Vec<TypeVariableBinder>) -> (r: Vec<TypeVariableBinder>)
    ensures
        r@.map_values(|b: TypeVariableBinder| b.name@) == v@.map_values(
            |b: TypeVariableBinder| b.name@,
        ),
        r@.len() == v@.len(),
{
    let mut r: Vec<TypeVariableBinder> = Vec::new();
    let mut i: usize = 0;
    while i < v.len()
        invariant
            i <= v.len(),
            r@.len() == i,
            forall|j: int| 0 <= j < i ==> (#[trigger] r@[j]).name@ == v@[j].name@,
        decreases v.len() - i,
    {
        r.push(TypeVariableBinder { name: v[i].name.clone() });
        i = i + 1;
    }
    assert(r@.map_values(|b: TypeVariableBinder| b.name@) =~= v@.map_values(
        |b: TypeVariableBinder| b.name@,
    ));
    r
}

impl Clone for Assertion {
    fn clone(&self) -> (r: Self)
        ensures
            r@ == self@,
            r.arguments@ == self.arguments@,
    {
        Assertion { name: self.name.clone(), arguments: clone_ids(&self.arguments) }
    }
}

pub fn clone_assertions(v: &Vec<Assertion>) -> (r: Vec<Assertion>)
    ensures
        r@.map_values(|a: Assertion| a@) == v@.map_values(|a: Assertion| a@),
        r@.len() == v@.len(),
{
    let mut r: Vec<Assertion> = Vec::new();
    let mut i: usize = 0;
    while i < v.len()
        invariant
            i <= v.len(),
            r@.len() == i,
            forall|j: int| 0 <= j < i ==> (#[trigger] r@[j])@ == v@[j]@,
        decreases v.len() - i,
    {
        r.push(v[i].clone());
        i = i + 1;
    }
    assert(r@.map_values(|a: Assertion| a@) =~= v@.map_values(|a: Assertion| a@));
    r
}

impl Clone for Instance {
    fn clone(&self) -> (r: Self)
        ensures
            r.assertion@ == self.assertion@,
            r.dependencies@.map_values(|a: Assertion| a@) == self.dependencies@.map_values(
                |a: Assertion| a@,
            ),
            r.dependencies@.len() == self.dependencies@.len(),
    {
        Instance {
            assertion: self.assertion.clone(),
            dependencies: clone_assertions(&self.dependencies),
        }
    }
}

} // verus!

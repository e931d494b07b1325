//! The expression grammar the inferencer consumes.  Expression nodes are
//! input: the front end allocates them, inference never mutates them.

use vstd::prelude::*;
use crate::arena::Idx;

verus! {

pub type ExprId = Idx<Expr>;

#[derive(Debug)]
pub enum Expr {
    Constructor { name: String },
    Variable { name: String },
    Application { function: ExprId, arguments: Vec<ExprId> },
    Lambda { arguments: Vec<String>, body: ExprId },
}

/// Model of an [`Expr`] node.
pub ghost enum ExprM {
    Constructor { name: Seq<char> },
    Variable { name: Seq<char> },
    Application { function: nat, arguments: Seq<nat> },
    Lambda { arguments: Seq<Seq<char>>, body: nat },
}

impl Expr {
    pub open spec fn view(self) -> ExprM {
        match self {
            Expr::Constructor { name } => ExprM::Constructor { name: name@ },
            Expr::Variable { name } => ExprM::Variable { name: name@ },
            Expr::Application { function, arguments } => ExprM::Application {
                function: function@,
                arguments: arguments@.map_values(|id: ExprId| id@),
            },
            Expr::Lambda { arguments, body } => ExprM::Lambda {
                arguments: arguments@.map_values(|s: String| s@),
                body: body@,
            },
        }
    }
}

/// The model of a whole expression arena.
pub open spec fn exprs_m(es: Seq<Expr>) -> Seq<ExprM> {
    es.map_values(|e: Expr| e@)
}

/// Every position the node holds lies strictly below `bound`.
pub open spec fn expr_m_wf(e: ExprM, bound: int) -> bool {
    match e {
        ExprM::Constructor { .. } => true,
        ExprM::Variable { .. } => true,
        ExprM::Application { function, arguments } => function < bound
            && crate::ty::ids_below(arguments, bound),
        ExprM::Lambda { body, .. } => body < bound,
    }
}

/// The expression arena is a DAG.
pub open spec fn exprs_wf(es: Seq<ExprM>) -> bool {
    forall|i: int| 0 <= i < es.len() ==> expr_m_wf(#[trigger] es[i], i)
}

/// Copies a list of names.
pub fn clone_strings(v: &Vec<String>) -> (r: Vec<String>)
    ensures
        r@ == v@,
{
    let mut r: Vec<String> = Vec::new();
    let mut i: usize = 0;
    while i < v.len()
        invariant
            i <= v.len(),
            r@ == v@.subrange(0, i as int),
        decreases v.len() - i,
    {
        r.push(v[i].clone());
        i = i + 1;
    }
    assert(v@.subrange(0, v@.len() as int) == v@);
    r
}

} // verus!

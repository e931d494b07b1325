//! Inference and unification scenarios: function unification, lambda
//! inference, instantiation of qualified polytypes, and application
//! inference with constraint solving.

use iwc_core::constraint::Constraint;
use iwc_core::context::Context;
use iwc_core::pretty::{pretty_print_assertion, pretty_print_ty};
use iwc_core::solve::Solve;
use iwc_core::expr::Expr;
use iwc_core::ty::{Assertion, Type, TypeVariableBinder};

#[test]
fn function_unification() {
    let mut context = Context::default();

    let unit = context.volatile.type_arena.allocate(Type::Constructor {
        name: "Unit".into(),
    });
    let f = context.volatile.type_arena.allocate(Type::Function {
        arguments: vec![unit],
        result: unit,
    });

    let u_zero = context
        .volatile
        .type_arena
        .allocate(Type::Unification { name: 0 });
    let u_one = context
        .volatile
        .type_arena
        .allocate(Type::Unification { name: 1 });
    let g = context.volatile.type_arena.allocate(Type::Function {
        arguments: vec![u_zero],
        result: u_one,
    });

    context.unify(f, g);
    while let Some(constraint) = context.pop_constraint() {
        println!("{:?}", constraint);
    }
}

#[test]
fn lambda_inference() {
    let mut context = Context::default();

    let b = context
        .volatile
        .expr_arena
        .allocate(Expr::Variable { name: "a".into() });

    let f = context.volatile.expr_arena.allocate(Expr::Lambda {
        arguments: vec!["a".into(), "b".into()],
        body: b,
    });

    let t = context.infer(f).unwrap();
    println!("{}", pretty_print_ty(&context.volatile.type_arena, t))
}

#[test]
fn polytype_inference() {
    let mut context = Context::default();

    let eq = {
        let boolean = context.volatile.type_arena.allocate(Type::Constructor {
            name: "Boolean".into(),
        });
        let a = context.volatile.type_arena.allocate(Type::Variable {
            name: "a".into(),
            rank: 0,
        });
        let a_a_boolean = context.volatile.type_arena.allocate(Type::Function {
            arguments: vec![a, a],
            result: boolean,
        });
        let eq_a_a_boolean = context.volatile.type_arena.allocate(Type::Constrained {
            assertions: vec![
                Assertion {
                    name: "Eq".into(),
                    arguments: vec![a],
                },
                Assertion {
                    name: "Ord".into(),
                    arguments: vec![a],
                },
            ],
            ty: a_a_boolean,
        });
        context.volatile.type_arena.allocate(Type::Forall {
            variables: vec![TypeVariableBinder { name: "a".into() }],
            rank: 0,
            ty: eq_a_a_boolean,
        })
    };

    context.environment.values.insert("eq".into(), eq);

    let eq = context
        .volatile
        .expr_arena
        .allocate(Expr::Variable { name: "eq".into() });

    let ty = context.infer(eq).unwrap();
    let ty = context.instantiate(ty);

    println!("{}", pretty_print_ty(&context.volatile.type_arena, ty));

    let mut assertions = vec![];
    while let Some(constraint) = context.pop_constraint() {
        if let Constraint::ClassEntail(_, assertion) = constraint {
            assertions.push(assertion);
        }
    }

    for assertion in &assertions {
        println!(
            "{}",
            pretty_print_assertion(&context.volatile.type_arena, assertion)
        );
    }
}

#[test]
fn application_inference() {
    let mut context = Context::default();

    let identity = {
        let a = context.volatile.type_arena.allocate(Type::Variable {
            name: "a".into(),
            rank: 0,
        });
        let a_to_a = context.volatile.type_arena.allocate(Type::Function {
            arguments: vec![a],
            result: a,
        });
        context.volatile.type_arena.allocate(Type::Forall {
            variables: vec![TypeVariableBinder { name: "a".into() }],
            rank: 0,
            ty: a_to_a,
        })
    };

    let zero = context
        .volatile
        .type_arena
        .allocate(Type::Constructor { name: "Int".into() });

    context.environment.values.insert("identity".into(), identity);

    context.environment.values.insert("zero".into(), zero);

    let identity_zero = {
        let identity = context.volatile.expr_arena.allocate(Expr::Variable {
            name: "identity".into(),
        });
        let zero = context
            .volatile
            .expr_arena
            .allocate(Expr::Variable { name: "zero".into() });
        context.volatile.expr_arena.allocate(Expr::Application {
            function: identity,
            arguments: vec![zero],
        })
    };

    let ty = context.infer(identity_zero).unwrap();
    println!("{}", pretty_print_ty(&context.volatile.type_arena, ty));

    while let Some(constraint) = context.pop_constraint() {
        if let Constraint::UnifySolve(name, ty) = constraint {
            println!(
                "?{} ~ {}",
                name,
                pretty_print_ty(&context.volatile.type_arena, ty)
            );
        } else if let Constraint::UnifyDeep(u, t) = constraint {
            println!("?{} ~ ?{}", u, t);
        }
    }
}

#[test]
fn unification_solving() {
    let mut context = Context::default();

    let unit_ty = context.volatile.type_arena.allocate(Type::Constructor {
        name: "Unit".into(),
    });
    context.environment.values.insert("unit".into(), unit_ty);

    let int_ty = context
        .volatile
        .type_arena
        .allocate(Type::Constructor { name: "Int".into() });
    context.environment.values.insert("zero".into(), int_ty);

    let identity_ty = {
        let a_ty = context.volatile.type_arena.allocate(Type::Variable {
            name: "a".into(),
            rank: 0,
        });
        let a_to_a_ty = context.volatile.type_arena.allocate(Type::Function {
            arguments: vec![a_ty],
            result: a_ty,
        });
        context.volatile.type_arena.allocate(Type::Forall {
            variables: vec![TypeVariableBinder { name: "a".into() }],
            rank: 0,
            ty: a_to_a_ty,
        })
    };
    context.environment.values.insert("identity".into(), identity_ty);

    let identity_zero = {
        let identity = context.volatile.expr_arena.allocate(Expr::Variable {
            name: "identity".into(),
        });
        let zero = context
            .volatile
            .expr_arena
            .allocate(Expr::Variable { name: "zero".into() });
        context.volatile.expr_arena.allocate(Expr::Application {
            function: identity,
            arguments: vec![zero],
        })
    };

    let ty = context.infer(identity_zero).unwrap();
    println!("{}", pretty_print_ty(&context.volatile.type_arena, ty));

    let mut solver = Solve::new(context);

    println!("{:?}", solver.unification_solved);
    println!("{:?}", solver.unification_deferred);
    println!("{:?}", solver.unification_errors);

    solver.step();
    println!("{:?}", solver.unification_solved);
    println!("{:?}", solver.unification_deferred);
    println!("{:?}", solver.unification_errors);

    solver.step();
    println!("{:?}", solver.unification_solved);
    println!("{:?}", solver.unification_deferred);
    println!("{:?}", solver.unification_errors);
}

#[test]
fn lib_lambda_inference() {
    let mut context = Context::default();

    let identity_type = {
        let a = context.volatile.type_arena.allocate(Type::Variable {
            name: "a".into(),
            rank: 0,
        });
        let a_to_a = context.volatile.type_arena.allocate(Type::Function {
            arguments: vec![a],
            result: a,
        });
        context.volatile.type_arena.allocate(Type::Forall {
            variables: vec![TypeVariableBinder { name: "a".into() }],
            rank: 0,
            ty: a_to_a,
        })
    };

    context
        .environment
        .values
        .insert("identity".into(), identity_type);

    let identity_expr = context.volatile.expr_arena.allocate(Expr::Variable {
        name: "identity".into(),
    });
    let impredicative = context.volatile.expr_arena.allocate(Expr::Application {
        function: identity_expr,
        arguments: vec![identity_expr],
    });

    match context.infer(impredicative) {
        Ok(t) => println!("{}", pretty_print_ty(&context.volatile.type_arena, t)),
        Err(e) => println!("Failed: {:?}", e),
    }
}

//! Asserted end-to-end scenarios and spot checks of the library's stated
//! properties: idempotent instantiation, fresh uniqueness, occurs
//! soundness, predicativity, dependency ordering, deferral progress, and
//! determinism, plus one exact check per error kind and per rendering
//! formula.

use iwc_core::constraint::Constraint;
use iwc_core::context::Context;
use iwc_core::entail::Evidence;
use iwc_core::error::{InferError, UnifyError};
use iwc_core::expr::Expr;
use iwc_core::pretty::pretty_print_ty;
use iwc_core::solve::Solve;
use iwc_core::ty::{Assertion, Class, FunctionalDependency, Instance, Type, TypeId,
    TypeVariableBinder};

/// Renders a type with solved unification variables substituted in.
fn resolve_pretty(solve: &Solve, t: TypeId) -> String {
    let arena = &solve.context.volatile.type_arena;
    match arena.get(t) {
        Type::Constructor { name } => name.clone(),
        Type::Variable { name, rank } => format!("{}_{}", name, rank),
        Type::Unification { name } => match solve.unification_solved.get(*name) {
            Some(id) => resolve_pretty(solve, *id),
            None => format!("?{}", name),
        },
        Type::Application {
            function,
            arguments,
        } => {
            let mut s = format!("({}", resolve_pretty(solve, *function));
            for a in arguments {
                s.push(' ');
                s.push_str(&resolve_pretty(solve, *a));
            }
            s.push(')');
            s
        }
        Type::Function { arguments, result } => {
            let mut s = String::new();
            for a in arguments {
                s.push_str(&resolve_pretty(solve, *a));
                s.push_str(" -> ");
            }
            s.push_str(&resolve_pretty(solve, *result));
            s
        }
        _ => "_".to_string(),
    }
}

fn dictionary_markers(e: &Evidence) -> Vec<usize> {
    match e {
        Evidence::Dictionary { dependencies } => dependencies.clone(),
    }
}

/// Identity application with a monomorphic argument: the inferred type
/// resolves to `Int`, with no errors and nothing deferred.
#[test]
fn identity_application_resolves_to_int() {
    let mut context = Context::default();

    let int_ty = context
        .volatile
        .type_arena
        .allocate(Type::Constructor { name: "Int".into() });
    context.environment.values.insert("zero".into(), int_ty);

    let identity_ty = {
        let a = context.volatile.type_arena.allocate(Type::Variable {
            name: "a".into(),
            rank: 0,
        });
        let a_to_a = context.volatile.type_arena.allocate(Type::Function {
            arguments: vec![a],
            result: a,
        });
        context.volatile.type_arena.allocate(Type::Forall {
            variables: vec![TypeVariableBinder { name: "a".into() }],
            rank: 0,
            ty: a_to_a,
        })
    };
    context.environment.values.insert("identity".into(), identity_ty);

    let identity_zero = {
        let identity = context.volatile.expr_arena.allocate(Expr::Variable {
            name: "identity".into(),
        });
        let zero = context
            .volatile
            .expr_arena
            .allocate(Expr::Variable { name: "zero".into() });
        context.volatile.expr_arena.allocate(Expr::Application {
            function: identity,
            arguments: vec![zero],
        })
    };

    let ty = context.infer(identity_zero).unwrap();
    let mut solve = Solve::new(context);
    solve.solve();

    assert_eq!(resolve_pretty(&solve, ty), "Int");
    assert!(solve.unification_errors.is_empty());
    assert!(solve.entailment_deferred.is_empty());
}

/// A concrete class witness: `Eq Int` against `instance Eq Int` yields an
/// empty dictionary and nothing deferred.
#[test]
fn concrete_class_witness() {
    let mut context = Context::default();
    let int = context
        .volatile
        .type_arena
        .allocate(Type::Constructor { name: "Int".into() });
    context.environment.classes.insert(
        "Eq".into(),
        Class {
            functional_dependencies: vec![],
        },
    );
    context.environment.instances.insert(
        "Eq".into(),
        vec![Instance {
            assertion: Assertion {
                name: "Eq".into(),
                arguments: vec![int],
            },
            dependencies: vec![],
        }],
    );
    let index = context.fresh_index();
    context
        .constraints
        .push(Constraint::ClassEntail(
            index,
            Assertion {
                name: "Eq".into(),
                arguments: vec![int],
            },
        ))
        .unwrap();

    let mut solve = Solve::new(context);
    solve.step();

    let evidence = solve.entailment_evidences.get(index).unwrap();
    assert!(dictionary_markers(evidence).is_empty());
    assert!(solve.entailment_deferred.is_empty());
    assert!(solve.unification_errors.is_empty());
}

/// An obligation deferred on a unification variable is woken and solved
/// once the variable gains a solution.
#[test]
fn deferred_obligation_resumes() {
    let mut context = Context::default();
    let int = context
        .volatile
        .type_arena
        .allocate(Type::Constructor { name: "Int".into() });
    let u_name = context.fresh_index();
    let u = context
        .volatile
        .type_arena
        .allocate(Type::Unification { name: u_name });
    context.environment.classes.insert(
        "Eq".into(),
        Class {
            functional_dependencies: vec![],
        },
    );
    context.environment.instances.insert(
        "Eq".into(),
        vec![Instance {
            assertion: Assertion {
                name: "Eq".into(),
                arguments: vec![int],
            },
            dependencies: vec![],
        }],
    );
    let index = context.fresh_index();
    context
        .constraints
        .push(Constraint::ClassEntail(
            index,
            Assertion {
                name: "Eq".into(),
                arguments: vec![u],
            },
        ))
        .unwrap();
    context
        .constraints
        .push(Constraint::UnifySolve(u_name, int))
        .unwrap();

    let mut solve = Solve::new(context);

    // The first pass parks the obligation, records the solution, and wakes
    // the parked obligation again: deferral progress, nothing left parked.
    solve.step();
    assert!(solve.entailment_evidences.get(index).is_none());
    assert!(solve.entailment_deferred.is_empty());

    // The second pass solves the woken obligation.
    solve.step();
    let evidence = solve.entailment_evidences.get(index).unwrap();
    assert!(dictionary_markers(evidence).is_empty());
}

/// A recursive class dependency produces a two-level dictionary: the outer
/// dictionary names the marker of the inner, empty one.  The dependency's
/// marker strictly exceeds its parent's marker.
#[test]
fn recursive_dependency_dictionaries() {
    let mut context = Context::default();
    context.environment.classes.insert(
        "Eq".into(),
        Class {
            functional_dependencies: vec![],
        },
    );
    let array = context.volatile.type_arena.allocate(Type::Constructor {
        name: "Array".into(),
    });
    let int = context
        .volatile
        .type_arena
        .allocate(Type::Constructor { name: "Int".into() });
    let a = context.volatile.type_arena.allocate(Type::Variable {
        name: "a".into(),
        rank: 0,
    });
    let array_a = context.volatile.type_arena.allocate(Type::Application {
        function: array,
        arguments: vec![a],
    });
    context.environment.instances.insert(
        "Eq".into(),
        vec![
            Instance {
                assertion: Assertion {
                    name: "Eq".into(),
                    arguments: vec![array_a],
                },
                dependencies: vec![Assertion {
                    name: "Eq".into(),
                    arguments: vec![a],
                }],
            },
            Instance {
                assertion: Assertion {
                    name: "Eq".into(),
                    arguments: vec![int],
                },
                dependencies: vec![],
            },
        ],
    );
    let array_int = context.volatile.type_arena.allocate(Type::Application {
        function: array,
        arguments: vec![int],
    });
    let index = context.fresh_index();
    context
        .constraints
        .push(Constraint::ClassEntail(
            index,
            Assertion {
                name: "Eq".into(),
                arguments: vec![array_int],
            },
        ))
        .unwrap();

    let mut solve = Solve::new(context);
    solve.step();

    let outer = dictionary_markers(solve.entailment_evidences.get(index).unwrap());
    assert_eq!(outer.len(), 1);
    // Dependency ordering: the dependency's marker exceeds its parent's.
    assert!(outer[0] > index);
    let inner = dictionary_markers(solve.entailment_evidences.get(outer[0]).unwrap());
    assert!(inner.is_empty());
    assert!(solve.entailment_deferred.is_empty());
}

/// Functional-dependency-directed matching: appending `[1, 0]` to `[1]`
/// solves the result position to `[1, 0, 1]` through a chain of
/// dictionaries ending in the base case.
#[test]
fn fundep_append_chain() {
    let mut context = Context::default();
    context.environment.classes.insert(
        "Append".into(),
        Class {
            functional_dependencies: vec![FunctionalDependency {
                domain: vec![0, 1],
                codomain: vec![2],
            }],
        },
    );
    let nil = context
        .volatile
        .type_arena
        .allocate(Type::Constructor { name: "Nil".into() });
    let cons = context.volatile.type_arena.allocate(Type::Constructor {
        name: "Cons".into(),
    });
    let zero = context.volatile.type_arena.allocate(Type::Constructor {
        name: "Zero".into(),
    });
    let one = context
        .volatile
        .type_arena
        .allocate(Type::Constructor { name: "One".into() });
    let x = context.volatile.type_arena.allocate(Type::Variable {
        name: "x".into(),
        rank: 0,
    });
    let xs = context.volatile.type_arena.allocate(Type::Variable {
        name: "xs".into(),
        rank: 0,
    });
    let ys = context.volatile.type_arena.allocate(Type::Variable {
        name: "ys".into(),
        rank: 0,
    });
    let zs = context.volatile.type_arena.allocate(Type::Variable {
        name: "zs".into(),
        rank: 0,
    });
    let cons_x_xs = context.volatile.type_arena.allocate(Type::Application {
        function: cons,
        arguments: vec![x, xs],
    });
    let cons_x_zs = context.volatile.type_arena.allocate(Type::Application {
        function: cons,
        arguments: vec![x, zs],
    });
    context.environment.instances.insert(
        "Append".into(),
        vec![
            Instance {
                assertion: Assertion {
                    name: "Append".into(),
                    arguments: vec![nil, ys, ys],
                },
                dependencies: vec![],
            },
            Instance {
                assertion: Assertion {
                    name: "Append".into(),
                    arguments: vec![cons_x_xs, ys, cons_x_zs],
                },
                dependencies: vec![Assertion {
                    name: "Append".into(),
                    arguments: vec![xs, ys, zs],
                }],
            },
        ],
    );

    let u = context.fresh_unification();
    let cons_0_nil = context.volatile.type_arena.allocate(Type::Application {
        function: cons,
        arguments: vec![zero, nil],
    });
    let cons_1_nil = context.volatile.type_arena.allocate(Type::Application {
        function: cons,
        arguments: vec![one, nil],
    });
    let cons_1_0_nil = context.volatile.type_arena.allocate(Type::Application {
        function: cons,
        arguments: vec![one, cons_0_nil],
    });
    let index = context.fresh_index();
    context
        .constraints
        .push(Constraint::ClassEntail(
            index,
            Assertion {
                name: "Append".into(),
                arguments: vec![cons_1_0_nil, cons_1_nil, u],
            },
        ))
        .unwrap();

    let mut solve = Solve::new(context);
    solve.solve();

    assert_eq!(
        resolve_pretty(&solve, u),
        "(Cons One (Cons Zero (Cons One Nil)))"
    );

    // The marker chain: outer -> middle -> base, ending in an empty
    // dictionary.
    let outer = dictionary_markers(solve.entailment_evidences.get(index).unwrap());
    assert_eq!(outer.len(), 1);
    let middle = dictionary_markers(solve.entailment_evidences.get(outer[0]).unwrap());
    assert_eq!(middle.len(), 1);
    let base = dictionary_markers(solve.entailment_evidences.get(middle[0]).unwrap());
    assert!(base.is_empty());
    assert!(solve.entailment_deferred.is_empty());
    assert!(solve.unification_errors.is_empty());
}

/// Occurs check: unifying `?u` with `?u -> ?u` reports an infinite type
/// and records no solution.
#[test]
fn occurs_check_infinite_type() {
    let mut context = Context::default();
    let u = context.fresh_unification();
    let f = context.volatile.type_arena.allocate(Type::Function {
        arguments: vec![u],
        result: u,
    });
    context.unify(u, f);

    let mut solve = Solve::new(context);
    solve.step();

    assert_eq!(solve.unification_errors.len(), 1);
    assert!(matches!(
        solve.unification_errors[0],
        UnifyError::InfiniteType(0, _)
    ));
    assert!(solve.unification_solved.entries().is_empty());
}

/// Predicativity: solving a unification variable to a polymorphic type is
/// refused with an impredicative-type error.
#[test]
fn impredicative_solution_refused() {
    let mut context = Context::default();
    let u = context.fresh_unification();
    let a = context.volatile.type_arena.allocate(Type::Variable {
        name: "a".into(),
        rank: 0,
    });
    let forall = context.volatile.type_arena.allocate(Type::Forall {
        variables: vec![TypeVariableBinder { name: "a".into() }],
        rank: 0,
        ty: a,
    });
    context.unify(forall, u);

    let mut solve = Solve::new(context);
    solve.step();

    assert_eq!(solve.unification_errors.len(), 1);
    assert!(matches!(
        solve.unification_errors[0],
        UnifyError::ImpredicativeType(0, _)
    ));
    assert!(solve.unification_solved.entries().is_empty());
}

/// Arity mismatch between function shapes is an invalid-arity error.
#[test]
fn function_arity_mismatch() {
    let mut context = Context::default();
    let int = context
        .volatile
        .type_arena
        .allocate(Type::Constructor { name: "Int".into() });
    let f1 = context.volatile.type_arena.allocate(Type::Function {
        arguments: vec![int],
        result: int,
    });
    let f2 = context.volatile.type_arena.allocate(Type::Function {
        arguments: vec![int, int],
        result: int,
    });
    context.unify(f1, f2);

    let mut solve = Solve::new(context);
    solve.step();

    assert_eq!(solve.unification_errors.len(), 1);
    assert!(matches!(
        solve.unification_errors[0],
        UnifyError::InvalidArity(_, 1, _, 2)
    ));
}

/// Two concrete, incompatible shapes cannot unify.
#[test]
fn concrete_shapes_cannot_unify() {
    let mut context = Context::default();
    let int = context
        .volatile
        .type_arena
        .allocate(Type::Constructor { name: "Int".into() });
    let boolean = context.volatile.type_arena.allocate(Type::Constructor {
        name: "Boolean".into(),
    });
    context.unify(int, boolean);

    let mut solve = Solve::new(context);
    solve.step();

    assert_eq!(solve.unification_errors.len(), 1);
    assert!(matches!(
        solve.unification_errors[0],
        UnifyError::CannotUnify(_, _)
    ));
}

/// An unbound name surfaces as an inference error carrying the name.
#[test]
fn unbound_name_reported() {
    let mut context = Context::default();
    let e = context.volatile.expr_arena.allocate(Expr::Variable {
        name: "missing".into(),
    });
    match context.infer(e) {
        Err(InferError::UnboundName(n)) => assert_eq!(n, "missing"),
        other => panic!("expected an unbound-name error, got {:?}", other),
    }
}

/// Idempotent instantiation: a type that is not polymorphic at the top
/// comes back as the same handle, with nothing allocated and nothing
/// scheduled.
#[test]
fn instantiate_monomorphic_is_identity() {
    let mut context = Context::default();
    let int = context
        .volatile
        .type_arena
        .allocate(Type::Constructor { name: "Int".into() });
    let f = context.volatile.type_arena.allocate(Type::Function {
        arguments: vec![int],
        result: int,
    });
    let before = context.volatile.type_arena.current_index();
    let fresh_before = context.fresh;

    let r = context.instantiate(f);

    assert_eq!(r.value(), f.value());
    assert_eq!(context.volatile.type_arena.current_index(), before);
    assert_eq!(context.fresh, fresh_before);
    assert!(context.constraints_empty());
}

/// Instantiation opens a qualified polytype: fresh variables replace the
/// binders and one obligation per assertion is scheduled.
#[test]
fn instantiate_opens_forall() {
    let mut context = Context::default();
    let a = context.volatile.type_arena.allocate(Type::Variable {
        name: "a".into(),
        rank: 0,
    });
    let constrained = context.volatile.type_arena.allocate(Type::Constrained {
        assertions: vec![Assertion {
            name: "Eq".into(),
            arguments: vec![a],
        }],
        ty: a,
    });
    let forall = context.volatile.type_arena.allocate(Type::Forall {
        variables: vec![TypeVariableBinder { name: "a".into() }],
        rank: 0,
        ty: constrained,
    });

    let r = context.instantiate(forall);

    // The result is the fresh unification variable that replaced `a`.
    assert_eq!(pretty_print_ty(&context.volatile.type_arena, r), "?0");
    // One obligation was scheduled for the stripped assertion.
    match context.pop_constraint() {
        Some(Constraint::ClassEntail(_, assertion)) => {
            assert_eq!(assertion.name, "Eq");
            assert_eq!(assertion.arguments.len(), 1);
        }
        other => panic!("expected a scheduled obligation, got {:?}", other),
    }
    assert!(context.constraints_empty());
}

/// Fresh uniqueness: successive draws return distinct, increasing
/// identifiers.
#[test]
fn fresh_markers_unique() {
    let mut context = Context::default();
    let m0 = context.fresh_index();
    let m1 = context.fresh_index();
    let m2 = context.fresh_index();
    assert!(m0 != m1 && m1 != m2 && m0 != m2);
    assert!(m0 < m1 && m1 < m2);
}

/// The constraint queue is first in, first out, and hands back exactly
/// what was pushed.
#[test]
fn queue_order_kept() {
    let mut context = Context::default();
    context
        .constraints
        .push(Constraint::UnifyDeep(1, 2))
        .unwrap();
    context
        .constraints
        .push(Constraint::UnifySolve(3, iwc_core::arena::Idx::new(7)))
        .unwrap();
    match context.pop_constraint() {
        Some(Constraint::UnifyDeep(1, 2)) => {}
        other => panic!("wrong first constraint: {:?}", other),
    }
    match context.pop_constraint() {
        Some(Constraint::UnifySolve(3, t)) => assert_eq!(t.value(), 7),
        other => panic!("wrong second constraint: {:?}", other),
    }
    assert!(context.pop_constraint().is_none());
}

/// Determinism: two runs over identical inputs produce identical solved
/// tables and identical evidence maps.
#[test]
fn identical_runs_agree() {
    fn run() -> (Vec<(usize, String)>, Vec<(usize, Vec<usize>)>) {
        let mut context = Context::default();
        let int = context
            .volatile
            .type_arena
            .allocate(Type::Constructor { name: "Int".into() });
        let u_name = context.fresh_index();
        let u = context
            .volatile
            .type_arena
            .allocate(Type::Unification { name: u_name });
        context.environment.classes.insert(
            "Eq".into(),
            Class {
                functional_dependencies: vec![],
            },
        );
        context.environment.instances.insert(
            "Eq".into(),
            vec![Instance {
                assertion: Assertion {
                    name: "Eq".into(),
                    arguments: vec![int],
                },
                dependencies: vec![],
            }],
        );
        let index = context.fresh_index();
        context
            .constraints
            .push(Constraint::ClassEntail(
                index,
                Assertion {
                    name: "Eq".into(),
                    arguments: vec![u],
                },
            ))
            .unwrap();
        context
            .constraints
            .push(Constraint::UnifySolve(u_name, int))
            .unwrap();
        let mut solve = Solve::new(context);
        solve.solve();
        let solved = solve
            .unification_solved
            .entries()
            .iter()
            .map(|(k, t)| {
                (
                    *k,
                    pretty_print_ty(&solve.context.volatile.type_arena, *t),
                )
            })
            .collect();
        let evidences = solve
            .entailment_evidences
            .entries()
            .iter()
            .map(|(k, e)| (*k, dictionary_markers(e)))
            .collect();
        (solved, evidences)
    }
    let first = run();
    let second = run();
    assert_eq!(first, second);
}

/// The exact rendering formulas: variables carry their rank, unification
/// variables a question mark, and a polytype prints with its binder.
#[test]
fn rendering_formulas() {
    let mut context = Context::default();
    let a = context.volatile.type_arena.allocate(Type::Variable {
        name: "a".into(),
        rank: 0,
    });
    let a_to_a = context.volatile.type_arena.allocate(Type::Function {
        arguments: vec![a],
        result: a,
    });
    let forall = context.volatile.type_arena.allocate(Type::Forall {
        variables: vec![TypeVariableBinder { name: "a".into() }],
        rank: 0,
        ty: a_to_a,
    });
    let u = context
        .volatile
        .type_arena
        .allocate(Type::Unification { name: 42 });
    let arena = &context.volatile.type_arena;
    assert_eq!(pretty_print_ty(arena, a), "a_0");
    assert_eq!(pretty_print_ty(arena, a_to_a), "a_0 -> a_0");
    assert_eq!(pretty_print_ty(arena, forall), "(forall_0 a. a_0 -> a_0)");
    assert_eq!(pretty_print_ty(arena, u), "?42");
}

/// Lambda bindings obey stack discipline: a binding shadowed by a lambda
/// parameter is removed when inference leaves the lambda.
#[test]
fn lambda_bindings_removed() {
    let mut context = Context::default();
    let int = context
        .volatile
        .type_arena
        .allocate(Type::Constructor { name: "Int".into() });
    context.environment.values.insert("y".into(), int);

    let body = context
        .volatile
        .expr_arena
        .allocate(Expr::Variable { name: "x".into() });
    let lambda = context.volatile.expr_arena.allocate(Expr::Lambda {
        arguments: vec!["x".into()],
        body,
    });
    context.infer(lambda).unwrap();

    // The parameter's binding is gone afterwards; the unrelated one stays.
    assert!(context.environment.values.get(&"x".to_string()).is_none());
    assert!(context.environment.values.get(&"y".to_string()).is_some());
}

/// An obligation that matches no instance stays deferred with nothing to
/// wait for: one pass parks it and wakes it again rather than hard-failing,
/// so a later unification fact could still permit a match.
#[test]
fn no_instance_stays_deferred() {
    let mut context = Context::default();
    let boolean = context.volatile.type_arena.allocate(Type::Constructor {
        name: "Boolean".into(),
    });
    let int = context
        .volatile
        .type_arena
        .allocate(Type::Constructor { name: "Int".into() });
    context.environment.insert_class(
        "Eq".into(),
        Class {
            functional_dependencies: vec![],
        },
    );
    context.environment.insert_instance(
        "Eq".into(),
        Instance {
            assertion: Assertion {
                name: "Eq".into(),
                arguments: vec![int],
            },
            dependencies: vec![],
        },
    );
    let index = context.fresh_index();
    context
        .constraints
        .push(Constraint::ClassEntail(
            index,
            Assertion {
                name: "Eq".into(),
                arguments: vec![boolean],
            },
        ))
        .unwrap();

    let mut solve = Solve::new(context);
    solve.step();

    // No evidence, nothing parked — the obligation is queued again.
    assert!(solve.entailment_evidences.get(index).is_none());
    assert!(solve.entailment_deferred.is_empty());
    assert!(!solve.context.constraints_empty());
}

/// Inserting under an existing name replaces the binding.
#[test]
fn insert_replaces_existing_binding() {
    let mut context = Context::default();
    let int = context
        .volatile
        .type_arena
        .allocate(Type::Constructor { name: "Int".into() });
    let boolean = context.volatile.type_arena.allocate(Type::Constructor {
        name: "Boolean".into(),
    });
    context.environment.insert_value("x".into(), int);
    context.environment.insert_value("x".into(), boolean);
    let bound = context.environment.lookup_value(&"x".to_string()).unwrap();
    assert_eq!(
        pretty_print_ty(&context.volatile.type_arena, bound),
        "Boolean"
    );
}

/// Instantiation never crosses a nested `Forall`: its variables carry a
/// different rank and remain bound.
#[test]
fn higher_rank_preserved() {
    let mut context = Context::default();
    let inner = {
        let b = context.volatile.type_arena.allocate(Type::Variable {
            name: "b".into(),
            rank: 1,
        });
        let b_to_b = context.volatile.type_arena.allocate(Type::Function {
            arguments: vec![b],
            result: b,
        });
        context.volatile.type_arena.allocate(Type::Forall {
            variables: vec![TypeVariableBinder { name: "b".into() }],
            rank: 1,
            ty: b_to_b,
        })
    };
    let a = context.volatile.type_arena.allocate(Type::Variable {
        name: "a".into(),
        rank: 0,
    });
    let a_to_inner = context.volatile.type_arena.allocate(Type::Function {
        arguments: vec![a],
        result: inner,
    });
    let outer = context.volatile.type_arena.allocate(Type::Forall {
        variables: vec![TypeVariableBinder { name: "a".into() }],
        rank: 0,
        ty: a_to_inner,
    });

    let r = context.instantiate(outer);
    assert_eq!(
        pretty_print_ty(&context.volatile.type_arena, r),
        "?0 -> (forall_1 b. b_1 -> b_1)"
    );
}

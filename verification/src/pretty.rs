//! Rendering types and assertions as text, for diagnostics.
//!
//! The textual form is specified exactly: [`render_ty`] gives the character
//! sequence a type prints as, and the executable printers produce it.

use vstd::prelude::*;
use crate::arena::Arena;
use crate::ty::{ids_m, ty_m_wf, types_m, types_wf, AssertM, Assertion, Type, TypeId, TypeM};

verus! {

/// Relies on `String::push`: appends one character at the end.
pub assume_specification[ String::push ](s: &mut String, ch: char)
    ensures
        final(s)@ == old(s)@.push(ch),
;

/// The character of one decimal digit.
pub open spec fn digit_char(d: nat) -> char {
    if d == 0 {
        '0'
    } else if d == 1 {
        '1'
    } else if d == 2 {
        '2'
    } else if d == 3 {
        '3'
    } else if d == 4 {
        '4'
    } else if d == 5 {
        '5'
    } else if d == 6 {
        '6'
    } else if d == 7 {
        '7'
    } else if d == 8 {
        '8'
    } else {
        '9'
    }
}

/// The decimal rendering of a number, most significant digit first.
pub open spec fn dec_digits(n: nat) -> Seq<char>
    decreases n,
{
    if n < 10 {
        seq![digit_char(n)]
    } else {
        dec_digits(n / 10).push(digit_char(n % 10))
    }
}

/// Appends the decimal rendering of `n`.
pub fn push_decimal(out: &mut String, n: usize)
    ensures
        final(out)@ == old(out)@ + dec_digits(n as nat),
    decreases n,
{
    if n >= 10 {
        push_decimal(out, n / 10);
        let d = n % 10;
        let c = digit_char_of(d);
        out.push(c);
        proof {
            assert(old(out)@ + dec_digits(n as nat) =~= (old(out)@ + dec_digits(
                n as nat / 10,
            )).push(digit_char(n as nat % 10)));
        }
    } else {
        let c = digit_char_of(n);
        out.push(c);
        proof {
            assert(old(out)@ + dec_digits(n as nat) =~= old(out)@.push(digit_char(n as nat)));
        }
    }
}

fn digit_char_of(d: usize) -> (c: char)
    requires
        d < 10,
    ensures
        c == digit_char(d as nat),
{
    match d {
        0 => '0',
        1 => '1',
        2 => '2',
        3 => '3',
        4 => '4',
        5 => '5',
        6 => '6',
        7 => '7',
        8 => '8',
        _ => '9',
    }
}

// ---------------------------------------------------------------------------
// The rendered text, mathematically.
// ---------------------------------------------------------------------------

/// The text of the type at position `t`.
pub open spec fn render_ty(ts: Seq<TypeM>, t: nat) -> Seq<char>
    decreases t, 2int, 0int, 0int,
{
    if t < ts.len() {
        match ts[t as int] {
            TypeM::Constructor { name } => name,
            TypeM::Variable { name, rank } => name + "_"@ + dec_digits(rank),
            TypeM::Unification { name } => "?"@ + dec_digits(name),
            TypeM::Function { arguments, result } => render_args_arrow(ts, arguments, t) + (
            if result < t {
                render_ty(ts, result)
            } else {
                Seq::<char>::empty()
            }),
            TypeM::Application { function, arguments } => "("@ + (if function < t {
                render_ty(ts, function)
            } else {
                Seq::<char>::empty()
            }) + render_args_spaced(ts, arguments, t) + ")"@,
            TypeM::Forall { variables, rank, ty } => "(forall_"@ + dec_digits(rank) + " "@
                + concat_names(variables) + ". "@ + (if ty < t {
                render_ty(ts, ty)
            } else {
                Seq::<char>::empty()
            }) + ")"@,
            TypeM::Constrained { assertions, ty } => "("@ + render_asserts_joined(
                ts,
                assertions,
                t,
            ) + ") => "@ + (if ty < t {
                render_ty(ts, ty)
            } else {
                Seq::<char>::empty()
            }),
        }
    } else {
        Seq::<char>::empty()
    }
}

/// Each argument's text followed by an arrow.
pub open spec fn render_args_arrow(ts: Seq<TypeM>, args: Seq<nat>, bound: nat) -> Seq<char>
    decreases bound, 1int, 0int, args.len(),
{
    if args.len() == 0 {
        Seq::<char>::empty()
    } else {
        (if args[0] < bound {
            render_ty(ts, args[0])
        } else {
            Seq::<char>::empty()
        }) + " -> "@ + render_args_arrow(ts, args.drop_first(), bound)
    }
}

/// A space before each argument's text.
pub open spec fn render_args_spaced(ts: Seq<TypeM>, args: Seq<nat>, bound: nat) -> Seq<char>
    decreases bound, 1int, 0int, args.len(),
{
    if args.len() == 0 {
        Seq::<char>::empty()
    } else {
        " "@ + (if args[0] < bound {
            render_ty(ts, args[0])
        } else {
            Seq::<char>::empty()
        }) + render_args_spaced(ts, args.drop_first(), bound)
    }
}

/// The binder names, run together.
pub open spec fn concat_names(names: Seq<Seq<char>>) -> Seq<char>
    decreases names.len(),
{
    if names.len() == 0 {
        Seq::<char>::empty()
    } else {
        names[0] + concat_names(names.drop_first())
    }
}

/// The text of one assertion: its class name, then each argument.
pub open spec fn render_assert(ts: Seq<TypeM>, a: AssertM, bound: nat) -> Seq<char>
    decreases bound, 1int, 1int, 0int,
{
    a.name + render_args_spaced(ts, a.args, bound)
}

/// The assertions' texts, separated by commas.
pub open spec fn render_asserts_joined(ts: Seq<TypeM>, asserts: Seq<AssertM>, bound: nat) -> Seq<
    char,
>
    decreases bound, 1int, 2int, asserts.len(),
{
    if asserts.len() == 0 {
        Seq::<char>::empty()
    } else if asserts.len() == 1 {
        render_assert(ts, asserts[0], bound)
    } else {
        render_assert(ts, asserts[0], bound) + ", "@ + render_asserts_joined(
            ts,
            asserts.drop_first(),
            bound,
        )
    }
}

// ---------------------------------------------------------------------------
// Executable printers.
// ---------------------------------------------------------------------------

/// Appends the text of the type at `t_idx`.
#[verifier::loop_isolation(false)]
fn write_ty(arena: &Arena<Type>, out: &mut String, t_idx: TypeId)
    requires
        types_wf(types_m(arena@)),
        t_idx@ < arena@.len(),
    ensures
        final(out)@ == old(out)@ + render_ty(types_m(arena@), t_idx@),
    decreases t_idx@, 2nat, 0nat, 0nat,
{
    let ghost ts = types_m(arena@);
    proof {
        assert(ts[t_idx@ as int] == arena@[t_idx@ as int]@);
        assert(ty_m_wf(ts[t_idx@ as int], t_idx@ as int));
    }
    match arena.get(t_idx) {
        Type::Constructor { name } => {
            out.append(name.as_str());
        },
        Type::Variable { name, rank } => {
            out.append(name.as_str());
            out.append("_");
            push_decimal(out, *rank);
            proof {
                assert(old(out)@ + render_ty(ts, t_idx@) =~= out@);
            }
        },
        Type::Unification { name } => {
            out.append("?");
            push_decimal(out, *name);
            proof {
                assert(old(out)@ + render_ty(ts, t_idx@) =~= out@);
            }
        },
        Type::Function { arguments, result } => {
            let result = *result;
            let arguments = crate::ty::clone_ids(arguments);
            write_args_arrow(arena, out, &arguments, Ghost(t_idx@));
            write_ty(arena, out, result);
            proof {
                assert(old(out)@ + render_ty(ts, t_idx@) =~= out@);
            }
        },
        Type::Application { function, arguments } => {
            let function = *function;
            let arguments = crate::ty::clone_ids(arguments);
            out.append("(");
            write_ty(arena, out, function);
            write_args_spaced(arena, out, &arguments, Ghost(t_idx@));
            out.append(")");
            proof {
                assert(old(out)@ + render_ty(ts, t_idx@) =~= out@);
            }
        },
        Type::Forall { variables, rank, ty } => {
            let rank = *rank;
            let ty = *ty;
            let variables = crate::ty::clone_binders(variables);
            out.append("(forall_");
            push_decimal(out, rank);
            out.append(" ");
            let ghost nm = variables@.map_values(|b: crate::ty::TypeVariableBinder| b.name@);
            let ghost mid0 = out@;
            proof {
                assert(nm.skip(0) =~= nm);
            }
            let mut i: usize = 0;
            while i < variables.len()
                invariant
                    i <= variables@.len(),
                    mid0 + concat_names(nm) == out@ + concat_names(nm.skip(i as int)),
                decreases variables@.len() - i,
            {
                proof {
                    assert(nm.skip(i as int)[0] == nm[i as int]);
                    assert(nm[i as int] == variables@[i as int].name@);
                    assert(nm.skip(i as int).drop_first() =~= nm.skip(i as int + 1));
                }
                let ghost outpre = out@;
                out.append(variables[i].name.as_str());
                proof {
                    assert(outpre + (nm[i as int] + concat_names(nm.skip(i as int + 1))) =~= (
                    outpre + nm[i as int]) + concat_names(nm.skip(i as int + 1)));
                }
                i = i + 1;
            }
            proof {
                assert(nm.skip(variables@.len() as int) =~= Seq::<Seq<char>>::empty());
                assert(out@ + Seq::<char>::empty() =~= out@);
            }
            out.append(". ");
            write_ty(arena, out, ty);
            out.append(")");
            proof {
                assert(old(out)@ + render_ty(ts, t_idx@) =~= out@);
            }
        },
        Type::Constrained { assertions, ty } => {
            let ty = *ty;
            let assertions = crate::ty::clone_assertions(assertions);
            out.append("(");
            write_asserts_joined(arena, out, &assertions, Ghost(t_idx@));
            out.append(") => ");
            write_ty(arena, out, ty);
            proof {
                assert(old(out)@ + render_ty(ts, t_idx@) =~= out@);
            }
        },
    }
}

/// Appends each argument's text followed by an arrow.
#[verifier::loop_isolation(false)]
fn write_args_arrow(arena: &Arena<Type>, out: &mut String, args: &Vec<TypeId>, bound: Ghost<nat>)
    requires
        types_wf(types_m(arena@)),
        crate::ty::ids_below(ids_m(args@), bound@ as int),
        bound@ <= arena@.len(),
    ensures
        final(out)@ == old(out)@ + render_args_arrow(types_m(arena@), ids_m(args@), bound@),
    decreases bound@, 1nat, 0nat, 0nat,
{
    let ghost ts = types_m(arena@);
    let ghost am = ids_m(args@);
    proof {
        assert(am.skip(0) =~= am);
    }
    let mut i: usize = 0;
    while i < args.len()
        invariant
            i <= args@.len(),
            old(out)@ + render_args_arrow(ts, am, bound@) == out@ + render_args_arrow(
                ts,
                am.skip(i as int),
                bound@,
            ),
        decreases args@.len() - i,
    {
        proof {
            assert(am.skip(i as int)[0] == am[i as int]);
            assert(am[i as int] == args@[i as int]@);
            assert(am.skip(i as int).drop_first() =~= am.skip(i as int + 1));
        }
        let ghost outpre = out@;
        write_ty(arena, out, args[i]);
        out.append(" -> ");
        proof {
            let head = render_ty(ts, am[i as int]);
            let rest = render_args_arrow(ts, am.skip(i as int + 1), bound@);
            assert(outpre + ((head + " -> "@) + rest) =~= ((outpre + head) + " -> "@) + rest);
            assert(render_args_arrow(ts, am.skip(i as int), bound@) =~= (head + " -> "@) + rest);
        }
        i = i + 1;
    }
    proof {
        assert(am.skip(args@.len() as int) =~= Seq::<nat>::empty());
        assert(out@ + Seq::<char>::empty() =~= out@);
    }
}

/// Appends a space before each argument's text.
#[verifier::loop_isolation(false)]
fn write_args_spaced(arena: &Arena<Type>, out: &mut String, args: &Vec<TypeId>, bound: Ghost<nat>)
    requires
        types_wf(types_m(arena@)),
        crate::ty::ids_below(ids_m(args@), bound@ as int),
        bound@ <= arena@.len(),
    ensures
        final(out)@ == old(out)@ + render_args_spaced(types_m(arena@), ids_m(args@), bound@),
    decreases bound@, 1nat, 0nat, 0nat,
{
    let ghost ts = types_m(arena@);
    let ghost am = ids_m(args@);
    proof {
        assert(am.skip(0) =~= am);
    }
    let mut i: usize = 0;
    while i < args.len()
        invariant
            i <= args@.len(),
            old(out)@ + render_args_spaced(ts, am, bound@) == out@ + render_args_spaced(
                ts,
                am.skip(i as int),
                bound@,
            ),
        decreases args@.len() - i,
    {
        proof {
            assert(am.skip(i as int)[0] == am[i as int]);
            assert(am[i as int] == args@[i as int]@);
            assert(am.skip(i as int).drop_first() =~= am.skip(i as int + 1));
        }
        let ghost outpre = out@;
        out.append(" ");
        write_ty(arena, out, args[i]);
        proof {
            let head = render_ty(ts, am[i as int]);
            let rest = render_args_spaced(ts, am.skip(i as int + 1), bound@);
            assert(outpre + ((" "@ + head) + rest) =~= ((outpre + " "@) + head) + rest);
            assert(render_args_spaced(ts, am.skip(i as int), bound@) =~= (" "@ + head) + rest);
        }
        i = i + 1;
    }
    proof {
        assert(am.skip(args@.len() as int) =~= Seq::<nat>::empty());
        assert(out@ + Seq::<char>::empty() =~= out@);
    }
}

/// Appends the assertions' texts, separated by commas.
#[verifier::loop_isolation(false)]
fn write_asserts_joined(
    arena: &Arena<Type>,
    out: &mut String,
    asserts: &Vec<Assertion>,
    bound: Ghost<nat>,
)
    requires
        types_wf(types_m(arena@)),
        crate::ty::asserts_m_wf(asserts@.map_values(|a: Assertion| a@), bound@ as int),
        bound@ <= arena@.len(),
    ensures
        final(out)@ == old(out)@ + render_asserts_joined(
            types_m(arena@),
            asserts@.map_values(|a: Assertion| a@),
            bound@,
        ),
    decreases bound@, 1nat, 2nat, 0nat,
{
    let ghost ts = types_m(arena@);
    let ghost sm = asserts@.map_values(|a: Assertion| a@);
    proof {
        assert(sm.skip(0) =~= sm);
    }
    let mut i: usize = 0;
    while i < asserts.len()
        invariant
            i <= asserts@.len(),
            old(out)@ + render_asserts_joined(ts, sm, bound@) == out@ + render_asserts_joined(
                ts,
                sm.skip(i as int),
                bound@,
            ),
        decreases asserts@.len() - i,
    {
        proof {
            assert(sm.skip(i as int)[0] == sm[i as int]);
            assert(sm[i as int] == asserts@[i as int]@);
            assert(sm.skip(i as int).drop_first() =~= sm.skip(i as int + 1));
            assert(crate::ty::assert_m_wf(sm[i as int], bound@ as int));
            assert(sm[i as int].args == ids_m(asserts@[i as int].arguments@));
        }
        let ghost outpre = out@;
        out.append(asserts[i].name.as_str());
        write_args_spaced(arena, out, &asserts[i].arguments, bound);
        proof {
            let head = render_assert(ts, sm[i as int], bound@);
            assert(out@ =~= outpre + head);
        }
        if i + 1 < asserts.len() {
            out.append(", ");
            proof {
                let head = render_assert(ts, sm[i as int], bound@);
                let rest = render_asserts_joined(ts, sm.skip(i as int + 1), bound@);
                assert(render_asserts_joined(ts, sm.skip(i as int), bound@) =~= (head + ", "@)
                    + rest);
                assert(outpre + ((head + ", "@) + rest) =~= ((outpre + head) + ", "@) + rest);
            }
        } else {
            proof {
                assert(sm.skip(i as int).len() == 1);
                assert(render_asserts_joined(ts, sm.skip(i as int), bound@) == render_assert(
                    ts,
                    sm[i as int],
                    bound@,
                ));
                assert(sm.skip(i as int + 1) =~= Seq::<AssertM>::empty());
                assert(out@ + render_asserts_joined(ts, sm.skip(i as int + 1), bound@) =~= out@);
            }
        }
        i = i + 1;
    }
    proof {
        if sm.len() == 0 {
            assert(render_asserts_joined(ts, sm.skip(0), bound@) == Seq::<char>::empty());
            assert(out@ + Seq::<char>::empty() =~= out@);
        } else {
            assert(sm.skip(asserts@.len() as int) =~= Seq::<AssertM>::empty());
            assert(out@ + Seq::<char>::empty() =~= out@);
        }
    }
}

/// The text of the type at `ty_idx`.
pub fn pretty_print_ty(type_arena: &Arena<Type>, ty_idx: TypeId) -> (r: String)
    requires
        types_wf(types_m(type_arena@)),
        ty_idx@ < type_arena@.len(),
    ensures
        r@ == render_ty(types_m(type_arena@), ty_idx@),
{
    let mut out = String::new();
    write_ty(type_arena, &mut out, ty_idx);
    proof {
        assert(Seq::<char>::empty() + render_ty(types_m(type_arena@), ty_idx@) =~= render_ty(
            types_m(type_arena@),
            ty_idx@,
        ));
    }
    out
}

/// The text of an assertion: its class name, then each argument.
pub fn pretty_print_assertion(type_arena: &Arena<Type>, assertion: &Assertion) -> (r: String)
    requires
        types_wf(types_m(type_arena@)),
        crate::ty::assert_m_wf(assertion@, type_arena@.len() as int),
    ensures
        r@ == render_assert(types_m(type_arena@), assertion@, type_arena@.len() as nat),
{
    let mut out = String::new();
    out.append(assertion.name.as_str());
    write_args_spaced(
        type_arena,
        &mut out,
        &assertion.arguments,
        Ghost(type_arena@.len() as nat),
    );
    proof {
        assert(Seq::<char>::empty() + assertion.name@ =~= assertion.name@);
        assert(assertion@.args == ids_m(assertion.arguments@));
    }
    out
}

} // verus!

//! What the pass to normal form computes, as functions on views.
//!
//! The counts that are threaded through every function are those of the name supply:
//! the functions say which names the pass draws, and in which order.

use vstd::prelude::*;
use crate::anf::{FlatResultView, FlatView};
use crate::ast::ExprView;
use crate::error::CompileError;
use crate::names::{Counts, Name, bump, exhausted, fresh_name};
use crate::varset::names_minus;

verus! {

/// An expression after flattening: the atom that stands for it, the statements that
/// compute it, the variables they mention, and the names handed out so far.
pub struct Flattened {
    pub atom: FlatView,
    pub stmts: Seq<FlatView>,
    pub vars: Seq<Name>,
    pub count: Counts,
}

/// A list of expressions after flattening: one atom for each.
pub struct FlattenedList {
    pub atoms: Seq<FlatView>,
    pub stmts: Seq<FlatView>,
    pub vars: Seq<Name>,
    pub count: Counts,
}

/// The statements and variables of a run of bindings.
pub struct FlattenedBindings {
    pub stmts: Seq<FlatView>,
    pub vars: Seq<Name>,
    pub count: Counts,
}

/// The result of flattening a node, with the counts of names afterwards.
pub type Flattening = Result<(FlatResultView, Counts), CompileError>;

/// A sequence of names without its adjacent repetitions: of each run of equal names the
/// first stays.
pub open spec fn dedup_adjacent(s: Seq<Name>) -> Seq<Name>
    decreases s.len(),
{
    if s.len() == 0 {
        s
    } else {
        let init = dedup_adjacent(s.drop_last());
        if init.len() > 0 && init.last() == s.last() {
            init
        } else {
            init.push(s.last())
        }
    }
}

/// The variable that an atom reads, if it is one.
pub open spec fn symbol_of(atom: FlatView) -> Seq<Name> {
    match atom {
        FlatView::Symbol(name) => seq![name],
        _ => Seq::empty(),
    }
}

/// An expression that is its own atom.
pub open spec fn atom_spec(atom: FlatView, vars: Seq<Name>, c: Counts) -> Flattening {
    Ok((FlatResultView::Flat(atom, Seq::empty(), vars), c))
}

/// A compound value over atoms: a fresh temporary receives it, after the statements
/// that computed the operands.
pub open spec fn named_spec(value: FlatView, stmts: Seq<FlatView>, vars: Seq<Name>, c: Counts)
    -> Flattening {
    if exhausted(c, "tmp"@) {
        Err(CompileError::NamesExhausted)
    } else {
        let tmp = fresh_name("tmp"@, c);
        Ok(
            (
                FlatResultView::Flat(
                    FlatView::Symbol(tmp),
                    stmts.push(FlatView::Assign(tmp, Box::new(value))),
                    vars.push(tmp),
                ),
                bump(c, "tmp"@),
            ),
        )
    }
}

/// What [`crate::anf::flatten`] computes: the result and the number of names handed out
/// afterwards, from the node and the number of names handed out before.
pub open spec fn flatten_spec(e: ExprView, c: Counts) -> Flattening
    decreases e, 1nat,
{
    match e {
        ExprView::Symbol(name) => atom_spec(FlatView::Symbol(name), seq![name], c),
        ExprView::FuncName(name) => atom_spec(FlatView::FuncName(name), seq![name], c),
        ExprView::Number(n) => atom_spec(FlatView::Number(n), Seq::empty(), c),
        ExprView::Bool(b) => atom_spec(FlatView::Bool(b), Seq::empty(), c),
        ExprView::Tuple(_) => flatten_tuple_spec(e, c),
        ExprView::Let(_, _) => flatten_let_spec(e, c),
        ExprView::If(_, _, _) => flatten_if_spec(e, c),
        ExprView::Cmp(_, _, _) => flatten_cmp_spec(e, c),
        ExprView::App(_, _) => flatten_app_spec(e, c),
        ExprView::Define(_, _, _) => flatten_define_spec(e, c),
        ExprView::Prog(_, _) => flatten_prog_spec(e, c),
    }
}

/// A tuple: its temporary is named first, then the elements are flattened in order.
pub open spec fn flatten_tuple_spec(e: ExprView, c: Counts) -> Flattening
    decreases e, 0nat,
{
    match e {
        ExprView::Tuple(elts) => {
            if exhausted(c, "tmp"@) {
                Err(CompileError::NamesExhausted)
            } else {
                let tmp = fresh_name("tmp"@, c);
                match flatten_list_spec(elts, bump(c, "tmp"@)) {
                    Err(err) => Err(err),
                    Ok(l) => Ok(
                        (
                            FlatResultView::Flat(
                                FlatView::Symbol(tmp),
                                l.stmts.push(
                                    FlatView::Assign(tmp, Box::new(FlatView::Tuple(l.atoms))),
                                ),
                                l.vars.push(tmp),
                            ),
                            l.count,
                        ),
                    ),
                }
            }
        },
        _ => Err(CompileError::NotAnExpression),
    }
}

/// A `let`: the body draws its names first, then the bindings theirs; the statements of
/// the bindings come before those of the body, and the body's atom stands for the whole.
pub open spec fn flatten_let_spec(e: ExprView, c: Counts) -> Flattening
    decreases e, 0nat,
{
    match e {
        ExprView::Let(bindings, body) => match flatten_expr_spec(*body, c) {
            Err(err) => Err(err),
            Ok(b) => match flatten_bindings_spec(bindings, b.count) {
                Err(err) => Err(err),
                Ok(bs) => Ok(
                    (
                        FlatResultView::Flat(b.atom, bs.stmts + b.stmts, bs.vars + b.vars),
                        bs.count,
                    ),
                ),
            },
        },
        _ => Err(CompileError::NotAnExpression),
    }
}

/// An `if`: condition, then-branch and else-branch are flattened in this order, then
/// the merge variable is named. Each branch ends by assigning its atom to the merge
/// variable; the statements of the condition are followed by the one conditional.
pub open spec fn flatten_if_spec(e: ExprView, c: Counts) -> Flattening
    decreases e, 0nat,
{
    match e {
        ExprView::If(cnd, thn, els) => match flatten_cond_spec(*cnd, c) {
            Err(err) => Err(err),
            Ok(cf) => match flatten_expr_spec(*thn, cf.count) {
                Err(err) => Err(err),
                Ok(tf) => match flatten_expr_spec(*els, tf.count) {
                    Err(err) => Err(err),
                    Ok(ef) => {
                        if exhausted(ef.count, "if"@) {
                            Err(CompileError::NamesExhausted)
                        } else {
                            let merge = fresh_name("if"@, ef.count);
                            let branch = FlatView::If(
                                Box::new(cf.atom),
                                tf.stmts.push(FlatView::Assign(merge, Box::new(tf.atom))),
                                ef.stmts.push(FlatView::Assign(merge, Box::new(ef.atom))),
                            );
                            Ok(
                                (
                                    FlatResultView::Flat(
                                        FlatView::Symbol(merge),
                                        cf.stmts.push(branch),
                                        (cf.vars + tf.vars + ef.vars).push(merge),
                                    ),
                                    bump(ef.count, "if"@),
                                ),
                            )
                        }
                    },
                },
            },
        },
        _ => Err(CompileError::NotAnExpression),
    }
}

/// A comparison outside the condition of an `if`: a temporary receives its value.
pub open spec fn flatten_cmp_spec(e: ExprView, c: Counts) -> Flattening
    decreases e, 0nat,
{
    match e {
        ExprView::Cmp(cc, left, right) => match flatten_expr_spec(*left, c) {
            Err(err) => Err(err),
            Ok(lf) => match flatten_expr_spec(*right, lf.count) {
                Err(err) => Err(err),
                Ok(rf) => named_spec(
                    FlatView::Cmp(cc, Box::new(lf.atom), Box::new(rf.atom)),
                    lf.stmts + rf.stmts,
                    lf.vars + rf.vars,
                    rf.count,
                ),
            },
        },
        _ => Err(CompileError::NotAnExpression),
    }
}

/// An application. A callee that is a symbol names a primitive (`-`, `+`, `tuple-ref`)
/// or else a function: then the application stands for the reference to the function
/// in its closure, `(tuple-ref (tuple f) 0)`, and its operands are not looked at. A
/// callee that is itself an application is flattened to the variable that is then
/// called with the flattened operands.
pub open spec fn flatten_app_spec(e: ExprView, c: Counts) -> Flattening
    decreases e, 0nat,
{
    match e {
        ExprView::App(f, args) => match *f {
            ExprView::Symbol(fname) => {
                if fname == "-"@ {
                    flatten_neg_spec(args, c)
                } else if fname == "+"@ {
                    flatten_plus_spec(args, c)
                } else if fname == "tuple-ref"@ {
                    flatten_tuple_ref_spec(args, c)
                } else {
                    stub_spec(fname, c)
                }
            },
            ExprView::App(_, _) => match flatten_expr_spec(*f, c) {
                Err(err) => Err(err),
                Ok(callee) => match callee.atom {
                    FlatView::Symbol(fname) => call_spec(
                        fname,
                        callee.stmts,
                        callee.vars,
                        args,
                        callee.count,
                    ),
                    _ => Err(CompileError::NotAFunction),
                },
            },
            _ => Err(CompileError::NotAFunction),
        },
        _ => Err(CompileError::NotAnExpression),
    }
}

/// The reference to the function `f` in its closure: what flattening
/// `(tuple-ref (tuple f) 0)` gives, where `f` stands as a function reference. The
/// temporary of the tuple is named first, then that of the reference.
pub open spec fn stub_spec(f: Name, c: Counts) -> Flattening {
    if exhausted(c, "tmp"@) || exhausted(bump(c, "tmp"@), "tmp"@) {
        Err(CompileError::NamesExhausted)
    } else {
        let closure = fresh_name("tmp"@, c);
        let reference = fresh_name("tmp"@, bump(c, "tmp"@));
        Ok(
            (
                FlatResultView::Flat(
                    FlatView::Symbol(reference),
                    seq![
                        FlatView::Assign(
                            closure,
                            Box::new(FlatView::Tuple(seq![FlatView::FuncName(f)])),
                        ),
                        FlatView::Assign(
                            reference,
                            Box::new(
                                FlatView::Prim(
                                    "tuple-ref"@,
                                    seq![FlatView::Symbol(closure), FlatView::Number(0)],
                                ),
                            ),
                        ),
                    ],
                    seq![f, closure, reference],
                ),
                bump(bump(c, "tmp"@), "tmp"@),
            ),
        )
    }
}

/// Unary minus: exactly one operand.
pub open spec fn flatten_neg_spec(args: Seq<ExprView>, c: Counts) -> Flattening
    decreases args, 1nat,
{
    if args.len() != 1 {
        Err(CompileError::BadArity)
    } else {
        match flatten_expr_spec(args[0], c) {
            Err(err) => Err(err),
            Ok(a) => named_spec(FlatView::Prim("-"@, seq![a.atom]), a.stmts, a.vars, a.count),
        }
    }
}

/// Addition: exactly two operands, flattened from left to right.
pub open spec fn flatten_plus_spec(args: Seq<ExprView>, c: Counts) -> Flattening
    decreases args, 1nat,
{
    if args.len() != 2 {
        Err(CompileError::BadArity)
    } else {
        match flatten_expr_spec(args[0], c) {
            Err(err) => Err(err),
            Ok(a) => match flatten_expr_spec(args[1], a.count) {
                Err(err) => Err(err),
                Ok(b) => named_spec(
                    FlatView::Prim("+"@, seq![a.atom, b.atom]),
                    a.stmts + b.stmts,
                    a.vars + b.vars,
                    b.count,
                ),
            },
        }
    }
}

/// Positional reference into a tuple: exactly two operands, the second of which must
/// be an integer literal and passes unchanged.
pub open spec fn flatten_tuple_ref_spec(args: Seq<ExprView>, c: Counts) -> Flattening
    decreases args, 1nat,
{
    if args.len() != 2 {
        Err(CompileError::BadArity)
    } else {
        match args[1] {
            ExprView::Number(index) => match flatten_expr_spec(args[0], c) {
                Err(err) => Err(err),
                Ok(t) => named_spec(
                    FlatView::Prim("tuple-ref"@, seq![t.atom, FlatView::Number(index)]),
                    t.stmts,
                    t.vars,
                    t.count,
                ),
            },
            _ => Err(CompileError::NonLiteralIndex),
        }
    }
}

/// A call of `fname`, after the statements and variables of the callee: the temporary
/// for the result is named before the operands are flattened.
pub open spec fn call_spec(
    fname: Name,
    stmts: Seq<FlatView>,
    vars: Seq<Name>,
    args: Seq<ExprView>,
    c: Counts,
) -> Flattening
    decreases args, 1nat,
{
    if exhausted(c, "tmp"@) {
        Err(CompileError::NamesExhausted)
    } else {
        let tmp = fresh_name("tmp"@, c);
        match flatten_list_spec(args, bump(c, "tmp"@)) {
            Err(err) => Err(err),
            Ok(l) => Ok(
                (
                    FlatResultView::Flat(
                        FlatView::Symbol(tmp),
                        (stmts + l.stmts).push(
                            FlatView::Assign(tmp, Box::new(FlatView::App(fname, l.atoms))),
                        ),
                        vars.push(tmp) + l.vars,
                    ),
                    l.count,
                ),
            ),
        }
    }
}

/// A definition: the statements of its body, ending in the return of the body's atom,
/// and the body's variables other than the parameters.
pub open spec fn flatten_define_spec(e: ExprView, c: Counts) -> Flattening
    decreases e, 0nat,
{
    match e {
        ExprView::Define(name, params, body) => match flatten_expr_spec(*body, c) {
            Err(err) => Err(err),
            Ok(b) => Ok(
                (
                    FlatResultView::Define(
                        name,
                        params,
                        b.stmts.push(FlatView::Return(Box::new(b.atom))),
                        names_minus(b.vars, params),
                    ),
                    b.count,
                ),
            ),
        },
        _ => Err(CompileError::NotAnExpression),
    }
}

/// A program: the main expression is flattened before the definitions. Its statements
/// end in the return of its atom, and its variables lose their adjacent repetitions.
pub open spec fn flatten_prog_spec(e: ExprView, c: Counts) -> Flattening
    decreases e, 0nat,
{
    match e {
        ExprView::Prog(defs, body) => match flatten_expr_spec(*body, c) {
            Err(err) => Err(err),
            Ok(b) => match flatten_defs_spec(defs, b.count) {
                Err(err) => Err(err),
                Ok((flat_defs, count)) => Ok(
                    (
                        FlatResultView::Prog(
                            flat_defs,
                            b.stmts.push(FlatView::Return(Box::new(b.atom))),
                            dedup_adjacent(b.vars),
                        ),
                        count,
                    ),
                ),
            },
        },
        _ => Err(CompileError::NotAnExpression),
    }
}

/// Flattening where an expression is required: a definition or a program is refused.
pub open spec fn flatten_expr_spec(e: ExprView, c: Counts) -> Result<Flattened, CompileError>
    decreases e, 2nat,
{
    match flatten_spec(e, c) {
        Err(err) => Err(err),
        Ok((FlatResultView::Flat(atom, stmts, vars), count)) => Ok(
            Flattened { atom, stmts, vars, count },
        ),
        Ok(_) => Err(CompileError::NotAnExpression),
    }
}

/// Flattening the condition of an `if`: a comparison stays a comparison of two atoms,
/// anything else becomes an atom.
pub open spec fn flatten_cond_spec(e: ExprView, c: Counts) -> Result<Flattened, CompileError>
    decreases e, 3nat,
{
    match e {
        ExprView::Cmp(cc, left, right) => match flatten_expr_spec(*left, c) {
            Err(err) => Err(err),
            Ok(lf) => match flatten_expr_spec(*right, lf.count) {
                Err(err) => Err(err),
                Ok(rf) => Ok(
                    Flattened {
                        atom: FlatView::Cmp(cc, Box::new(lf.atom), Box::new(rf.atom)),
                        stmts: lf.stmts + rf.stmts,
                        vars: lf.vars + rf.vars,
                        count: rf.count,
                    },
                ),
            },
        },
        _ => flatten_expr_spec(e, c),
    }
}

/// Flattening a list of expressions from left to right.
pub open spec fn flatten_list_spec(es: Seq<ExprView>, c: Counts) -> Result<
    FlattenedList,
    CompileError,
>
    decreases es, 0nat,
{
    if es.len() == 0 {
        Ok(FlattenedList { atoms: Seq::empty(), stmts: Seq::empty(), vars: Seq::empty(), count: c })
    } else {
        match flatten_list_spec(es.drop_last(), c) {
            Err(err) => Err(err),
            Ok(init) => match flatten_expr_spec(es.last(), init.count) {
                Err(err) => Err(err),
                Ok(x) => Ok(
                    FlattenedList {
                        atoms: init.atoms.push(x.atom),
                        stmts: init.stmts + x.stmts,
                        vars: init.vars + x.vars,
                        count: x.count,
                    },
                ),
            },
        }
    }
}

/// Flattening the bindings of a `let` from first to last: each bound name is assigned
/// the atom of its expression.
pub open spec fn flatten_bindings_spec(bs: Seq<(Name, ExprView)>, c: Counts) -> Result<
    FlattenedBindings,
    CompileError,
>
    decreases bs, 0nat,
{
    if bs.len() == 0 {
        Ok(FlattenedBindings { stmts: Seq::empty(), vars: Seq::empty(), count: c })
    } else {
        match flatten_bindings_spec(bs.drop_last(), c) {
            Err(err) => Err(err),
            Ok(init) => match flatten_expr_spec(bs.last().1, init.count) {
                Err(err) => Err(err),
                Ok(x) => Ok(
                    FlattenedBindings {
                        stmts: (init.stmts + x.stmts).push(
                            FlatView::Assign(bs.last().0, Box::new(x.atom)),
                        ),
                        vars: (init.vars + symbol_of(x.atom) + x.vars).push(bs.last().0),
                        count: x.count,
                    },
                ),
            },
        }
    }
}

/// Flattening the definitions of a program from first to last.
pub open spec fn flatten_defs_spec(ds: Seq<ExprView>, c: Counts) -> Result<
    (Seq<FlatResultView>, Counts),
    CompileError,
>
    decreases ds, 0nat,
{
    if ds.len() == 0 {
        Ok((Seq::empty(), c))
    } else {
        match flatten_defs_spec(ds.drop_last(), c) {
            Err(err) => Err(err),
            Ok((init, count)) => match flatten_spec(ds.last(), count) {
                Err(err) => Err(err),
                Ok((def, after)) => Ok((init.push(def), after)),
            },
        }
    }
}

/// A call of a function by its name flattens as the reference to the function in its
/// closure does: for a callee that is no primitive, flattening `(f operand ...)` gives
/// what flattening `(tuple-ref (tuple f) 0)` gives, with `f` as a function reference.
pub proof fn lemma_call_flattens_as_closure_reference(f: Name, args: Seq<ExprView>, c: Counts)
    requires
        f != "-"@,
        f != "+"@,
        f != "tuple-ref"@,
    ensures
        flatten_spec(ExprView::App(Box::new(ExprView::Symbol(f)), args), c)
            == flatten_tuple_ref_spec(
            seq![ExprView::Tuple(seq![ExprView::FuncName(f)]), ExprView::Number(0)],
            c,
        ),
{
    let call = ExprView::App(Box::new(ExprView::Symbol(f)), args);
    assert(flatten_spec(call, c) == flatten_app_spec(call, c));
    assert(flatten_app_spec(call, c) == stub_spec(f, c));
    let reference = ExprView::FuncName(f);
    let elts = seq![reference];
    let tuple = ExprView::Tuple(elts);
    let operands = seq![tuple, ExprView::Number(0)];
    let c1 = bump(c, "tmp"@);
    assert(operands.len() == 2 && operands[0] == tuple && operands[1] == ExprView::Number(0));
    // the one element of the tuple
    assert(flatten_spec(reference, c1) == atom_spec(FlatView::FuncName(f), seq![f], c1));
    assert(flatten_expr_spec(reference, c1) == Ok::<_, CompileError>(
        Flattened {
            atom: FlatView::FuncName(f),
            stmts: Seq::empty(),
            vars: seq![f],
            count: c1,
        },
    ));
    assert(elts.drop_last() =~= Seq::<ExprView>::empty());
    assert(elts.last() == reference);
    assert(flatten_list_spec(elts.drop_last(), c1) == Ok::<_, CompileError>(
        FlattenedList {
            atoms: Seq::empty(),
            stmts: Seq::empty(),
            vars: Seq::empty(),
            count: c1,
        },
    ));
    let atoms = Seq::<FlatView>::empty().push(FlatView::FuncName(f));
    let no_stmts = Seq::<FlatView>::empty() + Seq::<FlatView>::empty();
    let elt_vars = Seq::<Name>::empty() + seq![f];
    assert(flatten_list_spec(elts, c1) == Ok::<_, CompileError>(
        FlattenedList { atoms, stmts: no_stmts, vars: elt_vars, count: c1 },
    ));
    assert(atoms =~= seq![FlatView::FuncName(f)]);
    assert(no_stmts =~= Seq::<FlatView>::empty());
    assert(elt_vars =~= seq![f]);
    if exhausted(c, "tmp"@) {
        assert(flatten_tuple_spec(tuple, c) == Err::<(FlatResultView, Counts), _>(
            CompileError::NamesExhausted,
        ));
        assert(flatten_spec(tuple, c) == flatten_tuple_spec(tuple, c));
        assert(flatten_expr_spec(tuple, c) is Err);
    } else {
        let closure = fresh_name("tmp"@, c);
        let first = FlatView::Assign(closure, Box::new(FlatView::Tuple(atoms)));
        let tuple_stmts = no_stmts.push(first);
        let tuple_vars = elt_vars.push(closure);
        assert(flatten_tuple_spec(tuple, c) == Ok::<_, CompileError>(
            (FlatResultView::Flat(FlatView::Symbol(closure), tuple_stmts, tuple_vars), c1),
        ));
        assert(flatten_spec(tuple, c) == flatten_tuple_spec(tuple, c));
        assert(flatten_expr_spec(tuple, c) == Ok::<_, CompileError>(
            Flattened {
                atom: FlatView::Symbol(closure),
                stmts: tuple_stmts,
                vars: tuple_vars,
                count: c1,
            },
        ));
        assert(flatten_tuple_ref_spec(operands, c) == named_spec(
            FlatView::Prim("tuple-ref"@, seq![FlatView::Symbol(closure), FlatView::Number(0)]),
            tuple_stmts,
            tuple_vars,
            c1,
        ));
        if !exhausted(c1, "tmp"@) {
            let name = fresh_name("tmp"@, c1);
            let second = FlatView::Assign(
                name,
                Box::new(
                    FlatView::Prim(
                        "tuple-ref"@,
                        seq![FlatView::Symbol(closure), FlatView::Number(0)],
                    ),
                ),
            );
            assert(tuple_stmts.push(second) =~= seq![first, second]);
            assert(tuple_vars.push(name) =~= seq![f, closure, name]);
        }
    }
}

} // verus!

//! Instruction selection: flat statements become pseudo-x86 instructions over
//! variables, with conditionals still structured.

use vstd::prelude::*;
use vstd::string::*;
use crate::anf::{
    Flat, FlatResult, FlatResultView, FlatView, lemma_flat_result_view, lemma_flat_view,
};
use crate::ast::CC;
use crate::error::CompileError;
use crate::names::{Name, is_name};
use crate::seqs::{
    append_deep, empty_deep, lemma_deep_view_index, lemma_take_all, lemma_take_push, push_deep,
};
use crate::x86::{ArgView, Reg, X86, X86Arg, X86View};

verus! {

/// The register that carries the `i`-th operand of a call, for `0 <= i < 6`.
pub open spec fn arg_register(i: int) -> Reg {
    if i == 0 {
        Reg::RDI
    } else if i == 1 {
        Reg::RSI
    } else if i == 2 {
        Reg::RDX
    } else if i == 3 {
        Reg::RCX
    } else if i == 4 {
        Reg::R8
    } else {
        Reg::R9
    }
}

/// The operand that an atom becomes: a variable, or an immediate for a literal, with
/// `1` for true and `0` for false.
pub open spec fn arg_of_atom(f: FlatView) -> Result<ArgView, CompileError> {
    match f {
        FlatView::Symbol(name) => Ok(ArgView::Var(name)),
        FlatView::Number(n) => {
            if i32::MIN <= n <= i32::MAX {
                Ok(ArgView::Imm(n as i32))
            } else {
                Err(CompileError::ImmediateOutOfRange)
            }
        },
        FlatView::Bool(b) => Ok(
            ArgView::Imm(
                if b {
                    1
                } else {
                    0
                },
            ),
        ),
        _ => Err(CompileError::UnsupportedExpression),
    }
}

/// The moves that load the operands of a call into the argument registers, in order.
pub open spec fn load_args_spec(args: Seq<FlatView>) -> Result<Seq<X86View>, CompileError>
    decreases args.len(),
{
    if args.len() == 0 {
        Ok(Seq::empty())
    } else {
        match load_args_spec(args.drop_last()) {
            Err(err) => Err(err),
            Ok(init) => match arg_of_atom(args.last()) {
                Err(err) => Err(err),
                Ok(a) => Ok(
                    init.push(X86View::Mov(ArgView::Reg(arg_register(args.len() - 1)), a)),
                ),
            },
        }
    }
}

/// The moves that bring the parameters of a function from the argument registers to
/// their variables.
pub open spec fn move_params_spec(params: Seq<Name>) -> Seq<X86View> {
    Seq::new(
        params.len(),
        |i: int| X86View::Mov(ArgView::Var(params[i]), ArgView::Reg(arg_register(i))),
    )
}

/// The instructions for the assignment of `value` to `dest`.
pub open spec fn select_assign_spec(dest: Name, value: FlatView) -> Result<
    Seq<X86View>,
    CompileError,
> {
    match value {
        FlatView::Prim(op, args) => {
            if op == "+"@ {
                if args.len() != 2 {
                    Err(CompileError::BadArity)
                } else {
                    match arg_of_atom(args[0]) {
                        Err(err) => Err(err),
                        Ok(first) => match arg_of_atom(args[1]) {
                            Err(err) => Err(err),
                            Ok(second) => Ok(
                                seq![
                                    X86View::Mov(ArgView::Var(dest), first),
                                    X86View::Add(ArgView::Var(dest), second),
                                ],
                            ),
                        },
                    }
                }
            } else {
                Err(CompileError::UnsupportedPrimitive)
            }
        },
        FlatView::App(f, args) => {
            if args.len() > 6 {
                Err(CompileError::TooManyArguments)
            } else {
                match load_args_spec(args) {
                    Err(err) => Err(err),
                    Ok(loads) => Ok(
                        loads.push(X86View::Call(f)).push(
                            X86View::Mov(ArgView::Var(dest), ArgView::Reg(Reg::RAX)),
                        ),
                    ),
                }
            }
        },
        _ => match arg_of_atom(value) {
            Err(err) => Err(err),
            Ok(src) => Ok(seq![X86View::Mov(ArgView::Var(dest), src)]),
        },
    }
}

/// The instructions for one statement. The condition of an `if` must be an equality
/// test of two atoms.
pub open spec fn select_stmt_spec(s: FlatView) -> Result<Seq<X86View>, CompileError>
    decreases s, 1nat,
{
    match s {
        FlatView::Assign(dest, value) => select_assign_spec(dest, *value),
        FlatView::Return(value) => match arg_of_atom(*value) {
            Err(err) => Err(err),
            Ok(src) => Ok(seq![X86View::Mov(ArgView::Reg(Reg::RAX), src)]),
        },
        FlatView::If(cnd, thn, els) => match *cnd {
            FlatView::Cmp(CC::E, left, right) => match arg_of_atom(*left) {
                Err(err) => Err(err),
                Ok(l) => match arg_of_atom(*right) {
                    Err(err) => Err(err),
                    Ok(r) => match select_stmts_spec(thn) {
                        Err(err) => Err(err),
                        Ok(thn_instrs) => match select_stmts_spec(els) {
                            Err(err) => Err(err),
                            Ok(els_instrs) => Ok(
                                seq![
                                    X86View::If(
                                        Box::new(X86View::EqP(l, r)),
                                        thn_instrs,
                                        els_instrs,
                                    ),
                                ],
                            ),
                        },
                    },
                },
            },
            _ => Err(CompileError::UnsupportedCondition),
        },
        _ => Err(CompileError::UnsupportedExpression),
    }
}

/// The instructions for a list of statements, in order.
pub open spec fn select_stmts_spec(stmts: Seq<FlatView>) -> Result<Seq<X86View>, CompileError>
    decreases stmts, 0nat,
{
    if stmts.len() == 0 {
        Ok(Seq::empty())
    } else {
        match select_stmts_spec(stmts.drop_last()) {
            Err(err) => Err(err),
            Ok(init) => match select_stmt_spec(stmts.last()) {
                Err(err) => Err(err),
                Ok(instrs) => Ok(init + instrs),
            },
        }
    }
}

/// What [`select_instructions`] computes. A definition starts with the moves of its
/// parameters, and its parameters join its variables; a program selects for its
/// definitions, then for its main body.
pub open spec fn select_instructions_spec(r: FlatResultView) -> Result<X86View, CompileError>
    decreases r, 1nat,
{
    match r {
        FlatResultView::Define(name, params, stmts, vars) => {
            if params.len() > 6 {
                Err(CompileError::TooManyArguments)
            } else {
                match select_stmts_spec(stmts) {
                    Err(err) => Err(err),
                    Ok(instrs) => Ok(
                        X86View::Define(name, vars + params, move_params_spec(params) + instrs),
                    ),
                }
            }
        },
        FlatResultView::Prog(defs, stmts, vars) => match select_defs_spec(defs) {
            Err(err) => Err(err),
            Ok(defines) => match select_stmts_spec(stmts) {
                Err(err) => Err(err),
                Ok(instrs) => Ok(X86View::Prog(defines, instrs, vars)),
            },
        },
        FlatResultView::Flat(_, _, _) => Err(CompileError::NotTopLevel),
    }
}

/// Selection for the definitions of a program, in order.
pub open spec fn select_defs_spec(defs: Seq<FlatResultView>) -> Result<
    Seq<X86View>,
    CompileError,
>
    decreases defs, 0nat,
{
    if defs.len() == 0 {
        Ok(Seq::empty())
    } else {
        match select_defs_spec(defs.drop_last()) {
            Err(err) => Err(err),
            Ok(init) => match select_instructions_spec(defs.last()) {
                Err(err) => Err(err),
                Ok(def) => Ok(init.push(def)),
            },
        }
    }
}

/// An error among the first `k` operands is the error of all of them.
proof fn lemma_load_args_error(args: Seq<FlatView>, k: int)
    requires
        0 <= k <= args.len(),
        load_args_spec(args.take(k)) is Err,
    ensures
        load_args_spec(args) == load_args_spec(args.take(k)),
    decreases args.len(),
{
    if k == args.len() {
        lemma_take_all(args);
    } else {
        assert(args.drop_last().take(k) =~= args.take(k));
        lemma_load_args_error(args.drop_last(), k);
    }
}

/// An error among the first `k` statements is the error of all of them.
proof fn lemma_select_stmts_error(stmts: Seq<FlatView>, k: int)
    requires
        0 <= k <= stmts.len(),
        select_stmts_spec(stmts.take(k)) is Err,
    ensures
        select_stmts_spec(stmts) == select_stmts_spec(stmts.take(k)),
    decreases stmts.len(),
{
    if k == stmts.len() {
        lemma_take_all(stmts);
    } else {
        assert(stmts.drop_last().take(k) =~= stmts.take(k));
        lemma_select_stmts_error(stmts.drop_last(), k);
    }
}

/// An error among the first `k` definitions is the error of all of them.
proof fn lemma_select_defs_error(defs: Seq<FlatResultView>, k: int)
    requires
        0 <= k <= defs.len(),
        select_defs_spec(defs.take(k)) is Err,
    ensures
        select_defs_spec(defs) == select_defs_spec(defs.take(k)),
    decreases defs.len(),
{
    if k == defs.len() {
        lemma_take_all(defs);
    } else {
        assert(defs.drop_last().take(k) =~= defs.take(k));
        lemma_select_defs_error(defs.drop_last(), k);
    }
}

/// The register that carries the `i`-th operand of a call.
pub fn arg_reg(i: usize) -> (r: Reg)
    requires
        i < 6,
    ensures
        r == arg_register(i as int),
{
    if i == 0 {
        Reg::RDI
    } else if i == 1 {
        Reg::RSI
    } else if i == 2 {
        Reg::RDX
    } else if i == 3 {
        Reg::RCX
    } else if i == 4 {
        Reg::R8
    } else {
        Reg::R9
    }
}

/// The operand for an atom.
pub fn flat_arg_type(v: &Flat) -> (result: Result<X86Arg, CompileError>)
    ensures
        match result {
            Ok(arg) => arg_of_atom(v@) == Ok::<_, CompileError>(arg@),
            Err(err) => arg_of_atom(v@) == Err::<ArgView, _>(err),
        },
{
    match v {
        Flat::Symbol(name) => Ok(X86Arg::Var(name.clone())),
        Flat::Number(n) => {
            if *n < -2147483648i64 || *n > 2147483647i64 {
                Err(CompileError::ImmediateOutOfRange)
            } else {
                Ok(X86Arg::Imm(*n as i32))
            }
        },
        Flat::Bool(b) => {
            if *b {
                Ok(X86Arg::Imm(1))
            } else {
                Ok(X86Arg::Imm(0))
            }
        },
        _ => Err(CompileError::UnsupportedExpression),
    }
}

/// The moves that load the operands of a call.
fn load_args(args: &Vec<Flat>) -> (result: Result<Vec<X86>, CompileError>)
    requires
        args.len() <= 6,
    ensures
        match result {
            Ok(loads) => load_args_spec(args.deep_view()) == Ok::<_, CompileError>(
                loads.deep_view(),
            ),
            Err(err) => load_args_spec(args.deep_view()) == Err::<Seq<X86View>, _>(err),
        },
{
    let mut loads: Vec<X86> = empty_deep();
    let mut i: usize = 0;
    while i < args.len()
        invariant
            i <= args.len() <= 6,
            load_args_spec(args.deep_view().take(i as int)) == Ok::<_, CompileError>(
                loads.deep_view(),
            ),
        decreases args.len() - i,
    {
        proof {
            lemma_take_push(args.deep_view(), i as int);
            lemma_deep_view_index(args);
        }
        match flat_arg_type(&args[i]) {
            Err(err) => {
                proof {
                    lemma_load_args_error(args.deep_view(), i + 1);
                }
                return Err(err);
            },
            Ok(arg) => {
                push_deep(&mut loads, X86::Mov(X86Arg::Reg(arg_reg(i)), arg));
            },
        }
        i = i + 1;
    }
    proof {
        lemma_take_all(args.deep_view());
    }
    Ok(loads)
}

/// The instructions for the assignment of `value` to `dest`.
fn select_assign(dest: &String, value: &Flat) -> (result: Result<Vec<X86>, CompileError>)
    ensures
        match result {
            Ok(instrs) => select_assign_spec(dest@, value@) == Ok::<_, CompileError>(
                instrs.deep_view(),
            ),
            Err(err) => select_assign_spec(dest@, value@) == Err::<Seq<X86View>, _>(err),
        },
{
    proof {
        lemma_flat_view(value);
    }
    let mut instrs: Vec<X86> = empty_deep();
    match value {
        Flat::Prim(op, args) => {
            proof {
                lemma_deep_view_index(args);
            }
            if !is_name(op, "+") {
                return Err(CompileError::UnsupportedPrimitive);
            }
            if args.len() != 2 {
                return Err(CompileError::BadArity);
            }
            let first = flat_arg_type(&args[0])?;
            let second = flat_arg_type(&args[1])?;
            push_deep(&mut instrs, X86::Mov(X86Arg::Var(dest.clone()), first));
            push_deep(&mut instrs, X86::Add(X86Arg::Var(dest.clone()), second));
            assert(instrs.deep_view() =~= seq![
                X86View::Mov(ArgView::Var(dest@), first@),
                X86View::Add(ArgView::Var(dest@), second@),
            ]);
            Ok(instrs)
        },
        Flat::App(f, args) => {
            if args.len() > 6 {
                return Err(CompileError::TooManyArguments);
            }
            let mut loads = load_args(args)?;
            push_deep(&mut loads, X86::Call(f.clone()));
            push_deep(&mut loads, X86::Mov(X86Arg::Var(dest.clone()), X86Arg::Reg(Reg::RAX)));
            Ok(loads)
        },
        _ => {
            let src = flat_arg_type(value)?;
            push_deep(&mut instrs, X86::Mov(X86Arg::Var(dest.clone()), src));
            assert(instrs.deep_view() =~= seq![X86View::Mov(ArgView::Var(dest@), src@)]);
            Ok(instrs)
        },
    }
}

/// The instructions for a list of statements, in order.
fn select_stmts(stmts: &Vec<Flat>) -> (result: Result<Vec<X86>, CompileError>)
    ensures
        match result {
            Ok(instrs) => select_stmts_spec(stmts.deep_view()) == Ok::<_, CompileError>(
                instrs.deep_view(),
            ),
            Err(err) => select_stmts_spec(stmts.deep_view()) == Err::<Seq<X86View>, _>(err),
        },
    decreases stmts, 0nat,
{
    let mut instrs: Vec<X86> = empty_deep();
    let mut i: usize = 0;
    while i < stmts.len()
        invariant
            i <= stmts.len(),
            select_stmts_spec(stmts.deep_view().take(i as int)) == Ok::<_, CompileError>(
                instrs.deep_view(),
            ),
        decreases stmts.len() - i,
    {
        proof {
            lemma_take_push(stmts.deep_view(), i as int);
            lemma_deep_view_index(stmts);
        }
        match flat_to_px86(&stmts[i]) {
            Err(err) => {
                proof {
                    lemma_select_stmts_error(stmts.deep_view(), i + 1);
                }
                return Err(err);
            },
            Ok(more) => {
                let mut more = more;
                append_deep(&mut instrs, &mut more);
            },
        }
        i = i + 1;
    }
    proof {
        lemma_take_all(stmts.deep_view());
    }
    Ok(instrs)
}

/// The pseudo-x86 instructions for one flat statement.
pub fn flat_to_px86(instr: &Flat) -> (result: Result<Vec<X86>, CompileError>)
    ensures
        match result {
            Ok(instrs) => select_stmt_spec(instr@) == Ok::<_, CompileError>(instrs.deep_view()),
            Err(err) => select_stmt_spec(instr@) == Err::<Seq<X86View>, _>(err),
        },
    decreases instr, 1nat,
{
    proof {
        lemma_flat_view(instr);
    }
    let mut instrs: Vec<X86> = empty_deep();
    match instr {
        Flat::Assign(dest, value) => select_assign(dest, value),
        Flat::Return(value) => {
            let src = flat_arg_type(value)?;
            push_deep(&mut instrs, X86::Mov(X86Arg::Reg(Reg::RAX), src));
            assert(instrs.deep_view() =~= seq![X86View::Mov(ArgView::Reg(Reg::RAX), src@)]);
            Ok(instrs)
        },
        Flat::If(cnd, thn, els) => {
            proof {
                lemma_flat_view(cnd);
            }
            match &**cnd {
                Flat::Cmp(CC::E, left, right) => {
                    let l = flat_arg_type(left)?;
                    let r = flat_arg_type(right)?;
                    let thn_instrs = select_stmts(thn)?;
                    let els_instrs = select_stmts(els)?;
                    let branch = X86::branch(X86::EqP(l, r), thn_instrs, els_instrs);
                    push_deep(&mut instrs, branch);
                    assert(instrs.deep_view() =~= seq![branch@]);
                    Ok(instrs)
                },
                _ => Err(CompileError::UnsupportedCondition),
            }
        },
        _ => Err(CompileError::UnsupportedExpression),
    }
}

/// The moves that bring the parameters to their variables.
fn move_params(params: &Vec<String>) -> (moves: Vec<X86>)
    requires
        params.len() <= 6,
    ensures
        moves.deep_view() == move_params_spec(params.deep_view()),
{
    let mut moves: Vec<X86> = empty_deep();
    let mut i: usize = 0;
    while i < params.len()
        invariant
            i <= params.len() <= 6,
            moves.deep_view() == move_params_spec(params.deep_view()).take(i as int),
        decreases params.len() - i,
    {
        proof {
            lemma_take_push(move_params_spec(params.deep_view()), i as int);
            lemma_deep_view_index(params);
        }
        push_deep(&mut moves, X86::Mov(X86Arg::Var(params[i].clone()), X86Arg::Reg(arg_reg(i))));
        i = i + 1;
    }
    proof {
        lemma_take_all(move_params_spec(params.deep_view()));
    }
    moves
}

/// Selection for the definitions of a program.
fn select_defs(defs: &Vec<FlatResult>) -> (result: Result<Vec<X86>, CompileError>)
    ensures
        match result {
            Ok(defines) => select_defs_spec(defs.deep_view()) == Ok::<_, CompileError>(
                defines.deep_view(),
            ),
            Err(err) => select_defs_spec(defs.deep_view()) == Err::<Seq<X86View>, _>(err),
        },
    decreases defs, 0nat,
{
    let mut defines: Vec<X86> = empty_deep();
    let mut i: usize = 0;
    while i < defs.len()
        invariant
            i <= defs.len(),
            select_defs_spec(defs.deep_view().take(i as int)) == Ok::<_, CompileError>(
                defines.deep_view(),
            ),
        decreases defs.len() - i,
    {
        proof {
            lemma_take_push(defs.deep_view(), i as int);
            lemma_deep_view_index(defs);
        }
        match select_instructions(&defs[i]) {
            Err(err) => {
                proof {
                    lemma_select_defs_error(defs.deep_view(), i + 1);
                }
                return Err(err);
            },
            Ok(def) => {
                push_deep(&mut defines, def);
            },
        }
        i = i + 1;
    }
    proof {
        lemma_take_all(defs.deep_view());
    }
    Ok(defines)
}

/// The pass from flat statements to pseudo-x86.
pub fn select_instructions(flat_prog: &FlatResult) -> (result: Result<X86, CompileError>)
    ensures
        match result {
            Ok(prog) => select_instructions_spec(flat_prog@) == Ok::<_, CompileError>(prog@),
            Err(err) => select_instructions_spec(flat_prog@) == Err::<X86View, _>(err),
        },
    decreases flat_prog, 1nat,
{
    proof {
        lemma_flat_result_view(flat_prog);
    }
    match flat_prog {
        FlatResult::Define(name, params, stmts, vars) => {
            if params.len() > 6 {
                return Err(CompileError::TooManyArguments);
            }
            let mut instrs = move_params(params);
            let mut body = select_stmts(stmts)?;
            append_deep(&mut instrs, &mut body);
            let mut all_vars = vars.clone();
            let mut own_params = params.clone();
            append_deep(&mut all_vars, &mut own_params);
            Ok(X86::define(name.clone(), all_vars, instrs))
        },
        FlatResult::Prog(defs, stmts, vars) => {
            let defines = select_defs(defs)?;
            let instrs = select_stmts(stmts)?;
            Ok(X86::prog(defines, instrs, vars.clone()))
        },
        FlatResult::Flat(_, _, _) => Err(CompileError::NotTopLevel),
    }
}

} // verus!

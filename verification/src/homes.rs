//! Home assignment: every variable gets a register of the pool or a slot of the stack
//! frame, and every variable operand is replaced by its home.

use vstd::prelude::*;
use crate::assoc::{assoc_find, assoc_get, assoc_put, get, lemma_find, lemma_get_put, put};
use crate::error::CompileError;
use crate::intervals::{
    compute_live_intervals, in_live_sets, intervals_spec, lemma_intervals_bind,
    lemma_intervals_unique,
};
use crate::lower::{all_structured, is_structured, is_structured_program};
use crate::names::Name;
use crate::regalloc::{
    POOL_SIZE, Registers, allocate_registers, allocate_spec, lemma_allocation_binds,
    lemma_allocation_safe, overlap,
};
use crate::seqs::{empty_deep, lemma_deep_view_index, lemma_take_all, lemma_take_push, push_deep};
use crate::x86::{ArgView, Reg, X86, X86Arg, X86View, lemma_x86_view};

verus! {

/// Homes by variable.
pub type Homes = Seq<(Name, ArgView)>;

/// The register of the pool with index `i`.
pub open spec fn pool_register(i: int) -> Reg {
    if i == 0 {
        Reg::RBX
    } else if i == 1 {
        Reg::RDX
    } else {
        Reg::RCX
    }
}

/// The slot of the stack frame with number `k`, counted from one: eight bytes for each
/// slot, downwards from the frame pointer.
pub open spec fn stack_slot(k: int) -> ArgView {
    ArgView::RegOffset(Reg::RBP, (k * -8) as i32)
}

/// The greatest number of slots whose offsets fit 32 bits.
pub const MAX_SLOTS: i32 = 268435456;

/// The homes of `vars`, in their order, and the number of slots used: a variable with a
/// register gets that register, every other occurrence of a variable the next slot.
pub open spec fn decide_vars_spec(vars: Seq<Name>, regs: Registers) -> Result<
    (Homes, i32),
    CompileError,
>
    decreases vars.len(),
{
    if vars.len() == 0 {
        Ok((Seq::empty(), 0))
    } else {
        match decide_vars_spec(vars.drop_last(), regs) {
            Err(err) => Err(err),
            Ok((locs, slots)) => match assoc_get(regs, vars.last()) {
                Some(r) => Ok(
                    (assoc_put(locs, vars.last(), ArgView::Reg(pool_register(r as int))), slots),
                ),
                None => {
                    if slots >= MAX_SLOTS {
                        Err(CompileError::FrameTooLarge)
                    } else {
                        Ok(
                            (
                                assoc_put(locs, vars.last(), stack_slot(slots + 1)),
                                (slots + 1) as i32,
                            ),
                        )
                    }
                },
            },
        }
    }
}

/// What [`decide_locs`] computes: the homes of `vars`, from the registers allocated over
/// the live intervals of the instructions, which are numbered from one.
pub open spec fn decide_locs_spec(vars: Seq<Name>, instrs: Seq<X86View>, sets: Seq<Seq<Name>>)
    -> Result<Homes, CompileError> {
    match intervals_spec(instrs, sets, Seq::empty(), 1) {
        Err(err) => Err(err),
        Ok(intervals) => match decide_vars_spec(vars, allocate_spec(intervals, POOL_SIZE as nat)) {
            Err(err) => Err(err),
            Ok((locs, _)) => Ok(locs),
        },
    }
}

/// The operand with its variable replaced by the variable's home.
pub open spec fn home_spec(locs: Homes, a: ArgView) -> Result<ArgView, CompileError> {
    match a {
        ArgView::Var(name) => match assoc_get(locs, name) {
            Some(home) => Ok(home),
            None => Err(CompileError::NoHome),
        },
        _ => Ok(a),
    }
}

/// What [`assign_homes_to_op2`] computes: destination and source with their homes, the
/// destination looked up first.
pub open spec fn op2_spec(locs: Homes, src: ArgView, dest: ArgView) -> Result<
    (ArgView, ArgView),
    CompileError,
> {
    match home_spec(locs, dest) {
        Err(err) => Err(err),
        Ok(new_dest) => match home_spec(locs, src) {
            Err(err) => Err(err),
            Ok(new_src) => Ok((new_dest, new_src)),
        },
    }
}

/// One instruction with homes for its variables. A conditional loses the annotation of
/// its branches.
pub open spec fn assign_instr_spec(x: X86View, locs: Homes) -> Result<X86View, CompileError>
    decreases x, 1nat,
{
    match x {
        X86View::IfWithLives(cnd, thn, _, els, _) => match *cnd {
            X86View::EqP(left, right) => match home_spec(locs, left) {
                Err(err) => Err(err),
                Ok(new_left) => match home_spec(locs, right) {
                    Err(err) => Err(err),
                    Ok(new_right) => match assign_instrs_spec(thn, locs) {
                        Err(err) => Err(err),
                        Ok(new_thn) => match assign_instrs_spec(els, locs) {
                            Err(err) => Err(err),
                            Ok(new_els) => Ok(
                                X86View::If(
                                    Box::new(X86View::EqP(new_left, new_right)),
                                    new_thn,
                                    new_els,
                                ),
                            ),
                        },
                    },
                },
            },
            _ => Err(CompileError::UnsupportedCondition),
        },
        X86View::Mov(dest, src) => match op2_spec(locs, src, dest) {
            Err(err) => Err(err),
            Ok((new_dest, new_src)) => Ok(X86View::Mov(new_dest, new_src)),
        },
        X86View::Add(dest, src) => match op2_spec(locs, src, dest) {
            Err(err) => Err(err),
            Ok((new_dest, new_src)) => Ok(X86View::Add(new_dest, new_src)),
        },
        X86View::Call(label) => Ok(X86View::Call(label)),
        _ => Err(CompileError::UnsupportedInstruction),
    }
}

/// What [`assign_homes_to_instrs`] computes: the instructions, in order, with homes for
/// their variables.
pub open spec fn assign_instrs_spec(instrs: Seq<X86View>, locs: Homes) -> Result<
    Seq<X86View>,
    CompileError,
>
    decreases instrs, 0nat,
{
    if instrs.len() == 0 {
        Ok(Seq::empty())
    } else {
        match assign_instrs_spec(instrs.drop_last(), locs) {
            Err(err) => Err(err),
            Ok(init) => match assign_instr_spec(instrs.last(), locs) {
                Err(err) => Err(err),
                Ok(x) => Ok(init.push(x)),
            },
        }
    }
}

/// What [`assign_homes`] computes: the homes of a body are decided from its own
/// variables and live-after sets, then substituted.
pub open spec fn assign_homes_spec(x: X86View) -> Result<X86View, CompileError>
    decreases x, 1nat,
{
    match x {
        X86View::DefineWithLives(name, vars, sets, instrs) => match decide_locs_spec(
            vars,
            instrs,
            sets,
        ) {
            Err(err) => Err(err),
            Ok(locs) => match assign_instrs_spec(instrs, locs) {
                Err(err) => Err(err),
                Ok(new_instrs) => Ok(X86View::Define(name, vars, new_instrs)),
            },
        },
        X86View::ProgWithLives(defs, instrs, vars, sets) => match decide_locs_spec(
            vars,
            instrs,
            sets,
        ) {
            Err(err) => Err(err),
            Ok(locs) => match assign_defs_spec(defs) {
                Err(err) => Err(err),
                Ok(new_defs) => match assign_instrs_spec(instrs, locs) {
                    Err(err) => Err(err),
                    Ok(new_instrs) => Ok(X86View::Prog(new_defs, new_instrs, vars)),
                },
            },
        },
        _ => Err(CompileError::NotTopLevel),
    }
}

/// Home assignment for the definitions of a program, in order.
pub open spec fn assign_defs_spec(defs: Seq<X86View>) -> Result<Seq<X86View>, CompileError>
    decreases defs, 0nat,
{
    if defs.len() == 0 {
        Ok(Seq::empty())
    } else {
        match assign_defs_spec(defs.drop_last()) {
            Err(err) => Err(err),
            Ok(init) => match assign_homes_spec(defs.last()) {
                Err(err) => Err(err),
                Ok(def) => Ok(init.push(def)),
            },
        }
    }
}

/// Whether an operand is a register, an immediate or a memory cell: anything but a
/// variable.
pub open spec fn is_home(a: ArgView) -> bool {
    !(a is Var)
}

/// Whether every home is a real operand.
pub open spec fn homes_only(locs: Homes) -> bool {
    forall|i: int| 0 <= i < locs.len() ==> is_home((#[trigger] locs[i]).1)
}

/// Whether no operand anywhere in `x` is a variable.
pub open spec fn no_vars(x: X86View) -> bool
    decreases x,
{
    match x {
        X86View::Mov(dst, src) => is_home(dst) && is_home(src),
        X86View::Add(dst, src) => is_home(dst) && is_home(src),
        X86View::Cmp(left, right) => is_home(left) && is_home(right),
        X86View::EqP(left, right) => is_home(left) && is_home(right),
        X86View::If(cnd, thn, els) => {
            &&& no_vars(*cnd)
            &&& forall|i: int| 0 <= i < thn.len() ==> no_vars(#[trigger] thn[i])
            &&& forall|i: int| 0 <= i < els.len() ==> no_vars(#[trigger] els[i])
        },
        X86View::IfWithLives(cnd, thn, _, els, _) => {
            &&& no_vars(*cnd)
            &&& forall|i: int| 0 <= i < thn.len() ==> no_vars(#[trigger] thn[i])
            &&& forall|i: int| 0 <= i < els.len() ==> no_vars(#[trigger] els[i])
        },
        X86View::Define(_, _, instrs) => forall|i: int|
            0 <= i < instrs.len() ==> no_vars(#[trigger] instrs[i]),
        X86View::DefineWithLives(_, _, _, instrs) => forall|i: int|
            0 <= i < instrs.len() ==> no_vars(#[trigger] instrs[i]),
        X86View::Prog(defs, instrs, _) => {
            &&& forall|i: int| 0 <= i < defs.len() ==> no_vars(#[trigger] defs[i])
            &&& forall|i: int| 0 <= i < instrs.len() ==> no_vars(#[trigger] instrs[i])
        },
        X86View::ProgWithLives(defs, instrs, _, _) => {
            &&& forall|i: int| 0 <= i < defs.len() ==> no_vars(#[trigger] defs[i])
            &&& forall|i: int| 0 <= i < instrs.len() ==> no_vars(#[trigger] instrs[i])
        },
        _ => true,
    }
}

/// Whether no operand of any instruction of a list is a variable.
pub open spec fn all_no_vars(instrs: Seq<X86View>) -> bool {
    forall|i: int| 0 <= i < instrs.len() ==> no_vars(#[trigger] instrs[i])
}

/// Binding a variable to a real operand keeps all homes real.
proof fn lemma_put_home(locs: Homes, v: Name, home: ArgView)
    requires
        homes_only(locs),
        is_home(home),
    ensures
        homes_only(assoc_put(locs, v, home)),
{
    lemma_find(locs, v);
    let out = assoc_put(locs, v, home);
    assert forall|i: int| 0 <= i < out.len() implies is_home((#[trigger] out[i]).1) by {
        if i != assoc_find(locs, v) {
            assert(out[i] == locs[i]);
        }
    }
}

/// An error among the first `k` variables is the error of all of them.
proof fn lemma_decide_vars_error(vars: Seq<Name>, regs: Registers, k: int)
    requires
        0 <= k <= vars.len(),
        decide_vars_spec(vars.take(k), regs) is Err,
    ensures
        decide_vars_spec(vars, regs) == decide_vars_spec(vars.take(k), regs),
    decreases vars.len(),
{
    if k == vars.len() {
        lemma_take_all(vars);
    } else {
        assert(vars.drop_last().take(k) =~= vars.take(k));
        lemma_decide_vars_error(vars.drop_last(), regs, k);
    }
}

/// An error among the first `k` instructions is the error of all of them.
proof fn lemma_assign_instrs_error(instrs: Seq<X86View>, locs: Homes, k: int)
    requires
        0 <= k <= instrs.len(),
        assign_instrs_spec(instrs.take(k), locs) is Err,
    ensures
        assign_instrs_spec(instrs, locs) == assign_instrs_spec(instrs.take(k), locs),
    decreases instrs.len(),
{
    if k == instrs.len() {
        lemma_take_all(instrs);
    } else {
        assert(instrs.drop_last().take(k) =~= instrs.take(k));
        lemma_assign_instrs_error(instrs.drop_last(), locs, k);
    }
}

/// An error among the first `k` definitions is the error of all of them.
proof fn lemma_assign_defs_error(defs: Seq<X86View>, k: int)
    requires
        0 <= k <= defs.len(),
        assign_defs_spec(defs.take(k)) is Err,
    ensures
        assign_defs_spec(defs) == assign_defs_spec(defs.take(k)),
    decreases defs.len(),
{
    if k == defs.len() {
        lemma_take_all(defs);
    } else {
        assert(defs.drop_last().take(k) =~= defs.take(k));
        lemma_assign_defs_error(defs.drop_last(), k);
    }
}

/// The register of the pool with index `i`.
pub fn pool_reg(i: usize) -> (r: Reg)
    ensures
        r == pool_register(i as int),
{
    if i == 0 {
        Reg::RBX
    } else if i == 1 {
        Reg::RDX
    } else {
        Reg::RCX
    }
}

/// The homes of the variables of a body: a register for each variable that linear scan
/// found one for, a stack slot for each of the others.
#[verifier::loop_isolation(false)]
pub fn decide_locs(vars: &Vec<String>, instrs: &Vec<X86>, live_sets: &Vec<Vec<String>>) -> (result:
    Result<Vec<(String, X86Arg)>, CompileError>)
    ensures
        match result {
            Ok(locs) => decide_locs_spec(
                vars.deep_view(),
                instrs.deep_view(),
                live_sets.deep_view(),
            ) == Ok::<_, CompileError>(locs.deep_view()) && homes_only(locs.deep_view()),
            Err(err) => decide_locs_spec(
                vars.deep_view(),
                instrs.deep_view(),
                live_sets.deep_view(),
            ) == Err::<Homes, _>(err),
        },
{
    let mut live_intervals: Vec<(String, (i32, i32))> = empty_deep();
    compute_live_intervals(instrs, live_sets, &mut live_intervals, 1)?;
    let reg_alloc = allocate_registers(&live_intervals);
    let mut locs: Vec<(String, X86Arg)> = empty_deep();
    let mut stack_size: i32 = 0;
    let mut i: usize = 0;
    while i < vars.len()
        invariant
            i <= vars.len(),
            0 <= stack_size <= MAX_SLOTS,
            decide_vars_spec(vars.deep_view().take(i as int), reg_alloc.deep_view()) == Ok::<
                _,
                CompileError,
            >((locs.deep_view(), stack_size)),
            homes_only(locs.deep_view()),
        decreases vars.len() - i,
    {
        proof {
            lemma_take_push(vars.deep_view(), i as int);
            lemma_deep_view_index(vars);
        }
        let home = match get(&reg_alloc, &vars[i]) {
            Some(reg) => X86Arg::Reg(pool_reg(*reg)),
            None => {
                if stack_size >= MAX_SLOTS {
                    proof {
                        lemma_decide_vars_error(vars.deep_view(), reg_alloc.deep_view(), i + 1);
                    }
                    return Err(CompileError::FrameTooLarge);
                }
                stack_size = stack_size + 1;
                assert(-2147483648 <= stack_size * -8 <= 0) by (nonlinear_arith)
                    requires
                        1 <= stack_size <= 268435456,
                ;
                X86Arg::RegOffset(Reg::RBP, stack_size * -8)
            },
        };
        proof {
            lemma_put_home(locs.deep_view(), vars[i as int]@, home@);
        }
        put(&mut locs, vars[i].clone(), home);
        i = i + 1;
    }
    proof {
        lemma_take_all(vars.deep_view());
    }
    Ok(locs)
}

/// The operand with its variable replaced by the variable's home.
fn home_of(locs: &Vec<(String, X86Arg)>, arg: &X86Arg) -> (result: Result<X86Arg, CompileError>)
    ensures
        match result {
            Ok(home) => home_spec(locs.deep_view(), arg@) == Ok::<_, CompileError>(home@) && (
            homes_only(locs.deep_view()) ==> is_home(home@)),
            Err(err) => home_spec(locs.deep_view(), arg@) == Err::<ArgView, _>(err),
        },
{
    match arg {
        X86Arg::Var(name) => {
            proof {
                lemma_find(locs.deep_view(), name@);
            }
            match get(locs, name) {
                Some(home) => Ok(home.clone()),
                None => Err(CompileError::NoHome),
            }
        },
        _ => Ok(arg.clone()),
    }
}

/// The two operands of an instruction with homes for their variables: the new
/// destination and the new source.
pub fn assign_homes_to_op2(locs: &Vec<(String, X86Arg)>, src: &X86Arg, dest: &X86Arg) -> (result:
    Result<(X86Arg, X86Arg), CompileError>)
    ensures
        match result {
            Ok((new_dest, new_src)) => op2_spec(locs.deep_view(), src@, dest@) == Ok::<
                _,
                CompileError,
            >((new_dest@, new_src@)) && (homes_only(locs.deep_view()) ==> is_home(new_dest@)
                && is_home(new_src@)),
            Err(err) => op2_spec(locs.deep_view(), src@, dest@) == Err::<(ArgView, ArgView), _>(
                err,
            ),
        },
{
    let new_dest = home_of(locs, dest)?;
    let new_src = home_of(locs, src)?;
    Ok((new_dest, new_src))
}

/// One instruction with homes for its variables.
fn assign_homes_to_instr(instr: &X86, locs: &Vec<(String, X86Arg)>) -> (result: Result<
    X86,
    CompileError,
>)
    ensures
        match result {
            Ok(new_instr) => assign_instr_spec(instr@, locs.deep_view()) == Ok::<_, CompileError>(
                new_instr@,
            ) && (homes_only(locs.deep_view()) ==> no_vars(new_instr@)) && is_structured(new_instr@),
            Err(err) => assign_instr_spec(instr@, locs.deep_view()) == Err::<X86View, _>(err),
        },
    decreases instr, 1nat,
{
    proof {
        lemma_x86_view(instr);
    }
    match instr {
        X86::IfWithLives(cnd, thn, _, els, _) => {
            proof {
                lemma_x86_view(cnd);
            }
            match &**cnd {
                X86::EqP(left, right) => {
                    let new_left = home_of(locs, left)?;
                    let new_right = home_of(locs, right)?;
                    let new_thn = assign_homes_to_instrs(thn, locs)?;
                    let new_els = assign_homes_to_instrs(els, locs)?;
                    let test = X86::EqP(new_left, new_right);
                    let branch = X86::branch(test, new_thn, new_els);
                    proof {
                        if homes_only(locs.deep_view()) {
                            assert(no_vars(test@));
                            assert(all_no_vars(new_thn.deep_view()));
                            assert(all_no_vars(new_els.deep_view()));
                            assert(no_vars(branch@));
                        }
                        assert(all_structured(new_thn.deep_view()));
                        assert(all_structured(new_els.deep_view()));
                        assert(is_structured(branch@));
                    }
                    Ok(branch)
                },
                _ => Err(CompileError::UnsupportedCondition),
            }
        },
        X86::Mov(dest, src) => {
            let (new_dest, new_src) = assign_homes_to_op2(locs, src, dest)?;
            Ok(X86::Mov(new_dest, new_src))
        },
        X86::Add(dest, src) => {
            let (new_dest, new_src) = assign_homes_to_op2(locs, src, dest)?;
            Ok(X86::Add(new_dest, new_src))
        },
        X86::Call(label) => Ok(X86::Call(label.clone())),
        _ => Err(CompileError::UnsupportedInstruction),
    }
}

/// The instructions with every variable replaced by its home.
pub fn assign_homes_to_instrs(instrs: &Vec<X86>, locs: &Vec<(String, X86Arg)>) -> (result: Result<
    Vec<X86>,
    CompileError,
>)
    ensures
        match result {
            Ok(new_instrs) => assign_instrs_spec(instrs.deep_view(), locs.deep_view()) == Ok::<
                _,
                CompileError,
            >(new_instrs.deep_view()) && (homes_only(locs.deep_view()) ==> all_no_vars(
                new_instrs.deep_view(),
            )) && all_structured(new_instrs.deep_view()),
            Err(err) => assign_instrs_spec(instrs.deep_view(), locs.deep_view()) == Err::<
                Seq<X86View>,
                _,
            >(err),
        },
    decreases instrs, 0nat,
{
    let mut new_instrs: Vec<X86> = empty_deep();
    let mut i: usize = 0;
    while i < instrs.len()
        invariant
            i <= instrs.len(),
            assign_instrs_spec(instrs.deep_view().take(i as int), locs.deep_view()) == Ok::<
                _,
                CompileError,
            >(new_instrs.deep_view()),
            homes_only(locs.deep_view()) ==> all_no_vars(new_instrs.deep_view()),
            all_structured(new_instrs.deep_view()),
        decreases instrs.len() - i,
    {
        proof {
            lemma_take_push(instrs.deep_view(), i as int);
            lemma_deep_view_index(instrs);
        }
        match assign_homes_to_instr(&instrs[i], locs) {
            Err(err) => {
                proof {
                    lemma_assign_instrs_error(instrs.deep_view(), locs.deep_view(), i + 1);
                }
                return Err(err);
            },
            Ok(new_instr) => {
                push_deep(&mut new_instrs, new_instr);
            },
        }
        i = i + 1;
    }
    proof {
        lemma_take_all(instrs.deep_view());
    }
    Ok(new_instrs)
}

/// Home assignment for the definitions of a program.
fn assign_homes_to_defs(defs: &Vec<X86>) -> (result: Result<Vec<X86>, CompileError>)
    ensures
        match result {
            Ok(new_defs) => assign_defs_spec(defs.deep_view()) == Ok::<_, CompileError>(
                new_defs.deep_view(),
            ) && all_no_vars(new_defs.deep_view()) && forall|i: int|
                0 <= i < new_defs.deep_view().len() ==> is_structured_program(
                    #[trigger] new_defs.deep_view()[i],
                ),
            Err(err) => assign_defs_spec(defs.deep_view()) == Err::<Seq<X86View>, _>(err),
        },
    decreases defs, 0nat,
{
    let mut new_defs: Vec<X86> = empty_deep();
    let mut i: usize = 0;
    while i < defs.len()
        invariant
            i <= defs.len(),
            assign_defs_spec(defs.deep_view().take(i as int)) == Ok::<_, CompileError>(
                new_defs.deep_view(),
            ),
            all_no_vars(new_defs.deep_view()),
            forall|i: int|
                0 <= i < new_defs.deep_view().len() ==> is_structured_program(
                    #[trigger] new_defs.deep_view()[i],
                ),
        decreases defs.len() - i,
    {
        proof {
            lemma_take_push(defs.deep_view(), i as int);
            lemma_deep_view_index(defs);
        }
        match assign_homes(&defs[i]) {
            Err(err) => {
                proof {
                    lemma_assign_defs_error(defs.deep_view(), i + 1);
                }
                return Err(err);
            },
            Ok(def) => {
                push_deep(&mut new_defs, def);
            },
        }
        i = i + 1;
    }
    proof {
        lemma_take_all(defs.deep_view());
    }
    Ok(new_defs)
}

/// The pass that gives every variable a home. In its result no operand is a variable,
/// and every instruction is a real one or a conditional on an equality test.
pub fn assign_homes(prog: &X86) -> (result: Result<X86, CompileError>)
    ensures
        match result {
            Ok(placed) => assign_homes_spec(prog@) == Ok::<_, CompileError>(placed@) && no_vars(
                placed@,
            ) && is_structured_program(placed@),
            Err(err) => assign_homes_spec(prog@) == Err::<X86View, _>(err),
        },
    decreases prog, 1nat,
{
    proof {
        lemma_x86_view(prog);
    }
    match prog {
        X86::DefineWithLives(name, vars, live_sets, instrs) => {
            let locs = decide_locs(vars, instrs, live_sets)?;
            let new_instrs = assign_homes_to_instrs(instrs, &locs)?;
            Ok(X86::define(name.clone(), vars.clone(), new_instrs))
        },
        X86::ProgWithLives(defs, instrs, vars, live_sets) => {
            let locs = decide_locs(vars, instrs, live_sets)?;
            let new_defs = assign_homes_to_defs(defs)?;
            let new_instrs = assign_homes_to_instrs(instrs, &locs)?;
            Ok(X86::prog(new_defs, new_instrs, vars.clone()))
        },
        _ => Err(CompileError::NotTopLevel),
    }
}

/// Whether the homes use the first `slots` slots of the frame properly: every memory
/// home is one of these slots, and no two variables share one.
spec fn slots_in_use(locs: Homes, slots: int) -> bool {
    &&& 0 <= slots <= MAX_SLOTS
    &&& forall|i: int|
        0 <= i < locs.len() ==> ((#[trigger] locs[i]).1 matches ArgView::RegOffset(r, d) ==> r
            == Reg::RBP && -8 * slots <= d <= -8 && d % 8 == 0)
    &&& forall|i: int, j: int|
        0 <= i < locs.len() && 0 <= j < locs.len() && i != j && locs[i].1 is RegOffset
            ==> locs[i].1 != locs[j].1
}

/// The slots that the homes of a list of variables use.
proof fn lemma_decide_vars_slots(vars: Seq<Name>, regs: Registers)
    requires
        decide_vars_spec(vars, regs) is Ok,
    ensures
        slots_in_use(decide_vars_spec(vars, regs)->Ok_0.0, decide_vars_spec(vars, regs)->Ok_0.1 as int),
    decreases vars.len(),
{
    if vars.len() > 0 {
        lemma_decide_vars_slots(vars.drop_last(), regs);
        let (locs, slots) = decide_vars_spec(vars.drop_last(), regs)->Ok_0;
        let (out, used) = decide_vars_spec(vars, regs)->Ok_0;
        let v = vars.last();
        lemma_find(locs, v);
        let at = assoc_find(locs, v);
        match assoc_get(regs, v) {
            Some(r) => {
                assert forall|i: int| 0 <= i < out.len() && i != at implies #[trigger] out[i]
                    == locs[i] by {}
            },
            None => {
                assert(out == assoc_put(locs, v, stack_slot(slots + 1)));
                assert(stack_slot(slots + 1) == ArgView::RegOffset(
                    Reg::RBP,
                    (-8 * (slots + 1)) as i32,
                ));
                assert forall|i: int| 0 <= i < out.len() && i != at implies #[trigger] out[i]
                    == locs[i] by {}
                assert forall|i: int, j: int|
                    0 <= i < out.len() && 0 <= j < out.len() && i != j
                        && out[i].1 is RegOffset implies out[i].1 != out[j].1 by {
                    if i != at {
                        assert(out[i] == locs[i]);
                    }
                    if j != at {
                        assert(out[j] == locs[j]);
                    }
                }
            },
        }
    }
}

/// Spills land in distinct slots: two different variables that both live in memory have
/// different homes, each an eight-byte slot below the frame pointer.
pub proof fn lemma_spills_distinct(
    vars: Seq<Name>,
    instrs: Seq<X86View>,
    sets: Seq<Seq<Name>>,
    a: Name,
    b: Name,
)
    requires
        decide_locs_spec(vars, instrs, sets) is Ok,
        a != b,
        assoc_get(decide_locs_spec(vars, instrs, sets)->Ok_0, a) matches Some(home)
            && home is RegOffset,
        assoc_get(decide_locs_spec(vars, instrs, sets)->Ok_0, b) is Some,
    ensures
        assoc_get(decide_locs_spec(vars, instrs, sets)->Ok_0, a) != assoc_get(
            decide_locs_spec(vars, instrs, sets)->Ok_0,
            b,
        ),
        assoc_get(decide_locs_spec(vars, instrs, sets)->Ok_0, a) matches Some(
            ArgView::RegOffset(r, d),
        ) && r == Reg::RBP && d <= -8 && d % 8 == 0,
{
    let intervals = intervals_spec(instrs, sets, Seq::empty(), 1)->Ok_0;
    let regs = allocate_spec(intervals, POOL_SIZE as nat);
    lemma_decide_vars_slots(vars, regs);
    let locs = decide_locs_spec(vars, instrs, sets)->Ok_0;
    lemma_find(locs, a);
    lemma_find(locs, b);
}

/// Register allocation within home assignment is safe: of the live intervals of a body,
/// numbered from line one, no two that overlap get the same register.
pub proof fn lemma_body_registers_safe(
    instrs: Seq<X86View>,
    sets: Seq<Seq<Name>>,
    a: int,
    b: int,
)
    requires
        intervals_spec(instrs, sets, Seq::empty(), 1) is Ok,
        0 <= a < intervals_spec(instrs, sets, Seq::empty(), 1)->Ok_0.len(),
        0 <= b < intervals_spec(instrs, sets, Seq::empty(), 1)->Ok_0.len(),
        a != b,
        ({
            let intervals = intervals_spec(instrs, sets, Seq::empty(), 1)->Ok_0;
            let regs = allocate_spec(intervals, POOL_SIZE as nat);
            assoc_get(regs, intervals[a].0) is Some && assoc_get(regs, intervals[a].0)
                == assoc_get(regs, intervals[b].0)
        }),
    ensures
        ({
            let intervals = intervals_spec(instrs, sets, Seq::empty(), 1)->Ok_0;
            !overlap(intervals[a].1, intervals[b].1)
        }),
{
    lemma_intervals_unique(instrs, sets, Seq::empty(), 1);
    let intervals = intervals_spec(instrs, sets, Seq::empty(), 1)->Ok_0;
    lemma_allocation_safe(intervals, POOL_SIZE as nat, a, b);
}

/// Whether a home is a register of the pool or an eight-byte slot below the frame
/// pointer.
pub open spec fn is_pool_or_slot(home: ArgView) -> bool {
    match home {
        ArgView::Reg(r) => r == Reg::RBX || r == Reg::RDX || r == Reg::RCX,
        ArgView::RegOffset(r, d) => r == Reg::RBP && d <= -8 && d % 8 == 0,
        _ => false,
    }
}

/// The homes of a list of variables bind every variable of the list, each to a register
/// of the pool or to a slot of the frame.
proof fn lemma_decide_vars_cover(vars: Seq<Name>, regs: Registers)
    requires
        decide_vars_spec(vars, regs) is Ok,
    ensures
        forall|i: int|
            0 <= i < vars.len() ==> assoc_get(
                decide_vars_spec(vars, regs)->Ok_0.0,
                #[trigger] vars[i],
            ) is Some,
        forall|v: Name|
            (#[trigger] assoc_get(decide_vars_spec(vars, regs)->Ok_0.0, v)) matches Some(home)
                ==> is_pool_or_slot(home),
    decreases vars.len(),
{
    if vars.len() == 0 {
        assert forall|v: Name|
            (#[trigger] assoc_get(decide_vars_spec(vars, regs)->Ok_0.0, v)) is None by {
            lemma_find(decide_vars_spec(vars, regs)->Ok_0.0, v);
        }
    } else {
        let rest = vars.drop_last();
        lemma_decide_vars_cover(rest, regs);
        lemma_decide_vars_slots(vars, regs);
        let (locs, slots) = decide_vars_spec(rest, regs)->Ok_0;
        let (out, _) = decide_vars_spec(vars, regs)->Ok_0;
        let last = vars.last();
        let home = match assoc_get(regs, last) {
            Some(r) => ArgView::Reg(pool_register(r as int)),
            None => stack_slot(slots + 1),
        };
        assert(out == assoc_put(locs, last, home));
        assert forall|v: Name| (#[trigger] assoc_get(out, v)) matches Some(h) ==> is_pool_or_slot(
            h,
        ) by {
            lemma_get_put(locs, last, home, v);
            if v == last && home is RegOffset {
                lemma_find(out, v);
            }
        }
        assert forall|i: int| 0 <= i < vars.len() implies assoc_get(out, #[trigger] vars[i])
            is Some by {
            lemma_get_put(locs, last, home, vars[i]);
            if i < rest.len() {
                assert(rest[i] == vars[i]);
            }
        }
    }
}

/// Every variable of a body has a home, and every home is a register of the pool or an
/// eight-byte slot below the frame pointer.
pub proof fn lemma_homes_cover(vars: Seq<Name>, instrs: Seq<X86View>, sets: Seq<Seq<Name>>)
    requires
        decide_locs_spec(vars, instrs, sets) is Ok,
    ensures
        forall|i: int|
            0 <= i < vars.len() ==> assoc_get(
                decide_locs_spec(vars, instrs, sets)->Ok_0,
                #[trigger] vars[i],
            ) is Some,
        forall|v: Name|
            (#[trigger] assoc_get(decide_locs_spec(vars, instrs, sets)->Ok_0, v)) matches Some(
                home,
            ) ==> is_pool_or_slot(home),
{
    let intervals = intervals_spec(instrs, sets, Seq::empty(), 1)->Ok_0;
    lemma_decide_vars_cover(vars, allocate_spec(intervals, POOL_SIZE as nat));
}

/// Whether an operand is no variable or a variable that has a home.
pub open spec fn arg_placed(locs: Homes, a: ArgView) -> bool {
    a matches ArgView::Var(name) ==> assoc_get(locs, name) is Some
}

/// Whether every variable that an annotated instruction mentions has a home.
pub open spec fn instr_placed(locs: Homes, x: X86View) -> bool
    decreases x,
{
    match x {
        X86View::Mov(dst, src) => arg_placed(locs, dst) && arg_placed(locs, src),
        X86View::Add(dst, src) => arg_placed(locs, dst) && arg_placed(locs, src),
        X86View::IfWithLives(cnd, thn, _, els, _) => {
            &&& *cnd matches X86View::EqP(left, right) ==> arg_placed(locs, left) && arg_placed(
                locs,
                right,
            )
            &&& forall|i: int| 0 <= i < thn.len() ==> instr_placed(locs, #[trigger] thn[i])
            &&& forall|i: int| 0 <= i < els.len() ==> instr_placed(locs, #[trigger] els[i])
        },
        _ => true,
    }
}

/// Where every variable of an instruction has a home, substitution does not fail for
/// want of one.
proof fn lemma_instr_has_homes(x: X86View, locs: Homes)
    requires
        instr_placed(locs, x),
    ensures
        assign_instr_spec(x, locs) != Err::<X86View, _>(CompileError::NoHome),
    decreases x, 1nat,
{
    match x {
        X86View::IfWithLives(cnd, thn, _, els, _) => {
            lemma_instrs_have_homes(thn, locs);
            lemma_instrs_have_homes(els, locs);
        },
        _ => {},
    }
}

/// Home assignment succeeds for want of no home: where every variable that the
/// instructions mention has a home, substitution does not fail with `NoHome`.
pub proof fn lemma_instrs_have_homes(instrs: Seq<X86View>, locs: Homes)
    requires
        forall|i: int| 0 <= i < instrs.len() ==> instr_placed(locs, #[trigger] instrs[i]),
    ensures
        assign_instrs_spec(instrs, locs) != Err::<Seq<X86View>, _>(CompileError::NoHome),
    decreases instrs, 0nat,
{
    if instrs.len() > 0 {
        let rest = instrs.drop_last();
        assert forall|i: int| 0 <= i < rest.len() implies instr_placed(locs, #[trigger] rest[i]) by {
            assert(rest[i] == instrs[i]);
        }
        assert(instrs.last() == instrs[instrs.len() - 1]);
        lemma_instrs_have_homes(rest, locs);
        lemma_instr_has_homes(instrs.last(), locs);
    }
}

/// A variable without a register has a slot for its home, if it has a home.
proof fn lemma_decide_vars_spilled(vars: Seq<Name>, regs: Registers, v: Name)
    requires
        decide_vars_spec(vars, regs) is Ok,
        assoc_get(regs, v) is None,
    ensures
        assoc_get(decide_vars_spec(vars, regs)->Ok_0.0, v) matches Some(home) ==> home
            is RegOffset,
    decreases vars.len(),
{
    if vars.len() == 0 {
        lemma_find(decide_vars_spec(vars, regs)->Ok_0.0, v);
    } else {
        lemma_decide_vars_spilled(vars.drop_last(), regs, v);
        let (locs, slots) = decide_vars_spec(vars.drop_last(), regs)->Ok_0;
        let last = vars.last();
        match assoc_get(regs, last) {
            Some(r) => {
                lemma_get_put(locs, last, ArgView::Reg(pool_register(r as int)), v);
            },
            None => {
                lemma_get_put(locs, last, stack_slot(slots + 1), v);
            },
        }
    }
}

/// A variable that is never live gets a slot: a variable of a body that occurs in none
/// of the live-after sets has an eight-byte slot below the frame pointer for its home.
pub proof fn lemma_never_live_gets_slot(
    vars: Seq<Name>,
    instrs: Seq<X86View>,
    sets: Seq<Seq<Name>>,
    i: int,
)
    requires
        decide_locs_spec(vars, instrs, sets) is Ok,
        0 <= i < vars.len(),
        !in_live_sets(instrs, sets, vars[i]),
    ensures
        assoc_get(decide_locs_spec(vars, instrs, sets)->Ok_0, vars[i]) matches Some(
            ArgView::RegOffset(r, d),
        ) && r == Reg::RBP && d <= -8 && d % 8 == 0,
{
    let v = vars[i];
    let intervals = intervals_spec(instrs, sets, Seq::empty(), 1)->Ok_0;
    let regs = allocate_spec(intervals, POOL_SIZE as nat);
    lemma_find(Seq::<(Name, (i32, i32))>::empty(), v);
    lemma_intervals_unique(instrs, sets, Seq::empty(), 1);
    lemma_intervals_bind(instrs, sets, Seq::empty(), 1, v);
    lemma_allocation_binds(intervals, POOL_SIZE as nat, v);
    lemma_decide_vars_spilled(vars, regs, v);
    lemma_decide_vars_cover(vars, regs);
}

} // verus!

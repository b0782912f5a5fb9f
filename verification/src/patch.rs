//! Legalization of two-operand instructions: x86 takes at most one memory operand and
//! no immediate as the first operand of a compare. The accumulator `rax` is the
//! scratch register.

use vstd::prelude::*;
use crate::error::CompileError;
use crate::homes::{all_no_vars, is_home, no_vars};
use crate::lower::{all_plain, is_lowered, is_plain};
use crate::seqs::{
    append_deep, empty_deep, lemma_deep_view_index, lemma_take_all, lemma_take_push, push_deep,
};
use crate::x86::{ArgView, Reg, X86, X86Arg, X86View, copy_instr, lemma_x86_view};

verus! {

/// Whether an operand is a memory cell.
pub open spec fn is_mem(a: ArgView) -> bool {
    a is RegOffset
}

/// The scratch register as an operand.
pub open spec fn scratch() -> ArgView {
    ArgView::Reg(Reg::RAX)
}

/// What [`patch_single_instr`] computes: a move between memory cells goes through the
/// scratch register; an addition of a memory cell to a memory cell is done in the
/// scratch register and stored; an immediate that is the first operand of a compare is
/// loaded into the scratch register. Every other instruction stays as it is.
pub open spec fn patch_single_spec(x: X86View) -> Seq<X86View> {
    match x {
        X86View::Mov(dst, src) => {
            if is_mem(dst) && is_mem(src) {
                seq![X86View::Mov(scratch(), src), X86View::Mov(dst, scratch())]
            } else {
                seq![x]
            }
        },
        X86View::Add(dst, src) => {
            if is_mem(dst) && is_mem(src) {
                seq![
                    X86View::Mov(scratch(), dst),
                    X86View::Add(scratch(), src),
                    X86View::Mov(dst, scratch()),
                ]
            } else {
                seq![x]
            }
        },
        X86View::Cmp(left, right) => {
            if left is Imm {
                seq![X86View::Mov(scratch(), left), X86View::Cmp(scratch(), right)]
            } else {
                seq![x]
            }
        },
        _ => seq![x],
    }
}

/// The instructions of a list, patched in order.
pub open spec fn patch_list_spec(instrs: Seq<X86View>) -> Seq<X86View>
    decreases instrs.len(),
{
    if instrs.len() == 0 {
        Seq::empty()
    } else {
        patch_list_spec(instrs.drop_last()) + patch_single_spec(instrs.last())
    }
}

/// What [`patch_instructions`] computes.
pub open spec fn patch_instructions_spec(x: X86View) -> Result<X86View, CompileError>
    decreases x, 1nat,
{
    match x {
        X86View::Define(name, vars, instrs) => Ok(
            X86View::Define(name, vars, patch_list_spec(instrs)),
        ),
        X86View::Prog(defs, instrs, vars) => match patch_defs_spec(defs) {
            Err(err) => Err(err),
            Ok(new_defs) => Ok(X86View::Prog(new_defs, patch_list_spec(instrs), vars)),
        },
        _ => Err(CompileError::NotTopLevel),
    }
}

/// Patching of the definitions of a program, in order.
pub open spec fn patch_defs_spec(defs: Seq<X86View>) -> Result<Seq<X86View>, CompileError>
    decreases defs, 0nat,
{
    if defs.len() == 0 {
        Ok(Seq::empty())
    } else {
        match patch_defs_spec(defs.drop_last()) {
            Err(err) => Err(err),
            Ok(init) => match patch_instructions_spec(defs.last()) {
                Err(err) => Err(err),
                Ok(def) => Ok(init.push(def)),
            },
        }
    }
}

/// Whether an instruction is settled: a move or an addition has at most one memory
/// operand, and the first operand of a compare is no immediate. Every patched
/// instruction is.
pub open spec fn is_settled(x: X86View) -> bool {
    match x {
        X86View::Mov(dst, src) => !(is_mem(dst) && is_mem(src)),
        X86View::Add(dst, src) => !(is_mem(dst) && is_mem(src)),
        X86View::Cmp(left, _) => !(left is Imm),
        _ => true,
    }
}

/// Whether every instruction of a list is settled.
pub open spec fn all_settled(instrs: Seq<X86View>) -> bool {
    forall|i: int| 0 <= i < instrs.len() ==> is_settled(#[trigger] instrs[i])
}

/// Whether every instruction of every body of a program or a definition is settled.
pub open spec fn is_settled_program(x: X86View) -> bool
    decreases x,
{
    match x {
        X86View::Define(_, _, instrs) => all_settled(instrs),
        X86View::Prog(defs, instrs, _) => {
            &&& forall|i: int| 0 <= i < defs.len() ==> is_settled_program(#[trigger] defs[i])
            &&& all_settled(instrs)
        },
        _ => true,
    }
}

/// Whether an instruction is legal: it is settled, and if it is a compare, it has at
/// most one memory operand. Instructions with fewer operands are legal.
pub open spec fn is_legal(x: X86View) -> bool {
    &&& is_settled(x)
    &&& x matches X86View::Cmp(left, right) ==> !(is_mem(left) && is_mem(right))
}

/// Whether every instruction of a list is legal.
pub open spec fn all_legal(instrs: Seq<X86View>) -> bool {
    forall|i: int| 0 <= i < instrs.len() ==> is_legal(#[trigger] instrs[i])
}

/// Whether an instruction is anything but a compare of two memory cells, the one shape
/// that patching leaves illegal.
pub open spec fn is_patchable(x: X86View) -> bool {
    x matches X86View::Cmp(left, right) ==> !(is_mem(left) && is_mem(right))
}

/// Whether every instruction of a list is patchable.
pub open spec fn all_patchable(instrs: Seq<X86View>) -> bool {
    forall|i: int| 0 <= i < instrs.len() ==> is_patchable(#[trigger] instrs[i])
}

/// Whether every instruction of every body of a program or a definition is legal.
pub open spec fn is_legal_program(x: X86View) -> bool
    decreases x,
{
    match x {
        X86View::Define(_, _, instrs) => all_legal(instrs),
        X86View::Prog(defs, instrs, _) => {
            &&& forall|i: int| 0 <= i < defs.len() ==> is_legal_program(#[trigger] defs[i])
            &&& all_legal(instrs)
        },
        _ => true,
    }
}

/// Whether every instruction of every body of a program or a definition is patchable.
pub open spec fn is_patchable_program(x: X86View) -> bool
    decreases x,
{
    match x {
        X86View::Define(_, _, instrs) => all_patchable(instrs),
        X86View::Prog(defs, instrs, _) => {
            &&& forall|i: int| 0 <= i < defs.len() ==> is_patchable_program(#[trigger] defs[i])
            &&& all_patchable(instrs)
        },
        _ => true,
    }
}

/// Two-memory elimination for one instruction: patching gives settled instructions
/// only, whatever the instruction; patching an instruction other than a compare of two
/// memory cells gives legal instructions only. Patching keeps real instructions real
/// and brings in no variable.
pub proof fn lemma_patch_single(x: X86View)
    ensures
        all_settled(patch_single_spec(x)),
        is_patchable(x) ==> all_legal(patch_single_spec(x)),
        is_plain(x) ==> all_plain(patch_single_spec(x)),
        no_vars(x) ==> all_no_vars(patch_single_spec(x)),
{
}

/// Two-memory elimination for a list: after patching no move or addition has two
/// memory operands and no compare an immediate first operand, whatever the list;
/// patching a list without a compare of two memory cells gives legal instructions only.
pub proof fn lemma_patch_list(instrs: Seq<X86View>)
    ensures
        all_settled(patch_list_spec(instrs)),
        all_patchable(instrs) ==> all_legal(patch_list_spec(instrs)),
        all_plain(instrs) ==> all_plain(patch_list_spec(instrs)),
        all_no_vars(instrs) ==> all_no_vars(patch_list_spec(instrs)),
    decreases instrs.len(),
{
    if instrs.len() > 0 {
        let init = patch_list_spec(instrs.drop_last());
        let more = patch_single_spec(instrs.last());
        let out = init + more;
        lemma_patch_list(instrs.drop_last());
        lemma_patch_single(instrs.last());
        assert(instrs[instrs.len() - 1] == instrs.last());
        assert forall|i: int| 0 <= i < out.len() implies is_settled(#[trigger] out[i]) by {
            if i < init.len() {
                assert(out[i] == init[i]);
            } else {
                assert(out[i] == more[i - init.len()]);
            }
        }
        assert forall|i: int| 0 <= i < instrs.drop_last().len() implies #[trigger] instrs.drop_last()[i]
            == instrs[i] by {}
        if all_patchable(instrs) {
            assert(all_patchable(instrs.drop_last())) by {
                assert forall|i: int| 0 <= i < instrs.drop_last().len() implies is_patchable(
                    #[trigger] instrs.drop_last()[i],
                ) by {
                    assert(instrs.drop_last()[i] == instrs[i]);
                }
            }
            assert forall|i: int| 0 <= i < out.len() implies is_legal(#[trigger] out[i]) by {
                if i < init.len() {
                    assert(out[i] == init[i]);
                } else {
                    assert(out[i] == more[i - init.len()]);
                }
            }
        }
        if all_plain(instrs) {
            assert(all_plain(instrs.drop_last())) by {
                assert forall|i: int| 0 <= i < instrs.drop_last().len() implies is_plain(
                    #[trigger] instrs.drop_last()[i],
                ) by {
                    assert(instrs.drop_last()[i] == instrs[i]);
                }
            }
            assert forall|i: int| 0 <= i < out.len() implies is_plain(#[trigger] out[i]) by {
                if i < init.len() {
                    assert(out[i] == init[i]);
                } else {
                    assert(out[i] == more[i - init.len()]);
                }
            }
        }
        if all_no_vars(instrs) {
            assert(all_no_vars(instrs.drop_last())) by {
                assert forall|i: int| 0 <= i < instrs.drop_last().len() implies no_vars(
                    #[trigger] instrs.drop_last()[i],
                ) by {
                    assert(instrs.drop_last()[i] == instrs[i]);
                }
            }
            assert forall|i: int| 0 <= i < out.len() implies no_vars(#[trigger] out[i]) by {
                if i < init.len() {
                    assert(out[i] == init[i]);
                } else {
                    assert(out[i] == more[i - init.len()]);
                }
            }
        }
    }
}

/// An error among the first `k` definitions is the error of all of them.
proof fn lemma_patch_defs_error(defs: Seq<X86View>, k: int)
    requires
        0 <= k <= defs.len(),
        patch_defs_spec(defs.take(k)) is Err,
    ensures
        patch_defs_spec(defs) == patch_defs_spec(defs.take(k)),
    decreases defs.len(),
{
    if k == defs.len() {
        lemma_take_all(defs);
    } else {
        assert(defs.drop_last().take(k) =~= defs.take(k));
        lemma_patch_defs_error(defs.drop_last(), k);
    }
}

/// Whether an operand is a memory cell.
fn is_memory(arg: &X86Arg) -> (mem: bool)
    ensures
        mem == is_mem(arg@),
{
    match arg {
        X86Arg::RegOffset(_, _) => true,
        _ => false,
    }
}

/// The instructions that stand for one instruction after patching.
pub fn patch_single_instr(instr: &X86) -> (patched: Vec<X86>)
    ensures
        patched.deep_view() == patch_single_spec(instr@),
{
    proof {
        lemma_x86_view(instr);
    }
    let mut patched: Vec<X86> = empty_deep();
    match instr {
        X86::Mov(dst, src) => {
            if is_memory(dst) && is_memory(src) {
                push_deep(&mut patched, X86::Mov(X86Arg::Reg(Reg::RAX), src.clone()));
                push_deep(&mut patched, X86::Mov(dst.clone(), X86Arg::Reg(Reg::RAX)));
                assert(patched.deep_view() =~= patch_single_spec(instr@));
                return patched;
            }
        },
        X86::Add(dst, src) => {
            if is_memory(dst) && is_memory(src) {
                push_deep(&mut patched, X86::Mov(X86Arg::Reg(Reg::RAX), dst.clone()));
                push_deep(&mut patched, X86::Add(X86Arg::Reg(Reg::RAX), src.clone()));
                push_deep(&mut patched, X86::Mov(dst.clone(), X86Arg::Reg(Reg::RAX)));
                assert(patched.deep_view() =~= patch_single_spec(instr@));
                return patched;
            }
        },
        X86::Cmp(left, right) => {
            match left {
                X86Arg::Imm(_) => {
                    push_deep(&mut patched, X86::Mov(X86Arg::Reg(Reg::RAX), left.clone()));
                    push_deep(&mut patched, X86::Cmp(X86Arg::Reg(Reg::RAX), right.clone()));
                    assert(patched.deep_view() =~= patch_single_spec(instr@));
                    return patched;
                },
                _ => {},
            }
        },
        _ => {},
    }
    push_deep(&mut patched, copy_instr(instr));
    assert(patched.deep_view() =~= seq![instr@]);
    patched
}

/// The instructions of a list, patched in order.
fn patch_list(instrs: &Vec<X86>) -> (patched: Vec<X86>)
    ensures
        patched.deep_view() == patch_list_spec(instrs.deep_view()),
{
    let mut patched: Vec<X86> = empty_deep();
    let mut i: usize = 0;
    while i < instrs.len()
        invariant
            i <= instrs.len(),
            patched.deep_view() == patch_list_spec(instrs.deep_view().take(i as int)),
        decreases instrs.len() - i,
    {
        proof {
            lemma_take_push(instrs.deep_view(), i as int);
            lemma_deep_view_index(instrs);
        }
        let mut more = patch_single_instr(&instrs[i]);
        append_deep(&mut patched, &mut more);
        i = i + 1;
    }
    proof {
        lemma_take_all(instrs.deep_view());
    }
    patched
}

/// Patching of the definitions of a program.
fn patch_defs(defs: &Vec<X86>) -> (result: Result<Vec<X86>, CompileError>)
    ensures
        match result {
            Ok(patched) => {
                &&& patch_defs_spec(defs.deep_view()) == Ok::<_, CompileError>(patched.deep_view())
                &&& forall|i: int|
                    0 <= i < patched.deep_view().len() ==> is_settled_program(
                        #[trigger] patched.deep_view()[i],
                    )
                &&& (forall|i: int|
                    0 <= i < defs.deep_view().len() ==> is_patchable_program(
                        #[trigger] defs.deep_view()[i],
                    )) ==> (forall|i: int|
                    0 <= i < patched.deep_view().len() ==> is_legal_program(
                        #[trigger] patched.deep_view()[i],
                    ))
                &&& (forall|i: int|
                    0 <= i < defs.deep_view().len() ==> is_lowered(#[trigger] defs.deep_view()[i]))
                    ==> (forall|i: int|
                    0 <= i < patched.deep_view().len() ==> is_lowered(
                        #[trigger] patched.deep_view()[i],
                    ))
                &&& all_no_vars(defs.deep_view()) ==> all_no_vars(patched.deep_view())
            },
            Err(err) => patch_defs_spec(defs.deep_view()) == Err::<Seq<X86View>, _>(err) && !(
            forall|i: int|
                0 <= i < defs.deep_view().len() ==> is_lowered(#[trigger] defs.deep_view()[i])),
        },
    decreases defs, 0nat,
{
    let mut patched: Vec<X86> = empty_deep();
    let mut i: usize = 0;
    while i < defs.len()
        invariant
            i <= defs.len(),
            patch_defs_spec(defs.deep_view().take(i as int)) == Ok::<_, CompileError>(
                patched.deep_view(),
            ),
            forall|i: int|
                0 <= i < patched.deep_view().len() ==> is_settled_program(
                    #[trigger] patched.deep_view()[i],
                ),
            (forall|i: int|
                0 <= i < defs.deep_view().len() ==> is_patchable_program(
                    #[trigger] defs.deep_view()[i],
                )) ==> (forall|i: int|
                0 <= i < patched.deep_view().len() ==> is_legal_program(
                    #[trigger] patched.deep_view()[i],
                )),
            (forall|i: int|
                0 <= i < defs.deep_view().len() ==> is_lowered(#[trigger] defs.deep_view()[i]))
                ==> (forall|i: int|
                0 <= i < patched.deep_view().len() ==> is_lowered(
                    #[trigger] patched.deep_view()[i],
                )),
            all_no_vars(defs.deep_view()) ==> all_no_vars(patched.deep_view()),
        decreases defs.len() - i,
    {
        proof {
            lemma_take_push(defs.deep_view(), i as int);
            lemma_deep_view_index(defs);
        }
        match patch_instructions(&defs[i]) {
            Err(err) => {
                proof {
                    lemma_patch_defs_error(defs.deep_view(), i + 1);
                }
                return Err(err);
            },
            Ok(def) => {
                push_deep(&mut patched, def);
            },
        }
        i = i + 1;
    }
    proof {
        lemma_take_all(defs.deep_view());
    }
    Ok(patched)
}

/// The pass that legalizes every body of a program or a definition. In the result no
/// move or addition has two memory operands, and no compare has an immediate as its
/// first operand. Unless a body of the input holds a compare of two memory cells, no
/// compare of the result has two memory operands either: every instruction is legal.
pub fn patch_instructions(prog: &X86) -> (result: Result<X86, CompileError>)
    ensures
        match result {
            Ok(patched) => {
                &&& patch_instructions_spec(prog@) == Ok::<_, CompileError>(patched@)
                &&& is_settled_program(patched@)
                &&& is_patchable_program(prog@) ==> is_legal_program(patched@)
                &&& is_lowered(prog@) ==> is_lowered(patched@)
                &&& no_vars(prog@) ==> no_vars(patched@)
            },
            Err(err) => patch_instructions_spec(prog@) == Err::<X86View, _>(err) && !is_lowered(
                prog@,
            ),
        },
    decreases prog, 1nat,
{
    proof {
        lemma_x86_view(prog);
    }
    match prog {
        X86::Define(name, vars, instrs) => {
            proof {
                lemma_patch_list(instrs.deep_view());
            }
            Ok(X86::define(name.clone(), vars.clone(), patch_list(instrs)))
        },
        X86::Prog(defs, instrs, vars) => {
            proof {
                lemma_patch_list(instrs.deep_view());
            }
            let new_defs = patch_defs(defs)?;
            Ok(X86::prog(new_defs, patch_list(instrs), vars.clone()))
        },
        _ => Err(CompileError::NotTopLevel),
    }
}

} // verus!

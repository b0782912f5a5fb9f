//! Lowering of structured conditionals to compares, jumps and labels.

use vstd::prelude::*;
use crate::ast::CC;
use crate::error::CompileError;
use crate::homes::{all_no_vars, no_vars};
use crate::names::{Counts, NameSupply, bump, exhausted, fresh_name};
use crate::seqs::{
    append_deep, empty_deep, lemma_deep_view_index, lemma_take_all, lemma_take_push, push_deep,
};
use crate::x86::{X86, X86View, copy_instr, lemma_x86_view};

verus! {

/// What [`lower_if`] computes: the instructions and the counts of names afterwards.
///
/// A conditional on the equality of `left` and `right` becomes the compare of `right`
/// with `left`, the jump on equality to a fresh `then` label, the lowered else-branch,
/// the jump to a fresh `endif` label, the `then` label, the lowered then-branch and the
/// `endif` label. Both labels are named before the branches are lowered, the
/// else-branch before the then-branch. Any other instruction stays as it is.
pub open spec fn lower_if_spec(x: X86View, c: Counts) -> Result<(Seq<X86View>, Counts), CompileError>
    decreases x, 1nat,
{
    match x {
        X86View::If(cnd, thn, els) => match *cnd {
            X86View::EqP(left, right) => {
                if exhausted(c, "then"@) || exhausted(bump(c, "then"@), "endif"@) {
                    Err(CompileError::NamesExhausted)
                } else {
                    let thn_label = fresh_name("then"@, c);
                    let end_label = fresh_name("endif"@, bump(c, "then"@));
                    match lower_list_spec(els, bump(bump(c, "then"@), "endif"@)) {
                        Err(err) => Err(err),
                        Ok((new_els, c1)) => match lower_list_spec(thn, c1) {
                            Err(err) => Err(err),
                            Ok((new_thn, c2)) => Ok(
                                (
                                    seq![
                                        X86View::Cmp(right, left),
                                        X86View::JmpIf(CC::E, thn_label),
                                    ] + new_els + seq![
                                        X86View::Jmp(end_label),
                                        X86View::Label(thn_label),
                                    ] + new_thn + seq![X86View::Label(end_label)],
                                    c2,
                                ),
                            ),
                        },
                    }
                }
            },
            _ => Err(CompileError::UnsupportedCondition),
        },
        _ => Ok((seq![x], c)),
    }
}

/// The instructions of a list, lowered in order.
pub open spec fn lower_list_spec(instrs: Seq<X86View>, c: Counts) -> Result<
    (Seq<X86View>, Counts),
    CompileError,
>
    decreases instrs, 0nat,
{
    if instrs.len() == 0 {
        Ok((Seq::empty(), c))
    } else {
        match lower_list_spec(instrs.drop_last(), c) {
            Err(err) => Err(err),
            Ok((init, c1)) => match lower_if_spec(instrs.last(), c1) {
                Err(err) => Err(err),
                Ok((more, c2)) => Ok((init + more, c2)),
            },
        }
    }
}

/// What [`lower_conditionals`] computes: the main body of a program is lowered before
/// its definitions.
pub open spec fn lower_conditionals_spec(x: X86View, c: Counts) -> Result<
    (X86View, Counts),
    CompileError,
>
    decreases x, 1nat,
{
    match x {
        X86View::Define(name, vars, instrs) => match lower_list_spec(instrs, c) {
            Err(err) => Err(err),
            Ok((new_instrs, c1)) => Ok((X86View::Define(name, vars, new_instrs), c1)),
        },
        X86View::Prog(defs, instrs, vars) => match lower_list_spec(instrs, c) {
            Err(err) => Err(err),
            Ok((new_instrs, c1)) => match lower_defs_spec(defs, c1) {
                Err(err) => Err(err),
                Ok((new_defs, c2)) => Ok((X86View::Prog(new_defs, new_instrs, vars), c2)),
            },
        },
        _ => Err(CompileError::NotTopLevel),
    }
}

/// Lowering of the definitions of a program, in order.
pub open spec fn lower_defs_spec(defs: Seq<X86View>, c: Counts) -> Result<
    (Seq<X86View>, Counts),
    CompileError,
>
    decreases defs, 0nat,
{
    if defs.len() == 0 {
        Ok((Seq::empty(), c))
    } else {
        match lower_defs_spec(defs.drop_last(), c) {
            Err(err) => Err(err),
            Ok((init, c1)) => match lower_conditionals_spec(defs.last(), c1) {
                Err(err) => Err(err),
                Ok((def, c2)) => Ok((init.push(def), c2)),
            },
        }
    }
}

/// Whether an instruction is a real one: not a conditional, not a test, not a
/// container.
pub open spec fn is_plain(x: X86View) -> bool {
    x is Mov || x is Add || x is Cmp || x is Call || x is JmpIf || x is Jmp || x is Label
}

/// Whether every instruction of a list is a real one.
pub open spec fn all_plain(instrs: Seq<X86View>) -> bool {
    forall|i: int| 0 <= i < instrs.len() ==> is_plain(#[trigger] instrs[i])
}

/// Whether an instruction is a real one or a conditional on an equality test whose
/// branches are structured in the same way.
pub open spec fn is_structured(x: X86View) -> bool
    decreases x,
{
    match x {
        X86View::If(cnd, thn, els) => {
            &&& *cnd is EqP
            &&& forall|i: int| 0 <= i < thn.len() ==> is_structured(#[trigger] thn[i])
            &&& forall|i: int| 0 <= i < els.len() ==> is_structured(#[trigger] els[i])
        },
        _ => is_plain(x),
    }
}

/// Whether every instruction of a list is structured.
pub open spec fn all_structured(instrs: Seq<X86View>) -> bool {
    forall|i: int| 0 <= i < instrs.len() ==> is_structured(#[trigger] instrs[i])
}

/// Whether a program or a definition holds real instructions only.
pub open spec fn is_lowered(x: X86View) -> bool
    decreases x,
{
    match x {
        X86View::Define(_, _, instrs) => all_plain(instrs),
        X86View::Prog(defs, instrs, _) => {
            &&& forall|i: int| 0 <= i < defs.len() ==> is_lowered(#[trigger] defs[i])
            &&& all_plain(instrs)
        },
        _ => false,
    }
}

/// Whether a program or a definition holds structured instructions only.
pub open spec fn is_structured_program(x: X86View) -> bool
    decreases x,
{
    match x {
        X86View::Define(_, _, instrs) => all_structured(instrs),
        X86View::Prog(defs, instrs, _) => {
            &&& forall|i: int| 0 <= i < defs.len() ==> is_structured_program(#[trigger] defs[i])
            &&& all_structured(instrs)
        },
        _ => false,
    }
}

/// An error among the first `k` instructions is the error of all of them.
proof fn lemma_lower_list_error(instrs: Seq<X86View>, c: Counts, k: int)
    requires
        0 <= k <= instrs.len(),
        lower_list_spec(instrs.take(k), c) is Err,
    ensures
        lower_list_spec(instrs, c) == lower_list_spec(instrs.take(k), c),
    decreases instrs.len(),
{
    if k == instrs.len() {
        lemma_take_all(instrs);
    } else {
        assert(instrs.drop_last().take(k) =~= instrs.take(k));
        lemma_lower_list_error(instrs.drop_last(), c, k);
    }
}

/// An error among the first `k` definitions is the error of all of them.
proof fn lemma_lower_defs_error(defs: Seq<X86View>, c: Counts, k: int)
    requires
        0 <= k <= defs.len(),
        lower_defs_spec(defs.take(k), c) is Err,
    ensures
        lower_defs_spec(defs, c) == lower_defs_spec(defs.take(k), c),
    decreases defs.len(),
{
    if k == defs.len() {
        lemma_take_all(defs);
    } else {
        assert(defs.drop_last().take(k) =~= defs.take(k));
        lemma_lower_defs_error(defs.drop_last(), c, k);
    }
}

/// The instructions of a list, lowered in order.
fn lower_list(instrs: &Vec<X86>, names: &mut NameSupply) -> (result: Result<Vec<X86>, CompileError>)
    ensures
        match result {
            Ok(lowered) => {
                &&& lower_list_spec(instrs.deep_view(), old(names)@) == Ok::<_, CompileError>(
                    (lowered.deep_view(), final(names)@),
                )
                &&& all_structured(instrs.deep_view()) ==> all_plain(lowered.deep_view())
                &&& all_no_vars(instrs.deep_view()) ==> all_no_vars(lowered.deep_view())
            },
            Err(err) => lower_list_spec(instrs.deep_view(), old(names)@) == Err::<
                (Seq<X86View>, Counts),
                _,
            >(err) && (all_structured(instrs.deep_view()) ==> err
                == CompileError::NamesExhausted),
        },
    decreases instrs, 0nat,
{
    let mut lowered: Vec<X86> = empty_deep();
    let ghost c0 = names@;
    let mut i: usize = 0;
    while i < instrs.len()
        invariant
            i <= instrs.len(),
            c0 == old(names)@,
            lower_list_spec(instrs.deep_view().take(i as int), c0) == Ok::<_, CompileError>(
                (lowered.deep_view(), names@),
            ),
            all_structured(instrs.deep_view()) ==> all_plain(lowered.deep_view()),
            all_no_vars(instrs.deep_view()) ==> all_no_vars(lowered.deep_view()),
        decreases instrs.len() - i,
    {
        proof {
            lemma_take_push(instrs.deep_view(), i as int);
            lemma_deep_view_index(instrs);
        }
        match lower_if(&instrs[i], names) {
            Err(err) => {
                proof {
                    lemma_lower_list_error(instrs.deep_view(), c0, i + 1);
                }
                return Err(err);
            },
            Ok(more) => {
                let mut more = more;
                append_deep(&mut lowered, &mut more);
            },
        }
        i = i + 1;
    }
    proof {
        lemma_take_all(instrs.deep_view());
    }
    Ok(lowered)
}

/// The instructions that one instruction lowers to. A structured conditional turns into
/// real instructions; the result of lowering structured instructions holds real
/// instructions only, and no variable where there was none.
pub fn lower_if(instr: &X86, names: &mut NameSupply) -> (result: Result<Vec<X86>, CompileError>)
    ensures
        match result {
            Ok(lowered) => {
                &&& lower_if_spec(instr@, old(names)@) == Ok::<_, CompileError>(
                    (lowered.deep_view(), final(names)@),
                )
                &&& is_structured(instr@) ==> all_plain(lowered.deep_view())
                &&& no_vars(instr@) ==> all_no_vars(lowered.deep_view())
            },
            Err(err) => lower_if_spec(instr@, old(names)@) == Err::<(Seq<X86View>, Counts), _>(err)
                && (is_structured(instr@) ==> err == CompileError::NamesExhausted),
        },
    decreases instr, 1nat,
{
    proof {
        lemma_x86_view(instr);
    }
    match instr {
        X86::If(cnd, thn, els) => {
            proof {
                lemma_x86_view(cnd);
            }
            match &**cnd {
                X86::EqP(left, right) => {
                    let thn_label = match names.fresh("then") {
                        Some(label) => label,
                        None => {
                            return Err(CompileError::NamesExhausted);
                        },
                    };
                    let end_label = match names.fresh("endif") {
                        Some(label) => label,
                        None => {
                            return Err(CompileError::NamesExhausted);
                        },
                    };
                    let mut new_els = lower_list(els, names)?;
                    let mut new_thn = lower_list(thn, names)?;
                    let ghost els_view = new_els.deep_view();
                    let ghost thn_view = new_thn.deep_view();
                    let mut lowered: Vec<X86> = empty_deep();
                    push_deep(&mut lowered, X86::Cmp(right.clone(), left.clone()));
                    push_deep(&mut lowered, X86::JmpIf(CC::E, thn_label.clone()));
                    append_deep(&mut lowered, &mut new_els);
                    push_deep(&mut lowered, X86::Jmp(end_label.clone()));
                    push_deep(&mut lowered, X86::Label(thn_label));
                    append_deep(&mut lowered, &mut new_thn);
                    push_deep(&mut lowered, X86::Label(end_label));
                    proof {
                        let head = seq![
                            X86View::Cmp(right@, left@),
                            X86View::JmpIf(CC::E, thn_label@),
                        ];
                        let middle = seq![X86View::Jmp(end_label@), X86View::Label(thn_label@)];
                        let tail = seq![X86View::Label(end_label@)];
                        let expected = head + els_view + middle + thn_view + tail;
                        assert(lowered.deep_view() =~= expected);
                        if is_structured(instr@) {
                            assert(all_structured(thn.deep_view()));
                            assert(all_structured(els.deep_view()));
                            assert(all_plain(thn_view) && all_plain(els_view));
                        }
                        if no_vars(instr@) {
                            assert(no_vars(cnd@));
                            assert(all_no_vars(thn.deep_view()));
                            assert(all_no_vars(els.deep_view()));
                            assert(all_no_vars(thn_view) && all_no_vars(els_view));
                        }
                        assert forall|i: int| 0 <= i < expected.len() implies (is_structured(instr@)
                            ==> is_plain(#[trigger] expected[i])) && (no_vars(instr@) ==> no_vars(
                            expected[i],
                        )) by {
                            let a = head.len() as int;
                            let b = a + els_view.len();
                            let d = b + middle.len();
                            let e = d + thn_view.len();
                            if i < a {
                                assert(expected[i] == head[i]);
                            } else if i < b {
                                assert(expected[i] == els_view[i - a]);
                            } else if i < d {
                                assert(expected[i] == middle[i - b]);
                            } else if i < e {
                                assert(expected[i] == thn_view[i - d]);
                            } else {
                                assert(expected[i] == tail[i - e]);
                            }
                        }
                    }
                    Ok(lowered)
                },
                _ => Err(CompileError::UnsupportedCondition),
            }
        },
        _ => {
            let mut lowered: Vec<X86> = empty_deep();
            push_deep(&mut lowered, copy_instr(instr));
            assert(lowered.deep_view() =~= seq![instr@]);
            Ok(lowered)
        },
    }
}

/// Lowering of the definitions of a program.
fn lower_defs(defs: &Vec<X86>, names: &mut NameSupply) -> (result: Result<Vec<X86>, CompileError>)
    ensures
        match result {
            Ok(lowered) => {
                &&& lower_defs_spec(defs.deep_view(), old(names)@) == Ok::<_, CompileError>(
                    (lowered.deep_view(), final(names)@),
                )
                &&& (forall|i: int|
                    0 <= i < defs.deep_view().len() ==> is_structured_program(
                        #[trigger] defs.deep_view()[i],
                    )) ==> (forall|i: int|
                    0 <= i < lowered.deep_view().len() ==> is_lowered(
                        #[trigger] lowered.deep_view()[i],
                    ))
                &&& all_no_vars(defs.deep_view()) ==> all_no_vars(lowered.deep_view())
            },
            Err(err) => lower_defs_spec(defs.deep_view(), old(names)@) == Err::<
                (Seq<X86View>, Counts),
                _,
            >(err) && ((forall|i: int|
                0 <= i < defs.deep_view().len() ==> is_structured_program(
                    #[trigger] defs.deep_view()[i],
                )) ==> err == CompileError::NamesExhausted),
        },
    decreases defs, 0nat,
{
    let mut lowered: Vec<X86> = empty_deep();
    let ghost c0 = names@;
    let mut i: usize = 0;
    while i < defs.len()
        invariant
            i <= defs.len(),
            c0 == old(names)@,
            lower_defs_spec(defs.deep_view().take(i as int), c0) == Ok::<_, CompileError>(
                (lowered.deep_view(), names@),
            ),
            (forall|i: int|
                0 <= i < defs.deep_view().len() ==> is_structured_program(
                    #[trigger] defs.deep_view()[i],
                )) ==> (forall|i: int|
                0 <= i < lowered.deep_view().len() ==> is_lowered(
                    #[trigger] lowered.deep_view()[i],
                )),
            all_no_vars(defs.deep_view()) ==> all_no_vars(lowered.deep_view()),
        decreases defs.len() - i,
    {
        proof {
            lemma_take_push(defs.deep_view(), i as int);
            lemma_deep_view_index(defs);
        }
        match lower_conditionals(&defs[i], names) {
            Err(err) => {
                proof {
                    lemma_lower_defs_error(defs.deep_view(), c0, i + 1);
                }
                return Err(err);
            },
            Ok(def) => {
                push_deep(&mut lowered, def);
            },
        }
        i = i + 1;
    }
    proof {
        lemma_take_all(defs.deep_view());
    }
    Ok(lowered)
}

/// The pass that lowers every conditional of a program or a definition. Where the
/// input holds structured instructions only, the result holds real ones only: no
/// conditional and no test remains; and the pass fails only for want of names.
pub fn lower_conditionals(prog: &X86, names: &mut NameSupply) -> (result: Result<X86, CompileError>)
    ensures
        match result {
            Ok(lowered) => {
                &&& lower_conditionals_spec(prog@, old(names)@) == Ok::<_, CompileError>(
                    (lowered@, final(names)@),
                )
                &&& is_structured_program(prog@) ==> is_lowered(lowered@)
                &&& no_vars(prog@) ==> no_vars(lowered@)
            },
            Err(err) => lower_conditionals_spec(prog@, old(names)@) == Err::<(X86View, Counts), _>(
                err,
            ) && (is_structured_program(prog@) ==> err == CompileError::NamesExhausted),
        },
    decreases prog, 1nat,
{
    proof {
        lemma_x86_view(prog);
    }
    match prog {
        X86::Define(name, vars, instrs) => {
            let new_instrs = lower_list(instrs, names)?;
            Ok(X86::define(name.clone(), vars.clone(), new_instrs))
        },
        X86::Prog(defs, instrs, vars) => {
            let new_instrs = lower_list(instrs, names)?;
            let new_defs = lower_defs(defs, names)?;
            Ok(X86::prog(new_defs, new_instrs, vars.clone()))
        },
        _ => Err(CompileError::NotTopLevel),
    }
}

} // verus!

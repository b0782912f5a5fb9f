//! Liveness analysis: every instruction is annotated with the variables that may still
//! be read after it.

use vstd::prelude::*;
use crate::error::CompileError;
use crate::names::Name;
use crate::seqs::{
    append_deep, empty_deep, lemma_deep_view_index, lemma_take_all, lemma_take_push, push_deep,
    reverse_deep,
};
use crate::varset::{
    lemma_minus_contains, lemma_minus_no_duplicates, lemma_union_contains,
    lemma_union_no_duplicates, minus_names, names_minus, names_subset, names_union, union_names,
};
use crate::x86::{ArgView, X86, X86Arg, X86View, copy_instr, lemma_x86_view};

verus! {

/// The variable that an operand names, if it names one. Registers, immediates and
/// memory cells are transparent to liveness.
pub open spec fn arg_vars(a: ArgView) -> Seq<Name> {
    match a {
        ArgView::Var(name) => seq![name],
        _ => Seq::empty(),
    }
}

/// The variables that a straight-line instruction mentions, reads and writes, in this
/// order. `mov` reads its source and writes its destination; `add` reads both and
/// writes its destination; `cmp` reads both; a call touches no variable.
pub open spec fn instruction_rw_spec(x: X86View) -> Result<
    (Seq<Name>, Seq<Name>, Seq<Name>),
    CompileError,
> {
    match x {
        X86View::Mov(dst, src) => Ok((arg_vars(dst) + arg_vars(src), arg_vars(src), arg_vars(dst))),
        X86View::Add(dst, src) => Ok(
            (arg_vars(dst) + arg_vars(src), arg_vars(dst) + arg_vars(src), arg_vars(dst)),
        ),
        X86View::Cmp(left, right) => Ok(
            (arg_vars(left) + arg_vars(right), arg_vars(left) + arg_vars(right), Seq::empty()),
        ),
        X86View::Call(_) => Ok((Seq::empty(), Seq::empty(), Seq::empty())),
        _ => Err(CompileError::UnsupportedInstruction),
    }
}

/// The variables that the condition of a structured conditional reads.
pub open spec fn cond_reads(cnd: X86View) -> Seq<Name> {
    match cnd {
        X86View::EqP(left, right) => arg_vars(left) + arg_vars(right),
        _ => Seq::empty(),
    }
}

/// The analysis of a list of instructions: the variables live before the first
/// instruction, the live-after set of each instruction, and the instructions with their
/// conditionals annotated.
pub struct Liveness {
    pub inflow: Seq<Name>,
    pub sets: Seq<Seq<Name>>,
    pub instrs: Seq<X86View>,
}

/// The analysis of one instruction: the set recorded for it, the set live before it,
/// and the instruction, annotated if it is a conditional.
pub struct LiveStep {
    pub recorded: Seq<Name>,
    pub before: Seq<Name>,
    pub instr: X86View,
}

/// The analysis of one instruction, given the variables live after it.
///
/// For a straight-line instruction the live-after set is recorded, and the variables
/// live before it are those minus the written ones, plus the read ones. For a
/// conditional both branches start from the variables live after it; the union of
/// these, of what is live before either branch and of what the condition reads is both
/// recorded for the conditional and live before it.
pub open spec fn live_step_spec(x: X86View, lives: Seq<Name>) -> Result<LiveStep, CompileError>
    decreases x, 1nat,
{
    match x {
        X86View::If(cnd, thn, els) => match live_after_spec(thn, lives) {
            Err(err) => Err(err),
            Ok(t) => match live_after_spec(els, lives) {
                Err(err) => Err(err),
                Ok(e) => match *cnd {
                    X86View::EqP(_, _) => {
                        let live = names_union(
                            names_union(names_union(lives, t.inflow), e.inflow),
                            cond_reads(*cnd),
                        );
                        Ok(
                            LiveStep {
                                recorded: live,
                                before: live,
                                instr: X86View::IfWithLives(cnd, t.instrs, t.sets, e.instrs, e.sets),
                            },
                        )
                    },
                    _ => Err(CompileError::UnsupportedCondition),
                },
            },
        },
        _ => match instruction_rw_spec(x) {
            Err(err) => Err(err),
            Ok((_, read, written)) => Ok(
                LiveStep {
                    recorded: lives,
                    before: names_union(names_minus(lives, written), read),
                    instr: x,
                },
            ),
        },
    }
}

/// What [`get_live_after_sets`] computes: the analysis runs from the last instruction
/// to the first, and the sets come out in the order of the instructions.
pub open spec fn live_after_spec(instrs: Seq<X86View>, lives: Seq<Name>) -> Result<
    Liveness,
    CompileError,
>
    decreases instrs, 0nat,
{
    if instrs.len() == 0 {
        Ok(Liveness { inflow: lives, sets: Seq::empty(), instrs: Seq::empty() })
    } else {
        match live_step_spec(instrs.last(), lives) {
            Err(err) => Err(err),
            Ok(step) => match live_after_spec(instrs.drop_last(), step.before) {
                Err(err) => Err(err),
                Ok(rest) => Ok(
                    Liveness {
                        inflow: rest.inflow,
                        sets: rest.sets.push(step.recorded),
                        instrs: rest.instrs.push(step.instr),
                    },
                ),
            },
        }
    }
}

/// What [`uncover_live`] computes: nothing is live at the end of a body.
pub open spec fn uncover_live_spec(x: X86View) -> Result<X86View, CompileError>
    decreases x, 1nat,
{
    match x {
        X86View::Define(name, vars, instrs) => match live_after_spec(instrs, Seq::empty()) {
            Err(err) => Err(err),
            Ok(r) => Ok(X86View::DefineWithLives(name, vars, r.sets, r.instrs)),
        },
        X86View::Prog(defs, instrs, vars) => match live_after_spec(instrs, Seq::empty()) {
            Err(err) => Err(err),
            Ok(r) => match uncover_defs_spec(defs) {
                Err(err) => Err(err),
                Ok(new_defs) => Ok(X86View::ProgWithLives(new_defs, r.instrs, vars, r.sets)),
            },
        },
        _ => Err(CompileError::NotTopLevel),
    }
}

/// The analysis of the definitions of a program, in order.
pub open spec fn uncover_defs_spec(defs: Seq<X86View>) -> Result<Seq<X86View>, CompileError>
    decreases defs, 0nat,
{
    if defs.len() == 0 {
        Ok(Seq::empty())
    } else {
        match uncover_defs_spec(defs.drop_last()) {
            Err(err) => Err(err),
            Ok(init) => match uncover_live_spec(defs.last()) {
                Err(err) => Err(err),
                Ok(def) => Ok(init.push(def)),
            },
        }
    }
}

/// An error among the first `k` definitions is the error of all of them.
proof fn lemma_uncover_defs_error(defs: Seq<X86View>, k: int)
    requires
        0 <= k <= defs.len(),
        uncover_defs_spec(defs.take(k)) is Err,
    ensures
        uncover_defs_spec(defs) == uncover_defs_spec(defs.take(k)),
    decreases defs.len(),
{
    if k == defs.len() {
        lemma_take_all(defs);
    } else {
        assert(defs.drop_last().take(k) =~= defs.take(k));
        lemma_uncover_defs_error(defs.drop_last(), k);
    }
}

/// The variable that an operand names, if it names one.
pub fn arg_var_names(arg: &X86Arg) -> (names: Vec<String>)
    ensures
        names.deep_view() == arg_vars(arg@),
{
    let mut names: Vec<String> = empty_deep();
    match arg {
        X86Arg::Var(name) => {
            push_deep(&mut names, name.clone());
            assert(names.deep_view() =~= seq![name@]);
        },
        _ => {},
    }
    names
}

/// The variables of two operands, those of the first before those of the second.
fn pair_var_names(first: &X86Arg, second: &X86Arg) -> (names: Vec<String>)
    ensures
        names.deep_view() == arg_vars(first@) + arg_vars(second@),
{
    let mut names = arg_var_names(first);
    let mut more = arg_var_names(second);
    append_deep(&mut names, &mut more);
    names
}

/// For a straight-line instruction: the variables it mentions, those it reads and those
/// it writes.
pub fn instruction_rw(instr: &X86) -> (result: Result<
    (Vec<String>, Vec<String>, Vec<String>),
    CompileError,
>)
    ensures
        match result {
            Ok((all, read, written)) => instruction_rw_spec(instr@) == Ok::<_, CompileError>(
                (all.deep_view(), read.deep_view(), written.deep_view()),
            ),
            Err(err) => instruction_rw_spec(instr@) == Err::<
                (Seq<Name>, Seq<Name>, Seq<Name>),
                _,
            >(err),
        },
{
    proof {
        lemma_x86_view(instr);
    }
    match instr {
        X86::Mov(dst, src) => Ok((pair_var_names(dst, src), arg_var_names(src), arg_var_names(dst))),
        X86::Add(dst, src) => Ok(
            (pair_var_names(dst, src), pair_var_names(dst, src), arg_var_names(dst)),
        ),
        X86::Cmp(left, right) => Ok(
            (pair_var_names(left, right), pair_var_names(left, right), empty_deep()),
        ),
        X86::Call(_) => Ok((empty_deep(), empty_deep(), empty_deep())),
        _ => Err(CompileError::UnsupportedInstruction),
    }
}

/// The analysis of one instruction, given the variables live after it: the set
/// recorded for it, the set live before it, and the instruction with its annotation.
fn live_step(instr: &X86, lives: &Vec<String>) -> (result: Result<
    (Vec<String>, Vec<String>, X86),
    CompileError,
>)
    ensures
        match result {
            Ok((recorded, before, annotated)) => live_step_spec(instr@, lives.deep_view()) == Ok::<
                _,
                CompileError,
            >(
                LiveStep {
                    recorded: recorded.deep_view(),
                    before: before.deep_view(),
                    instr: annotated@,
                },
            ),
            Err(err) => live_step_spec(instr@, lives.deep_view()) == Err::<LiveStep, _>(err),
        },
    decreases instr, 1nat,
{
    proof {
        lemma_x86_view(instr);
    }
    match instr {
        X86::If(cnd, thn, els) => {
            proof {
                lemma_x86_view(cnd);
            }
            let (thn_inflow, thn_sets, new_thn) = get_live_after_sets(thn, lives)?;
            let (els_inflow, els_sets, new_els) = get_live_after_sets(els, lives)?;
            match &**cnd {
                X86::EqP(left, right) => {
                    let cond_vars = pair_var_names(left, right);
                    let with_thn = union_names(lives, &thn_inflow);
                    let with_els = union_names(&with_thn, &els_inflow);
                    let live = union_names(&with_els, &cond_vars);
                    let annotated = X86::branch_with_lives(
                        copy_instr(cnd),
                        new_thn,
                        thn_sets,
                        new_els,
                        els_sets,
                    );
                    Ok((live.clone(), live, annotated))
                },
                _ => Err(CompileError::UnsupportedCondition),
            }
        },
        _ => {
            let (_, read, written) = instruction_rw(instr)?;
            let kept = minus_names(lives, &written);
            let before = union_names(&kept, &read);
            Ok((lives.clone(), before, copy_instr(instr)))
        },
    }
}

/// The live-after sets of a list of instructions, given the variables live after the
/// last one: the variables live before the first instruction, the sets in the order of
/// the instructions, and the instructions with their conditionals annotated. There is
/// one set for each instruction, the sets are sound, and no set holds a variable twice
/// where `lives` holds none twice.
pub fn get_live_after_sets(instrs: &Vec<X86>, lives: &Vec<String>) -> (result: Result<
    (Vec<String>, Vec<Vec<String>>, Vec<X86>),
    CompileError,
>)
    ensures
        match result {
            Ok((inflow, sets, annotated)) => {
                &&& live_after_spec(instrs.deep_view(), lives.deep_view()) == Ok::<_, CompileError>(
                    Liveness {
                        inflow: inflow.deep_view(),
                        sets: sets.deep_view(),
                        instrs: annotated.deep_view(),
                    },
                )
                &&& sets.deep_view().len() == instrs.deep_view().len()
                &&& live_sound(annotated.deep_view(), sets.deep_view(), inflow.deep_view())
                &&& lives.deep_view().no_duplicates() ==> inflow.deep_view().no_duplicates()
                    && sets_proper(annotated.deep_view(), sets.deep_view())
            },
            Err(err) => live_after_spec(instrs.deep_view(), lives.deep_view()) == Err::<
                Liveness,
                _,
            >(err),
        },
    decreases instrs, 0nat,
{
    proof {
        if live_after_spec(instrs.deep_view(), lives.deep_view()) is Ok {
            lemma_liveness_sound(instrs.deep_view(), lives.deep_view());
            if lives.deep_view().no_duplicates() {
                lemma_live_sets_proper(instrs.deep_view(), lives.deep_view());
            }
        }
    }
    let mut live: Vec<String> = lives.clone();
    let mut rev_sets: Vec<Vec<String>> = empty_deep();
    let mut rev_instrs: Vec<X86> = empty_deep();
    let ghost all = instrs.deep_view();
    let ghost goal = live_after_spec(all, lives.deep_view());
    let mut i: usize = instrs.len();
    proof {
        lemma_take_all(all);
        assert(rev_sets.deep_view().reverse() =~= Seq::<Seq<Name>>::empty());
        assert(rev_instrs.deep_view().reverse() =~= Seq::<X86View>::empty());
        match goal {
            Ok(r) => {
                assert(r.sets + rev_sets.deep_view().reverse() =~= r.sets);
                assert(r.instrs + rev_instrs.deep_view().reverse() =~= r.instrs);
            },
            Err(_) => {},
        }
    }
    while i > 0
        invariant
            i <= instrs.len(),
            all == instrs.deep_view(),
            goal == live_after_spec(all, lives.deep_view()),
            match live_after_spec(all.take(i as int), live.deep_view()) {
                Ok(r) => goal == Ok::<_, CompileError>(
                    Liveness {
                        inflow: r.inflow,
                        sets: r.sets + rev_sets.deep_view().reverse(),
                        instrs: r.instrs + rev_instrs.deep_view().reverse(),
                    },
                ),
                Err(err) => goal == Err::<Liveness, _>(err),
            },
        decreases i,
    {
        let ghost prefix = all.take(i as int);
        let ghost old_sets = rev_sets.deep_view();
        let ghost old_instrs = rev_instrs.deep_view();
        proof {
            lemma_take_push(all, i - 1);
            lemma_deep_view_index(instrs);
        }
        i = i - 1;
        match live_step(&instrs[i], &live) {
            Err(err) => {
                return Err(err);
            },
            Ok((recorded, before, annotated)) => {
                push_deep(&mut rev_sets, recorded);
                push_deep(&mut rev_instrs, annotated);
                live = before;
                proof {
                    match live_after_spec(all.take(i as int), live.deep_view()) {
                        Ok(rest) => {
                            assert(rest.sets.push(recorded.deep_view()) + old_sets.reverse()
                                =~= rest.sets + old_sets.push(recorded.deep_view()).reverse());
                            assert(rest.instrs.push(annotated@) + old_instrs.reverse()
                                =~= rest.instrs + old_instrs.push(annotated@).reverse());
                        },
                        Err(_) => {},
                    }
                }
            },
        }
    }
    proof {
        lemma_take_all(all);
        assert(Seq::<Seq<Name>>::empty() + rev_sets.deep_view().reverse()
            =~= rev_sets.deep_view().reverse());
        assert(Seq::<X86View>::empty() + rev_instrs.deep_view().reverse()
            =~= rev_instrs.deep_view().reverse());
    }
    Ok((live, reverse_deep(rev_sets), reverse_deep(rev_instrs)))
}

/// The analysis of the definitions of a program.
fn uncover_defs(defs: &Vec<X86>) -> (result: Result<Vec<X86>, CompileError>)
    ensures
        match result {
            Ok(new_defs) => uncover_defs_spec(defs.deep_view()) == Ok::<_, CompileError>(
                new_defs.deep_view(),
            ),
            Err(err) => uncover_defs_spec(defs.deep_view()) == Err::<Seq<X86View>, _>(err),
        },
    decreases defs, 0nat,
{
    let mut new_defs: Vec<X86> = empty_deep();
    let mut i: usize = 0;
    while i < defs.len()
        invariant
            i <= defs.len(),
            uncover_defs_spec(defs.deep_view().take(i as int)) == Ok::<_, CompileError>(
                new_defs.deep_view(),
            ),
        decreases defs.len() - i,
    {
        proof {
            lemma_take_push(defs.deep_view(), i as int);
            lemma_deep_view_index(defs);
        }
        match uncover_live(&defs[i]) {
            Err(err) => {
                proof {
                    lemma_uncover_defs_error(defs.deep_view(), i + 1);
                }
                return Err(err);
            },
            Ok(def) => {
                push_deep(&mut new_defs, def);
            },
        }
        i = i + 1;
    }
    proof {
        lemma_take_all(defs.deep_view());
    }
    Ok(new_defs)
}

/// The pass that annotates a program or a definition with its live-after sets.
pub fn uncover_live(prog: &X86) -> (result: Result<X86, CompileError>)
    ensures
        match result {
            Ok(annotated) => uncover_live_spec(prog@) == Ok::<_, CompileError>(annotated@),
            Err(err) => uncover_live_spec(prog@) == Err::<X86View, _>(err),
        },
    decreases prog, 1nat,
{
    proof {
        lemma_x86_view(prog);
    }
    let nothing: Vec<String> = empty_deep();
    match prog {
        X86::Define(name, vars, instrs) => {
            let (_, sets, annotated) = get_live_after_sets(instrs, &nothing)?;
            Ok(X86::define_with_lives(name.clone(), vars.clone(), sets, annotated))
        },
        X86::Prog(defs, instrs, vars) => {
            let (_, sets, annotated) = get_live_after_sets(instrs, &nothing)?;
            let new_defs = uncover_defs(defs)?;
            Ok(X86::prog_with_lives(new_defs, annotated, vars.clone(), sets))
        },
        _ => Err(CompileError::NotTopLevel),
    }
}

/// The variables that an instruction of an analysed list reads: for a conditional those
/// of its condition, for a straight-line instruction those that the analysis counts as
/// read.
pub open spec fn reads_of(x: X86View) -> Seq<Name> {
    match x {
        X86View::If(cnd, _, _) => cond_reads(*cnd),
        X86View::IfWithLives(cnd, _, _, _, _) => cond_reads(*cnd),
        _ => match instruction_rw_spec(x) {
            Ok((_, read, _)) => read,
            Err(_) => Seq::empty(),
        },
    }
}

/// Whether the live-after sets of an analysed list are sound: there is one set for each
/// instruction; every variable that an instruction reads is in the set recorded for the
/// instruction before it, or in `before` for the first instruction; and the same holds
/// within the branches of each conditional, whose first instructions come after the
/// conditional itself.
pub open spec fn live_sound(instrs: Seq<X86View>, sets: Seq<Seq<Name>>, before: Seq<Name>) -> bool
    decreases instrs,
{
    &&& sets.len() == instrs.len()
    &&& forall|i: int|
        0 <= i < instrs.len() ==> {
            &&& names_subset(
                reads_of(#[trigger] instrs[i]),
                if i == 0 {
                    before
                } else {
                    sets[i - 1]
                },
            )
            &&& instrs[i] matches X86View::IfWithLives(_, thn, thn_sets, els, els_sets)
                ==> live_sound(thn, thn_sets, sets[i]) && live_sound(els, els_sets, sets[i])
        }
}

/// Soundness does not depend on more being live before the first instruction.
proof fn lemma_sound_weaken(
    instrs: Seq<X86View>,
    sets: Seq<Seq<Name>>,
    before: Seq<Name>,
    more: Seq<Name>,
)
    requires
        live_sound(instrs, sets, before),
        names_subset(before, more),
    ensures
        live_sound(instrs, sets, more),
{
    assert forall|i: int| 0 <= i < instrs.len() implies {
        &&& names_subset(
            reads_of(#[trigger] instrs[i]),
            if i == 0 {
                more
            } else {
                sets[i - 1]
            },
        )
        &&& instrs[i] matches X86View::IfWithLives(_, thn, thn_sets, els, els_sets) ==> live_sound(
            thn,
            thn_sets,
            sets[i],
        ) && live_sound(els, els_sets, sets[i])
    } by {
        assert(names_subset(
            reads_of(instrs[i]),
            if i == 0 {
                before
            } else {
                sets[i - 1]
            },
        ));
    }
}

/// What the analysis of one instruction guarantees: the instruction keeps its reads,
/// which are live before it; what is live after it is recorded for it; and the branches
/// of a conditional are sound after the conditional.
proof fn lemma_step_sound(x: X86View, lives: Seq<Name>)
    requires
        live_step_spec(x, lives) is Ok,
    ensures
        ({
            let step = live_step_spec(x, lives)->Ok_0;
            &&& reads_of(step.instr) == reads_of(x)
            &&& names_subset(reads_of(x), step.before)
            &&& names_subset(lives, step.recorded)
            &&& step.instr matches X86View::IfWithLives(_, thn, thn_sets, els, els_sets)
                ==> live_sound(thn, thn_sets, step.recorded) && live_sound(
                els,
                els_sets,
                step.recorded,
            )
        }),
    decreases x, 1nat,
{
    let step = live_step_spec(x, lives)->Ok_0;
    match x {
        X86View::If(cnd, thn, els) => {
            let t = live_after_spec(thn, lives)->Ok_0;
            let e = live_after_spec(els, lives)->Ok_0;
            lemma_liveness_sound(thn, lives);
            lemma_liveness_sound(els, lives);
            let with_thn = names_union(lives, t.inflow);
            let with_els = names_union(with_thn, e.inflow);
            assert(step.recorded == names_union(with_els, cond_reads(*cnd)));
            assert forall|v: Name| cond_reads(*cnd).contains(v) implies step.recorded.contains(
                v,
            ) by {
                lemma_union_contains(with_els, cond_reads(*cnd), v);
            }
            assert forall|v: Name| lives.contains(v) implies step.recorded.contains(v) by {
                lemma_union_contains(lives, t.inflow, v);
                lemma_union_contains(with_thn, e.inflow, v);
                lemma_union_contains(with_els, cond_reads(*cnd), v);
            }
            assert forall|v: Name| t.inflow.contains(v) implies step.recorded.contains(v) by {
                lemma_union_contains(lives, t.inflow, v);
                lemma_union_contains(with_thn, e.inflow, v);
                lemma_union_contains(with_els, cond_reads(*cnd), v);
            }
            assert forall|v: Name| e.inflow.contains(v) implies step.recorded.contains(v) by {
                lemma_union_contains(with_thn, e.inflow, v);
                lemma_union_contains(with_els, cond_reads(*cnd), v);
            }
            lemma_sound_weaken(t.instrs, t.sets, t.inflow, step.recorded);
            lemma_sound_weaken(e.instrs, e.sets, e.inflow, step.recorded);
        },
        _ => {
            let (_, read, written) = instruction_rw_spec(x)->Ok_0;
            assert forall|v: Name| read.contains(v) implies step.before.contains(v) by {
                lemma_union_contains(names_minus(lives, written), read, v);
            }
        },
    }
}

/// Liveness is sound: in the result of the analysis every variable that an instruction
/// reads is in the live-after set of the instruction before it, in the whole list and
/// within every branch. The sets line up one to one with the instructions, and what is
/// live after the last instruction is recorded for it.
pub proof fn lemma_liveness_sound(instrs: Seq<X86View>, lives: Seq<Name>)
    requires
        live_after_spec(instrs, lives) is Ok,
    ensures
        ({
            let r = live_after_spec(instrs, lives)->Ok_0;
            &&& r.instrs.len() == instrs.len()
            &&& r.sets.len() == instrs.len()
            &&& live_sound(r.instrs, r.sets, r.inflow)
            &&& instrs.len() == 0 ==> r.inflow == lives
            &&& instrs.len() > 0 ==> names_subset(lives, r.sets.last())
            &&& forall|i: int|
                0 <= i < instrs.len() ==> reads_of(#[trigger] r.instrs[i]) == reads_of(instrs[i])
        }),
    decreases instrs, 0nat,
{
    let r = live_after_spec(instrs, lives)->Ok_0;
    if instrs.len() > 0 {
        let step = live_step_spec(instrs.last(), lives)->Ok_0;
        let rest = live_after_spec(instrs.drop_last(), step.before)->Ok_0;
        lemma_step_sound(instrs.last(), lives);
        lemma_liveness_sound(instrs.drop_last(), step.before);
        let n = instrs.len() - 1;
        assert(r.instrs == rest.instrs.push(step.instr));
        assert(r.sets == rest.sets.push(step.recorded));
        assert forall|i: int| 0 <= i < instrs.len() implies reads_of(#[trigger] r.instrs[i])
            == reads_of(instrs[i]) by {
            if i < n {
                assert(r.instrs[i] == rest.instrs[i]);
                assert(instrs[i] == instrs.drop_last()[i]);
            }
        }
        assert forall|i: int| 0 <= i < r.instrs.len() implies {
            &&& names_subset(
                reads_of(#[trigger] r.instrs[i]),
                if i == 0 {
                    r.inflow
                } else {
                    r.sets[i - 1]
                },
            )
            &&& r.instrs[i] matches X86View::IfWithLives(_, thn, thn_sets, els, els_sets)
                ==> live_sound(thn, thn_sets, r.sets[i]) && live_sound(els, els_sets, r.sets[i])
        } by {
            if i < n {
                assert(r.instrs[i] == rest.instrs[i]);
                assert(r.sets[i] == rest.sets[i]);
                assert(names_subset(
                    reads_of(rest.instrs[i]),
                    if i == 0 {
                        rest.inflow
                    } else {
                        rest.sets[i - 1]
                    },
                ));
                if i > 0 {
                    assert(r.sets[i - 1] == rest.sets[i - 1]);
                }
            } else {
                assert(r.instrs[i] == step.instr);
                assert(r.sets[i] == step.recorded);
                if n > 0 {
                    assert(r.sets[i - 1] == rest.sets.last());
                }
            }
        }
    }
}

/// Whether the sets of an analysed list are sets indeed: no set holds a variable twice,
/// in the list and within the branches of its conditionals.
pub open spec fn sets_proper(instrs: Seq<X86View>, sets: Seq<Seq<Name>>) -> bool
    decreases instrs,
{
    &&& sets.len() == instrs.len()
    &&& forall|i: int|
        0 <= i < instrs.len() ==> {
            &&& (#[trigger] sets[i]).no_duplicates()
            &&& instrs[i] matches X86View::IfWithLives(_, thn, thn_sets, els, els_sets)
                ==> sets_proper(thn, thn_sets) && sets_proper(els, els_sets)
        }
}

/// The analysis of one instruction keeps sets proper.
proof fn lemma_step_proper(x: X86View, lives: Seq<Name>)
    requires
        lives.no_duplicates(),
        live_step_spec(x, lives) is Ok,
    ensures
        ({
            let step = live_step_spec(x, lives)->Ok_0;
            &&& step.recorded.no_duplicates()
            &&& step.before.no_duplicates()
            &&& step.instr matches X86View::IfWithLives(_, thn, thn_sets, els, els_sets)
                ==> sets_proper(thn, thn_sets) && sets_proper(els, els_sets)
        }),
    decreases x, 1nat,
{
    match x {
        X86View::If(cnd, thn, els) => {
            let t = live_after_spec(thn, lives)->Ok_0;
            let e = live_after_spec(els, lives)->Ok_0;
            lemma_live_sets_proper(thn, lives);
            lemma_live_sets_proper(els, lives);
            let with_thn = names_union(lives, t.inflow);
            let with_els = names_union(with_thn, e.inflow);
            lemma_union_no_duplicates(lives, t.inflow);
            lemma_union_no_duplicates(with_thn, e.inflow);
            lemma_union_no_duplicates(with_els, cond_reads(*cnd));
        },
        _ => {
            let (_, read, written) = instruction_rw_spec(x)->Ok_0;
            lemma_minus_no_duplicates(lives, written);
            lemma_union_no_duplicates(names_minus(lives, written), read);
        },
    }
}

/// Live-after sets are sets: where no variable occurs twice among those live at the
/// end, none occurs twice in any set of the analysis, nor among the variables live at
/// the start.
pub proof fn lemma_live_sets_proper(instrs: Seq<X86View>, lives: Seq<Name>)
    requires
        lives.no_duplicates(),
        live_after_spec(instrs, lives) is Ok,
    ensures
        ({
            let r = live_after_spec(instrs, lives)->Ok_0;
            r.inflow.no_duplicates() && sets_proper(r.instrs, r.sets)
        }),
    decreases instrs, 0nat,
{
    let r = live_after_spec(instrs, lives)->Ok_0;
    if instrs.len() > 0 {
        let step = live_step_spec(instrs.last(), lives)->Ok_0;
        let rest = live_after_spec(instrs.drop_last(), step.before)->Ok_0;
        lemma_step_proper(instrs.last(), lives);
        lemma_live_sets_proper(instrs.drop_last(), step.before);
        lemma_liveness_sound(instrs.drop_last(), step.before);
        assert(r.instrs == rest.instrs.push(step.instr));
        assert(r.sets == rest.sets.push(step.recorded));
        assert forall|i: int| 0 <= i < r.instrs.len() implies {
            &&& (#[trigger] r.sets[i]).no_duplicates()
            &&& r.instrs[i] matches X86View::IfWithLives(_, thn, thn_sets, els, els_sets)
                ==> sets_proper(thn, thn_sets) && sets_proper(els, els_sets)
        } by {
            if i < rest.instrs.len() {
                assert(r.instrs[i] == rest.instrs[i]);
                assert(r.sets[i] == rest.sets[i]);
            } else {
                assert(r.instrs[i] == step.instr);
                assert(r.sets[i] == step.recorded);
            }
        }
    }
}

} // verus!

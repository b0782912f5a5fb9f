//! Live intervals: for each variable the span of line numbers over which it occurs in
//! a live-after set.

use vstd::prelude::*;
use crate::assoc::{
    assoc_get, assoc_has, assoc_put, get, keys_unique, lemma_get_put, lemma_put_unique, put,
};
use crate::error::CompileError;
use crate::names::Name;
use crate::seqs::{lemma_deep_view_index, lemma_take_all, lemma_take_push};
use crate::x86::{X86, X86View, lemma_x86_view};

verus! {

/// Variables with their intervals `(start, end)`, in the order in which the variables
/// were first seen.
pub type Intervals = Seq<(Name, (i32, i32))>;

/// The intervals after `v` was seen live at `line`: a known variable keeps its start
/// and ends at `line`; a new one starts on the line before.
pub open spec fn touch_spec(m: Intervals, v: Name, line: i32) -> Intervals {
    match assoc_get(m, v) {
        Some((start, _)) => assoc_put(m, v, (start, line)),
        None => assoc_put(m, v, ((line - 1) as i32, line)),
    }
}

/// The intervals after all of `vars` were seen live at `line`, in their order.
pub open spec fn touch_all_spec(m: Intervals, vars: Seq<Name>, line: i32) -> Intervals
    decreases vars.len(),
{
    if vars.len() == 0 {
        m
    } else {
        touch_spec(touch_all_spec(m, vars.drop_last(), line), vars.last(), line)
    }
}

/// One instruction with its live-after set, at `line`: the intervals and the line of
/// the next instruction.
///
/// A straight-line instruction takes one line. Both branches of a conditional are
/// numbered from the line of the conditional, which then takes as many lines as the
/// two branches have instructions; its own set is not looked at.
pub open spec fn intervals_step_spec(x: X86View, live: Seq<Name>, m: Intervals, line: i32)
    -> Result<(Intervals, i32), CompileError>
    decreases x, 0nat,
{
    match x {
        X86View::IfWithLives(_, thn, thn_lives, els, els_lives) => match intervals_spec(
            thn,
            thn_lives,
            m,
            line,
        ) {
            Err(err) => Err(err),
            Ok(m1) => match intervals_spec(els, els_lives, m1, line) {
                Err(err) => Err(err),
                Ok(m2) => {
                    if line + thn.len() + els.len() > i32::MAX {
                        Err(CompileError::FrameTooLarge)
                    } else {
                        Ok((m2, (line + thn.len() + els.len()) as i32))
                    }
                },
            },
        },
        _ => {
            if line <= i32::MIN || line >= i32::MAX {
                Err(CompileError::FrameTooLarge)
            } else {
                Ok((touch_all_spec(m, live, line), (line + 1) as i32))
            }
        },
    }
}

/// The first `k` instructions with their sets, from `line` on.
pub open spec fn intervals_upto_spec(
    instrs: Seq<X86View>,
    sets: Seq<Seq<Name>>,
    m: Intervals,
    line: i32,
    k: nat,
) -> Result<(Intervals, i32), CompileError>
    decreases instrs, k,
{
    if k == 0 || k > instrs.len() || k > sets.len() {
        Ok((m, line))
    } else {
        match intervals_upto_spec(instrs, sets, m, line, (k - 1) as nat) {
            Err(err) => Err(err),
            Ok((m1, l1)) => intervals_step_spec(instrs[k - 1], sets[k - 1], m1, l1),
        }
    }
}

/// How many instructions have a live-after set.
pub open spec fn paired(instrs: Seq<X86View>, sets: Seq<Seq<Name>>) -> nat {
    if instrs.len() <= sets.len() {
        instrs.len()
    } else {
        sets.len()
    }
}

/// What [`compute_live_intervals`] computes: the intervals `m` extended by those of the
/// instructions that have a live-after set, numbered from `line`.
pub open spec fn intervals_spec(instrs: Seq<X86View>, sets: Seq<Seq<Name>>, m: Intervals, line: i32)
    -> Result<Intervals, CompileError>
    decreases instrs, instrs.len() + 1,
{
    match intervals_upto_spec(instrs, sets, m, line, paired(instrs, sets)) {
        Err(err) => Err(err),
        Ok((m1, _)) => Ok(m1),
    }
}

/// An error among the first `k` instructions is the error of the whole list.
proof fn lemma_intervals_error(
    instrs: Seq<X86View>,
    sets: Seq<Seq<Name>>,
    m: Intervals,
    line: i32,
    k: nat,
    n: nat,
)
    requires
        k <= n <= paired(instrs, sets),
        intervals_upto_spec(instrs, sets, m, line, k) is Err,
    ensures
        intervals_upto_spec(instrs, sets, m, line, n) == intervals_upto_spec(
            instrs,
            sets,
            m,
            line,
            k,
        ),
    decreases n,
{
    if k < n {
        lemma_intervals_error(instrs, sets, m, line, k, (n - 1) as nat);
    }
}

/// Seeing variables live binds no variable twice.
proof fn lemma_touch_all_unique(m: Intervals, vars: Seq<Name>, line: i32)
    requires
        keys_unique(m),
    ensures
        keys_unique(touch_all_spec(m, vars, line)),
    decreases vars.len(),
{
    if vars.len() > 0 {
        lemma_touch_all_unique(m, vars.drop_last(), line);
        let init = touch_all_spec(m, vars.drop_last(), line);
        match assoc_get(init, vars.last()) {
            Some((start, _)) => {
                lemma_put_unique(init, vars.last(), (start, line));
            },
            None => {
                lemma_put_unique(init, vars.last(), ((line - 1) as i32, line));
            },
        }
    }
}

/// One instruction binds no variable twice.
proof fn lemma_step_unique(x: X86View, live: Seq<Name>, m: Intervals, line: i32)
    requires
        keys_unique(m),
    ensures
        intervals_step_spec(x, live, m, line) matches Ok((m1, _)) ==> keys_unique(m1),
    decreases x, 0nat,
{
    match x {
        X86View::IfWithLives(_, thn, thn_lives, els, els_lives) => {
            lemma_intervals_unique(thn, thn_lives, m, line);
            match intervals_spec(thn, thn_lives, m, line) {
                Ok(m1) => {
                    lemma_intervals_unique(els, els_lives, m1, line);
                },
                Err(_) => {},
            }
        },
        _ => {
            lemma_touch_all_unique(m, live, line);
        },
    }
}

/// The first instructions bind no variable twice.
proof fn lemma_upto_unique(
    instrs: Seq<X86View>,
    sets: Seq<Seq<Name>>,
    m: Intervals,
    line: i32,
    k: nat,
)
    requires
        keys_unique(m),
    ensures
        intervals_upto_spec(instrs, sets, m, line, k) matches Ok((m1, _)) ==> keys_unique(m1),
    decreases instrs, k,
{
    if !(k == 0 || k > instrs.len() || k > sets.len()) {
        lemma_upto_unique(instrs, sets, m, line, (k - 1) as nat);
        match intervals_upto_spec(instrs, sets, m, line, (k - 1) as nat) {
            Ok((m1, l1)) => {
                lemma_step_unique(instrs[k - 1], sets[k - 1], m1, l1);
            },
            Err(_) => {},
        }
    }
}

/// Live intervals bind every variable once: where no variable is bound twice before,
/// none is afterwards.
pub proof fn lemma_intervals_unique(
    instrs: Seq<X86View>,
    sets: Seq<Seq<Name>>,
    m: Intervals,
    line: i32,
)
    requires
        keys_unique(m),
    ensures
        intervals_spec(instrs, sets, m, line) matches Ok(m1) ==> keys_unique(m1),
    decreases instrs, instrs.len() + 1,
{
    lemma_upto_unique(instrs, sets, m, line, paired(instrs, sets));
}

/// Whether `v` occurs in a live-after set that the intervals are computed from: the
/// set of a straight-line instruction, in the list or within a branch.
pub open spec fn in_live_sets(instrs: Seq<X86View>, sets: Seq<Seq<Name>>, v: Name) -> bool
    decreases instrs,
{
    exists|i: int|
        0 <= i < paired(instrs, sets) && match #[trigger] instrs[i] {
            X86View::IfWithLives(_, thn, thn_lives, els, els_lives) => in_live_sets(
                thn,
                thn_lives,
                v,
            ) || in_live_sets(els, els_lives, v),
            _ => sets[i].contains(v),
        }
}

/// Seeing variables live binds only them.
proof fn lemma_touch_all_binds(m: Intervals, vars: Seq<Name>, line: i32, v: Name)
    requires
        !assoc_has(m, v),
        !vars.contains(v),
    ensures
        !assoc_has(touch_all_spec(m, vars, line), v),
    decreases vars.len(),
{
    if vars.len() > 0 {
        assert forall|i: int| 0 <= i < vars.drop_last().len() implies vars.drop_last()[i] != v by {
            assert(vars[i] == vars.drop_last()[i]);
        }
        lemma_touch_all_binds(m, vars.drop_last(), line, v);
        let init = touch_all_spec(m, vars.drop_last(), line);
        assert(vars[vars.len() - 1] == vars.last());
        match assoc_get(init, vars.last()) {
            Some((start, _)) => {
                lemma_get_put(init, vars.last(), (start, line), v);
            },
            None => {
                lemma_get_put(init, vars.last(), ((line - 1) as i32, line), v);
            },
        }
    }
}

/// One instruction binds only variables of its live-after sets.
proof fn lemma_step_binds(x: X86View, live: Seq<Name>, m: Intervals, line: i32, v: Name)
    requires
        !assoc_has(m, v),
        match x {
            X86View::IfWithLives(_, thn, thn_lives, els, els_lives) => !in_live_sets(
                thn,
                thn_lives,
                v,
            ) && !in_live_sets(els, els_lives, v),
            _ => !live.contains(v),
        },
    ensures
        intervals_step_spec(x, live, m, line) matches Ok((m1, _)) ==> !assoc_has(m1, v),
    decreases x, 0nat,
{
    match x {
        X86View::IfWithLives(_, thn, thn_lives, els, els_lives) => {
            lemma_intervals_bind(thn, thn_lives, m, line, v);
            match intervals_spec(thn, thn_lives, m, line) {
                Ok(m1) => {
                    lemma_intervals_bind(els, els_lives, m1, line, v);
                },
                Err(_) => {},
            }
        },
        _ => {
            lemma_touch_all_binds(m, live, line, v);
        },
    }
}

/// The first instructions bind only variables of their live-after sets.
proof fn lemma_upto_binds(
    instrs: Seq<X86View>,
    sets: Seq<Seq<Name>>,
    m: Intervals,
    line: i32,
    k: nat,
    v: Name,
)
    requires
        !assoc_has(m, v),
        !in_live_sets(instrs, sets, v),
        k <= paired(instrs, sets),
    ensures
        intervals_upto_spec(instrs, sets, m, line, k) matches Ok((m1, _)) ==> !assoc_has(m1, v),
    decreases instrs, k,
{
    if k > 0 {
        lemma_upto_binds(instrs, sets, m, line, (k - 1) as nat, v);
        match intervals_upto_spec(instrs, sets, m, line, (k - 1) as nat) {
            Ok((m1, l1)) => {
                let i = k - 1;
                assert(!(0 <= i < paired(instrs, sets) && match #[trigger] instrs[i] {
                    X86View::IfWithLives(_, thn, thn_lives, els, els_lives) => in_live_sets(
                        thn,
                        thn_lives,
                        v,
                    ) || in_live_sets(els, els_lives, v),
                    _ => sets[i].contains(v),
                }));
                lemma_step_binds(instrs[i], sets[i], m1, l1, v);
            },
            Err(_) => {},
        }
    }
}

/// Live intervals bind only variables that are live somewhere: a variable that occurs
/// in no live-after set, and was not bound before, has no interval.
pub proof fn lemma_intervals_bind(
    instrs: Seq<X86View>,
    sets: Seq<Seq<Name>>,
    m: Intervals,
    line: i32,
    v: Name,
)
    requires
        !assoc_has(m, v),
        !in_live_sets(instrs, sets, v),
    ensures
        intervals_spec(instrs, sets, m, line) matches Ok(m1) ==> !assoc_has(m1, v),
    decreases instrs, instrs.len() + 1,
{
    lemma_upto_binds(instrs, sets, m, line, paired(instrs, sets), v);
}

/// Records that `v` is live at `line`.
fn touch(m: &mut Vec<(String, (i32, i32))>, v: &String, line: i32)
    requires
        line > i32::MIN,
    ensures
        final(m).deep_view() == touch_spec(old(m).deep_view(), v@, line),
{
    let start = match get(m, v) {
        Some(interval) => interval.0,
        None => line - 1,
    };
    put(m, v.clone(), (start, line));
}

/// Records that all of `vars` are live at `line`.
fn touch_all(m: &mut Vec<(String, (i32, i32))>, vars: &Vec<String>, line: i32)
    requires
        line > i32::MIN,
    ensures
        final(m).deep_view() == touch_all_spec(old(m).deep_view(), vars.deep_view(), line),
{
    let mut i: usize = 0;
    while i < vars.len()
        invariant
            i <= vars.len(),
            line > i32::MIN,
            m.deep_view() == touch_all_spec(
                old(m).deep_view(),
                vars.deep_view().take(i as int),
                line,
            ),
        decreases vars.len() - i,
    {
        proof {
            lemma_take_push(vars.deep_view(), i as int);
            lemma_deep_view_index(vars);
        }
        touch(m, &vars[i], line);
        i = i + 1;
    }
    proof {
        lemma_take_all(vars.deep_view());
    }
}

/// Extends `live_intervals` by the intervals of `instrs`, whose live-after sets are
/// `live_sets`, with the first instruction at line `init_line_num`. No variable is bound
/// twice afterwards, where none was before.
pub fn compute_live_intervals(
    instrs: &Vec<X86>,
    live_sets: &Vec<Vec<String>>,
    live_intervals: &mut Vec<(String, (i32, i32))>,
    init_line_num: i32,
) -> (result: Result<(), CompileError>)
    ensures
        match result {
            Ok(_) => intervals_spec(
                instrs.deep_view(),
                live_sets.deep_view(),
                old(live_intervals).deep_view(),
                init_line_num,
            ) == Ok::<_, CompileError>(final(live_intervals).deep_view()),
            Err(err) => intervals_spec(
                instrs.deep_view(),
                live_sets.deep_view(),
                old(live_intervals).deep_view(),
                init_line_num,
            ) == Err::<Intervals, _>(err),
        },
        result is Ok && keys_unique(old(live_intervals).deep_view()) ==> keys_unique(
            final(live_intervals).deep_view(),
        ),
    decreases instrs,
{
    proof {
        if keys_unique(live_intervals.deep_view()) {
            lemma_intervals_unique(
                instrs.deep_view(),
                live_sets.deep_view(),
                live_intervals.deep_view(),
                init_line_num,
            );
        }
    }
    let ghost xs = instrs.deep_view();
    let ghost ls = live_sets.deep_view();
    let ghost m0 = live_intervals.deep_view();
    let n = if instrs.len() <= live_sets.len() {
        instrs.len()
    } else {
        live_sets.len()
    };
    let mut line_num = init_line_num;
    let mut i: usize = 0;
    while i < n
        invariant
            i <= n,
            n == paired(xs, ls),
            xs == instrs.deep_view(),
            ls == live_sets.deep_view(),
            m0 == old(live_intervals).deep_view(),
            intervals_upto_spec(xs, ls, m0, init_line_num, i as nat) == Ok::<_, CompileError>(
                (live_intervals.deep_view(), line_num),
            ),
        decreases n - i,
    {
        proof {
            lemma_deep_view_index(instrs);
            lemma_deep_view_index(live_sets);
            lemma_x86_view(&instrs[i as int]);
        }
        match &instrs[i] {
            X86::IfWithLives(_, thn, thn_lives, els, els_lives) => {
                let ghost before = live_intervals.deep_view();
                assert(xs[i as int] matches X86View::IfWithLives(_, t, tl, e, el) && t
                    == thn.deep_view() && tl == thn_lives.deep_view() && e == els.deep_view() && el
                    == els_lives.deep_view());
                assert(intervals_upto_spec(xs, ls, m0, init_line_num, (i + 1) as nat)
                    == intervals_step_spec(xs[i as int], ls[i as int], before, line_num));
                match compute_live_intervals(thn, thn_lives, live_intervals, line_num) {
                    Err(err) => {
                        proof {
                            lemma_intervals_error(xs, ls, m0, init_line_num, (i + 1) as nat, n as nat);
                        }
                        return Err(err);
                    },
                    Ok(_) => {},
                }
                match compute_live_intervals(els, els_lives, live_intervals, line_num) {
                    Err(err) => {
                        proof {
                            lemma_intervals_error(xs, ls, m0, init_line_num, (i + 1) as nat, n as nat);
                        }
                        return Err(err);
                    },
                    Ok(_) => {},
                }
                let next: i128 = line_num as i128 + thn.len() as i128 + els.len() as i128;
                if next > 2147483647i128 {
                    proof {
                        lemma_intervals_error(xs, ls, m0, init_line_num, (i + 1) as nat, n as nat);
                    }
                    return Err(CompileError::FrameTooLarge);
                }
                line_num = next as i32;
            },
            _ => {
                if line_num <= i32::MIN || line_num >= i32::MAX {
                    proof {
                        lemma_intervals_error(xs, ls, m0, init_line_num, (i + 1) as nat, n as nat);
                    }
                    return Err(CompileError::FrameTooLarge);
                }
                touch_all(live_intervals, &live_sets[i], line_num);
                line_num = line_num + 1;
            },
        }
        i = i + 1;
    }
    Ok(())
}

} // verus!

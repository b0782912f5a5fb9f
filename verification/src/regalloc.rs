//! Linear-scan register allocation over live intervals.

use vstd::prelude::*;
use crate::assoc::{
    assoc_find, assoc_get, assoc_has, assoc_put, get, keys_unique, lemma_find, lemma_get_entry,
    lemma_get_put, put,
};
use crate::intervals::Intervals;
use crate::names::Name;
use crate::seqs::{
    empty_deep, lemma_deep_view_index, lemma_drop_last_contains, lemma_push_contains,
    lemma_take_all, lemma_take_push, push_deep,
};

verus! {

/// Registers by variable: each variable with the index of its register in the pool.
pub type Registers = Seq<(Name, usize)>;

/// The number of registers that variables are allocated from.
pub const POOL_SIZE: usize = 3;

/// Where an interval that starts at `start` goes into a list sorted by start: behind
/// every interval that starts no later.
pub open spec fn insert_pos(s: Intervals, start: i32) -> int
    decreases s.len(),
{
    if s.len() == 0 {
        0
    } else if s.last().1.0 <= start {
        s.len() as int
    } else {
        insert_pos(s.drop_last(), start)
    }
}

/// The intervals in the order of their starts; intervals with the same start keep their
/// order.
pub open spec fn sort_by_start(s: Intervals) -> Intervals
    decreases s.len(),
{
    if s.len() == 0 {
        s
    } else {
        let init = sort_by_start(s.drop_last());
        init.insert(insert_pos(init, s.last().1.0), s.last())
    }
}

/// The state of the scan: the registers assigned so far, the free registers, of which
/// the last is taken next, and the intervals that may still hold a register.
pub struct Scan {
    pub mapping: Registers,
    pub free: Seq<usize>,
    pub active: Intervals,
}

/// The active intervals and the free registers after every active interval that ends
/// before `start` has left; the register of one that leaves becomes free.
pub open spec fn expire_spec(active: Intervals, mapping: Registers, free: Seq<usize>, start: i32)
    -> (Intervals, Seq<usize>)
    decreases active.len(),
{
    if active.len() == 0 {
        (active, free)
    } else {
        let (kept, freed) = expire_spec(active.drop_last(), mapping, free, start);
        let a = active.last();
        if a.1.1 < start {
            match assoc_get(mapping, a.0) {
                Some(r) => (kept, freed.push(r)),
                None => (kept, freed),
            }
        } else {
            (kept.push(a), freed)
        }
    }
}

/// One interval of the scan: intervals that ended before its start expire; if a
/// register is free, the one freed last is assigned to it; it becomes active.
pub open spec fn scan_step_spec(st: Scan, entry: (Name, (i32, i32))) -> Scan {
    let (kept, freed) = expire_spec(st.active, st.mapping, st.free, entry.1.0);
    if freed.len() > 0 {
        Scan {
            mapping: assoc_put(st.mapping, entry.0, freed.last()),
            free: freed.drop_last(),
            active: kept.push(entry),
        }
    } else {
        Scan { mapping: st.mapping, free: freed, active: kept.push(entry) }
    }
}

/// The scan over intervals in the given order, with `pool` registers free at the start,
/// the one with the highest index first in line.
pub open spec fn scan_spec(sorted: Intervals, pool: nat) -> Scan
    decreases sorted.len(),
{
    if sorted.len() == 0 {
        Scan {
            mapping: Seq::empty(),
            free: Seq::new(pool, |i: int| i as usize),
            active: Seq::empty(),
        }
    } else {
        scan_step_spec(scan_spec(sorted.drop_last(), pool), sorted.last())
    }
}

/// What allocation computes: the registers that the scan assigns to the intervals taken
/// in the order of their starts. A variable that is not bound has no register.
pub open spec fn allocate_spec(intervals: Intervals, pool: nat) -> Registers {
    scan_spec(sort_by_start(intervals), pool).mapping
}

/// Where to insert an interval that starts at `start`.
fn find_insert_pos(sorted: &Vec<(String, (i32, i32))>, start: i32) -> (p: usize)
    ensures
        p == insert_pos(sorted.deep_view(), start),
        p <= sorted.len(),
{
    let mut p: usize = sorted.len();
    proof {
        lemma_take_all(sorted.deep_view());
    }
    while p > 0
        invariant
            p <= sorted.len(),
            insert_pos(sorted.deep_view(), start) == insert_pos(
                sorted.deep_view().take(p as int),
                start,
            ),
        decreases p,
    {
        proof {
            lemma_take_push(sorted.deep_view(), p - 1);
            lemma_deep_view_index(sorted);
        }
        if sorted[p - 1].1.0 <= start {
            return p;
        }
        p = p - 1;
    }
    proof {
        lemma_take_all(sorted.deep_view());
    }
    p
}

/// The intervals in the order of their starts.
pub fn sort_intervals(intervals: &Vec<(String, (i32, i32))>) -> (sorted: Vec<(String, (i32, i32))>)
    ensures
        sorted.deep_view() == sort_by_start(intervals.deep_view()),
{
    let mut sorted: Vec<(String, (i32, i32))> = empty_deep();
    let mut i: usize = 0;
    while i < intervals.len()
        invariant
            i <= intervals.len(),
            sorted.deep_view() == sort_by_start(intervals.deep_view().take(i as int)),
        decreases intervals.len() - i,
    {
        proof {
            lemma_take_push(intervals.deep_view(), i as int);
            lemma_deep_view_index(intervals);
        }
        let entry = &intervals[i];
        let p = find_insert_pos(&sorted, entry.1.0);
        let ghost before = sorted.deep_view();
        let copy = (entry.0.clone(), entry.1);
        sorted.insert(p, copy);
        assert(sorted.deep_view() =~= before.insert(p as int, copy.deep_view()));
        i = i + 1;
    }
    proof {
        lemma_take_all(intervals.deep_view());
    }
    sorted
}

/// Removes the active intervals that end before `start` and frees their registers.
fn expire(
    active: &Vec<(String, (i32, i32))>,
    mapping: &Vec<(String, usize)>,
    free: &mut Vec<usize>,
    start: i32,
) -> (kept: Vec<(String, (i32, i32))>)
    ensures
        (kept.deep_view(), final(free).deep_view()) == expire_spec(
            active.deep_view(),
            mapping.deep_view(),
            old(free).deep_view(),
            start,
        ),
{
    let mut kept: Vec<(String, (i32, i32))> = empty_deep();
    let mut i: usize = 0;
    while i < active.len()
        invariant
            i <= active.len(),
            (kept.deep_view(), free.deep_view()) == expire_spec(
                active.deep_view().take(i as int),
                mapping.deep_view(),
                old(free).deep_view(),
                start,
            ),
        decreases active.len() - i,
    {
        proof {
            lemma_take_push(active.deep_view(), i as int);
            lemma_deep_view_index(active);
        }
        let a = &active[i];
        if a.1.1 < start {
            match get(mapping, &a.0) {
                Some(r) => {
                    push_deep(free, *r);
                },
                None => {},
            }
        } else {
            push_deep(&mut kept, (a.0.clone(), a.1));
        }
        i = i + 1;
    }
    proof {
        lemma_take_all(active.deep_view());
    }
    kept
}

/// The registers for `live_intervals` out of a pool of `pool` registers: the index of
/// its register for each variable that got one.
pub fn allocate_registers_in(live_intervals: &Vec<(String, (i32, i32))>, pool: usize) -> (mapping:
    Vec<(String, usize)>)
    ensures
        mapping.deep_view() == allocate_spec(live_intervals.deep_view(), pool as nat),
{
    let sorted = sort_intervals(live_intervals);
    let mut mapping: Vec<(String, usize)> = empty_deep();
    let mut free: Vec<usize> = Vec::new();
    let mut active: Vec<(String, (i32, i32))> = empty_deep();
    let mut r: usize = 0;
    while r < pool
        invariant
            r <= pool,
            free@ == Seq::new(r as nat, |i: int| i as usize),
        decreases pool - r,
    {
        free.push(r);
        r = r + 1;
        assert(free@ =~= Seq::new(r as nat, |i: int| i as usize));
    }
    assert(free.deep_view() =~= Seq::new(pool as nat, |i: int| i as usize));
    let mut i: usize = 0;
    while i < sorted.len()
        invariant
            i <= sorted.len(),
            scan_spec(sorted.deep_view().take(i as int), pool as nat) == (Scan {
                mapping: mapping.deep_view(),
                free: free.deep_view(),
                active: active.deep_view(),
            }),
        decreases sorted.len() - i,
    {
        proof {
            lemma_take_push(sorted.deep_view(), i as int);
            lemma_deep_view_index(&sorted);
        }
        let entry = &sorted[i];
        let mut kept = expire(&active, &mapping, &mut free, entry.1.0);
        if free.len() > 0 {
            let ghost freed = free.deep_view();
            let reg = free.pop().unwrap();
            assert(free.deep_view() =~= freed.drop_last());
            assert(reg == freed.last());
            put(&mut mapping, entry.0.clone(), reg);
        }
        push_deep(&mut kept, (entry.0.clone(), entry.1));
        active = kept;
        i = i + 1;
    }
    proof {
        lemma_take_all(sorted.deep_view());
    }
    mapping
}

/// The registers for `live_intervals`: for each variable that got one the index of its
/// register in the pool. A variable that is missing found no register free.
pub fn allocate_registers(live_intervals: &Vec<(String, (i32, i32))>) -> (mapping: Vec<
    (String, usize),
>)
    ensures
        mapping.deep_view() == allocate_spec(live_intervals.deep_view(), POOL_SIZE as nat),
{
    allocate_registers_in(live_intervals, POOL_SIZE)
}

/// Whether two intervals share a line.
pub open spec fn overlap(a: (i32, i32), b: (i32, i32)) -> bool {
    a.0 <= b.1 && b.0 <= a.1
}

/// Whether the intervals are in the order of their starts.
pub open spec fn sorted_by_start(s: Intervals) -> bool {
    forall|i: int, j: int| 0 <= i <= j < s.len() ==> s[i].1.0 <= s[j].1.0
}

/// Where an interval goes into a sorted list: every interval before that place starts
/// no later, every interval from that place on starts later.
proof fn lemma_insert_pos(s: Intervals, start: i32)
    requires
        sorted_by_start(s),
    ensures
        0 <= insert_pos(s, start) <= s.len(),
        forall|j: int| 0 <= j < insert_pos(s, start) ==> (#[trigger] s[j]).1.0 <= start,
        forall|j: int| insert_pos(s, start) <= j < s.len() ==> (#[trigger] s[j]).1.0 > start,
    decreases s.len(),
{
    if s.len() > 0 {
        if s.last().1.0 <= start {
            assert forall|j: int| 0 <= j < s.len() implies (#[trigger] s[j]).1.0 <= start by {
                assert(s[j].1.0 <= s[s.len() - 1].1.0);
            }
        } else {
            let init = s.drop_last();
            assert(sorted_by_start(init)) by {
                assert forall|i: int, j: int| 0 <= i <= j < init.len() implies init[i].1.0
                    <= init[j].1.0 by {
                    assert(init[i] == s[i] && init[j] == s[j]);
                }
            }
            lemma_insert_pos(init, start);
            let p = insert_pos(init, start);
            assert forall|j: int| 0 <= j < p implies (#[trigger] s[j]).1.0 <= start by {
                assert(s[j] == init[j]);
            }
            assert forall|j: int| p <= j < s.len() implies (#[trigger] s[j]).1.0 > start by {
                if j < init.len() {
                    assert(s[j] == init[j]);
                }
            }
        }
    }
}

/// Sorting orders the intervals by start, keeps every interval, adds none, and keeps
/// unique keys unique.
pub proof fn lemma_sort(s: Intervals)
    ensures
        sorted_by_start(sort_by_start(s)),
        sort_by_start(s).len() == s.len(),
        forall|e: (Name, (i32, i32))| sort_by_start(s).contains(e) <==> s.contains(e),
        keys_unique(s) ==> keys_unique(sort_by_start(s)),
    decreases s.len(),
{
    if s.len() > 0 {
        let rest = s.drop_last();
        let x = s.last();
        lemma_sort(rest);
        let init = sort_by_start(rest);
        lemma_insert_pos(init, x.1.0);
        let p = insert_pos(init, x.1.0);
        let out = init.insert(p, x);
        assert(sort_by_start(s) == out);
        assert forall|i: int, j: int| 0 <= i <= j < out.len() implies out[i].1.0 <= out[j].1.0 by {
            if i < p {
                assert(out[i] == init[i]);
            } else if i > p {
                assert(out[i] == init[i - 1]);
            }
            if j < p {
                assert(out[j] == init[j]);
            } else if j > p {
                assert(out[j] == init[j - 1]);
            }
        }
        assert forall|e: (Name, (i32, i32))| out.contains(e) <==> s.contains(e) by {
            lemma_drop_last_contains(s, e);
            if out.contains(e) {
                let i = choose|i: int| 0 <= i < out.len() && out[i] == e;
                if i < p {
                    assert(init[i] == e);
                } else if i > p {
                    assert(init[i - 1] == e);
                }
            }
            if init.contains(e) {
                let i = choose|i: int| 0 <= i < init.len() && init[i] == e;
                if i < p {
                    assert(out[i] == e);
                } else {
                    assert(out[i + 1] == e);
                }
            }
            if e == x {
                assert(out[p] == e);
            }
        }
        if keys_unique(s) {
            assert(keys_unique(rest)) by {
                assert forall|i: int, j: int|
                    0 <= i < rest.len() && 0 <= j < rest.len() && i != j implies rest[i].0
                    != rest[j].0 by {
                    assert(rest[i] == s[i] && rest[j] == s[j]);
                }
            }
            assert forall|i: int| 0 <= i < init.len() implies (#[trigger] init[i]).0 != x.0 by {
                assert(init.contains(init[i]));
                assert(rest.contains(init[i]));
                let j = choose|j: int| 0 <= j < rest.len() && rest[j] == init[i];
                assert(s[j] == rest[j]);
                assert(s[s.len() - 1] == x);
            }
            assert forall|i: int, j: int|
                0 <= i < out.len() && 0 <= j < out.len() && i != j implies out[i].0 != out[j].0 by {
                let a = if i < p {
                    i
                } else {
                    i - 1
                };
                let b = if j < p {
                    j
                } else {
                    j - 1
                };
                if i != p {
                    assert(out[i] == init[a]);
                }
                if j != p {
                    assert(out[j] == init[b]);
                }
            }
        }
    }
}

/// The register of an interval's variable.
pub open spec fn reg_of(mapping: Registers, e: (Name, (i32, i32))) -> Option<usize> {
    assoc_get(mapping, e.0)
}

/// Whether the active intervals hold their registers properly: no register of theirs is
/// free, no two of them share one, and all registers are of the pool.
spec fn holds_registers(active: Intervals, mapping: Registers, free: Seq<usize>, pool: nat) -> bool {
    &&& free.no_duplicates()
    &&& forall|i: int| 0 <= i < free.len() ==> (#[trigger] free[i]) < pool
    &&& keys_unique(active)
    &&& forall|i: int|
        0 <= i < active.len() ==> (reg_of(mapping, #[trigger] active[i]) matches Some(r)
            ==> !free.contains(r) && r < pool)
    &&& forall|i: int, j: int|
        0 <= i < j < active.len() ==> !(reg_of(mapping, active[i]) is Some && reg_of(
            mapping,
            active[i],
        ) == reg_of(mapping, active[j]))
}

/// What expiry keeps and frees.
proof fn lemma_expire(active: Intervals, mapping: Registers, free: Seq<usize>, start: i32, pool: nat)
    requires
        holds_registers(active, mapping, free, pool),
    ensures
        ({
            let (kept, freed) = expire_spec(active, mapping, free, start);
            &&& holds_registers(kept, mapping, freed, pool)
            &&& forall|e: (Name, (i32, i32))|
                kept.contains(e) <==> (active.contains(e) && e.1.1 >= start)
            &&& forall|r: usize|
                freed.contains(r) ==> (free.contains(r) || exists|i: int|
                    0 <= i < active.len() && (#[trigger] active[i]).1.1 < start && reg_of(
                        mapping,
                        active[i],
                    ) == Some(r))
        }),
    decreases active.len(),
{
    if active.len() > 0 {
        let init = active.drop_last();
        let a = active.last();
        assert(holds_registers(init, mapping, free, pool)) by {
            assert forall|i: int| 0 <= i < init.len() implies (reg_of(
                mapping,
                #[trigger] init[i],
            ) matches Some(r) ==> !free.contains(r) && r < pool) by {
                assert(init[i] == active[i]);
            }
            assert forall|i: int, j: int| 0 <= i < j < init.len() implies !(reg_of(
                mapping,
                init[i],
            ) is Some && reg_of(mapping, init[i]) == reg_of(mapping, init[j])) by {
                assert(init[i] == active[i] && init[j] == active[j]);
            }
            assert forall|i: int, j: int|
                0 <= i < init.len() && 0 <= j < init.len() && i != j implies init[i].0
                != init[j].0 by {
                assert(init[i] == active[i] && init[j] == active[j]);
            }
        }
        lemma_expire(init, mapping, free, start, pool);
        let (kept0, freed0) = expire_spec(init, mapping, free, start);
        let (kept, freed) = expire_spec(active, mapping, free, start);
        assert(active[active.len() - 1] == a);
        assert forall|e: (Name, (i32, i32))|
            kept.contains(e) <==> (active.contains(e) && e.1.1 >= start) by {
            lemma_drop_last_contains(active, e);
            lemma_push_contains(kept0, a, e);
        }
        // every kept interval is an active one with another index than the last
        assert forall|i: int| 0 <= i < kept0.len() implies exists|j: int|
            0 <= j < init.len() && init[j] == #[trigger] kept0[i] by {
            assert(kept0.contains(kept0[i]));
            assert(init.contains(kept0[i]));
        }
        if a.1.1 < start {
            match assoc_get(mapping, a.0) {
                Some(r) => {
                    assert(freed == freed0.push(r));
                    assert(!freed0.contains(r)) by {
                        if freed0.contains(r) {
                            let i = choose|i: int|
                                0 <= i < init.len() && (#[trigger] init[i]).1.1 < start && reg_of(
                                    mapping,
                                    init[i],
                                ) == Some(r);
                            assert(init[i] == active[i]);
                            assert(reg_of(mapping, active[i]) == reg_of(
                                mapping,
                                active[active.len() - 1],
                            ));
                        }
                    }
                    assert(freed.no_duplicates());
                    assert forall|i: int| 0 <= i < freed.len() implies (#[trigger] freed[i])
                        < pool by {
                        if i < freed0.len() {
                            assert(freed[i] == freed0[i]);
                        }
                    }
                    assert forall|i: int| 0 <= i < kept.len() implies (reg_of(
                        mapping,
                        #[trigger] kept[i],
                    ) matches Some(q) ==> !freed.contains(q) && q < pool) by {
                        let j = choose|j: int| 0 <= j < init.len() && init[j] == kept0[i];
                        assert(init[j] == active[j]);
                        if reg_of(mapping, kept[i]) is Some {
                            let q = reg_of(mapping, kept[i])->Some_0;
                            lemma_push_contains(freed0, r, q);
                            assert(reg_of(mapping, active[j]) != reg_of(
                                mapping,
                                active[active.len() - 1],
                            ));
                        }
                    }
                    assert forall|q: usize| freed.contains(q) implies (free.contains(q)
                        || exists|i: int|
                        0 <= i < active.len() && (#[trigger] active[i]).1.1 < start && reg_of(
                            mapping,
                            active[i],
                        ) == Some(q)) by {
                        lemma_push_contains(freed0, r, q);
                        if freed0.contains(q) && !free.contains(q) {
                            let i = choose|i: int|
                                0 <= i < init.len() && (#[trigger] init[i]).1.1 < start && reg_of(
                                    mapping,
                                    init[i],
                                ) == Some(q);
                            assert(init[i] == active[i]);
                        }
                    }
                },
                None => {
                    assert forall|q: usize| freed.contains(q) implies (free.contains(q)
                        || exists|i: int|
                        0 <= i < active.len() && (#[trigger] active[i]).1.1 < start && reg_of(
                            mapping,
                            active[i],
                        ) == Some(q)) by {
                        if !free.contains(q) {
                            let i = choose|i: int|
                                0 <= i < init.len() && (#[trigger] init[i]).1.1 < start && reg_of(
                                    mapping,
                                    init[i],
                                ) == Some(q);
                            assert(init[i] == active[i]);
                        }
                    }
                },
            }
        } else {
            assert(kept == kept0.push(a));
            assert forall|i: int| 0 <= i < kept0.len() implies (#[trigger] kept0[i]).0 != a.0 by {
                let j = choose|j: int| 0 <= j < init.len() && init[j] == kept0[i];
                assert(init[j] == active[j]);
            }
            assert(keys_unique(kept)) by {
                assert forall|i: int, j: int|
                    0 <= i < kept.len() && 0 <= j < kept.len() && i != j implies kept[i].0
                    != kept[j].0 by {
                    if i < kept0.len() {
                        assert(kept[i] == kept0[i]);
                    }
                    if j < kept0.len() {
                        assert(kept[j] == kept0[j]);
                    }
                }
            }
            assert forall|i: int| 0 <= i < kept.len() implies (reg_of(
                mapping,
                #[trigger] kept[i],
            ) matches Some(q) ==> !freed.contains(q) && q < pool) by {
                if i < kept0.len() {
                    assert(kept[i] == kept0[i]);
                } else {
                    if reg_of(mapping, a) is Some {
                        let q = reg_of(mapping, a)->Some_0;
                        if freed0.contains(q) {
                            let k = choose|k: int|
                                0 <= k < init.len() && (#[trigger] init[k]).1.1 < start && reg_of(
                                    mapping,
                                    init[k],
                                ) == Some(q);
                            assert(init[k] == active[k]);
                            assert(reg_of(mapping, active[k]) == reg_of(
                                mapping,
                                active[active.len() - 1],
                            ));
                        }
                    }
                }
            }
            assert forall|i: int, j: int| 0 <= i < j < kept.len() implies !(reg_of(
                mapping,
                kept[i],
            ) is Some && reg_of(mapping, kept[i]) == reg_of(mapping, kept[j])) by {
                assert(kept[i] == kept0[i]);
                if j < kept0.len() {
                    assert(kept[j] == kept0[j]);
                } else {
                    let k = choose|k: int| 0 <= k < init.len() && init[k] == kept0[i];
                    assert(init[k] == active[k]);
                    assert(!(reg_of(mapping, active[k]) is Some && reg_of(mapping, active[k])
                        == reg_of(mapping, active[active.len() - 1])));
                }
            }
            assert forall|q: usize| freed.contains(q) implies (free.contains(q) || exists|i: int|
                0 <= i < active.len() && (#[trigger] active[i]).1.1 < start && reg_of(
                    mapping,
                    active[i],
                ) == Some(q)) by {
                if !free.contains(q) {
                    let i = choose|i: int|
                        0 <= i < init.len() && (#[trigger] init[i]).1.1 < start && reg_of(
                            mapping,
                            init[i],
                        ) == Some(q);
                    assert(init[i] == active[i]);
                }
            }
        }
    }
}

/// What holds of the scan after it has gone through the intervals `done`: the active
/// intervals hold their registers properly; only processed variables have a register;
/// a processed interval with a register is active or ended before the last start; and
/// of two processed intervals with the same register the earlier ended before the later
/// started.
spec fn scan_inv(st: Scan, done: Intervals, pool: nat) -> bool {
    &&& holds_registers(st.active, st.mapping, st.free, pool)
    &&& forall|i: int| 0 <= i < st.active.len() ==> done.contains(#[trigger] st.active[i])
    &&& forall|k: Name| assoc_has(st.mapping, k) ==> assoc_has(done, k)
    &&& forall|k: Name| (#[trigger] assoc_get(st.mapping, k)) matches Some(r) ==> r < pool
    &&& forall|j: int|
        0 <= j < done.len() ==> (reg_of(st.mapping, #[trigger] done[j]) is Some
            ==> st.active.contains(done[j]) || done[j].1.1 < done.last().1.0)
    &&& forall|i: int, j: int|
        0 <= i < j < done.len() ==> (reg_of(st.mapping, done[i]) is Some && reg_of(
            st.mapping,
            done[i],
        ) == reg_of(st.mapping, done[j]) ==> done[i].1.1 < done[j].1.0)
}

/// The invariant of the scan holds after every interval.
proof fn lemma_scan(sorted: Intervals, pool: nat)
    requires
        sorted_by_start(sorted),
        keys_unique(sorted),
        pool <= usize::MAX,
    ensures
        scan_inv(scan_spec(sorted, pool), sorted, pool),
    decreases sorted.len(),
{
    let st1 = scan_spec(sorted, pool);
    if sorted.len() == 0 {
        assert forall|k: Name| !assoc_has(st1.mapping, k) by {
            lemma_find(st1.mapping, k);
        }
    } else {
        let done = sorted.drop_last();
        let x = sorted.last();
        let n = done.len() as int;
        assert(sorted[n] == x);
        assert forall|i: int| 0 <= i < n implies #[trigger] done[i] == sorted[i] by {}
        assert(sorted_by_start(done)) by {
            assert forall|i: int, j: int| 0 <= i <= j < done.len() implies done[i].1.0
                <= done[j].1.0 by {
                assert(done[i] == sorted[i] && done[j] == sorted[j]);
            }
        }
        assert(keys_unique(done)) by {
            assert forall|i: int, j: int|
                0 <= i < done.len() && 0 <= j < done.len() && i != j implies done[i].0
                != done[j].0 by {
                assert(done[i] == sorted[i] && done[j] == sorted[j]);
            }
        }
        lemma_scan(done, pool);
        let st = scan_spec(done, pool);
        lemma_expire(st.active, st.mapping, st.free, x.1.0, pool);
        let (kept, freed) = expire_spec(st.active, st.mapping, st.free, x.1.0);
        // the new variable is not among the processed ones, so it has no register yet
        assert(!assoc_has(done, x.0)) by {
            lemma_find(done, x.0);
            let f = assoc_find(done, x.0);
            if f < done.len() {
                assert(done[f] == sorted[f]);
            }
        }
        assert(assoc_get(st.mapping, x.0) is None);
        assert forall|j: int| 0 <= j < n implies (#[trigger] done[j]).0 != x.0 by {
            assert(done[j] == sorted[j]);
        }
        // a kept interval is a processed one
        assert forall|i: int| 0 <= i < kept.len() implies done.contains(#[trigger] kept[i])
            && kept[i].0 != x.0 && st.active.contains(kept[i]) by {
            assert(kept.contains(kept[i]));
            assert(st.active.contains(kept[i]));
            let a = choose|a: int| 0 <= a < st.active.len() && st.active[a] == kept[i];
            assert(done.contains(st.active[a]));
            let j = choose|j: int| 0 <= j < done.len() && done[j] == kept[i];
            assert(done[j].0 != x.0);
        }
        let active1 = kept.push(x);
        assert(st1.active == active1);
        assert forall|i: int| 0 <= i < active1.len() implies sorted.contains(
            #[trigger] active1[i],
        ) by {
            if i < kept.len() {
                assert(active1[i] == kept[i]);
                let j = choose|j: int| 0 <= j < done.len() && done[j] == kept[i];
                assert(sorted[j] == kept[i]);
            } else {
                assert(sorted[n] == active1[i]);
            }
        }
        assert(keys_unique(active1)) by {
            assert forall|i: int, j: int|
                0 <= i < active1.len() && 0 <= j < active1.len() && i != j implies active1[i].0
                != active1[j].0 by {
                if i < kept.len() {
                    assert(active1[i] == kept[i]);
                }
                if j < kept.len() {
                    assert(active1[j] == kept[j]);
                }
            }
        }
        // the registers of all variables but the new one stay what they were
        assert forall|k: Name| k != x.0 implies assoc_get(st1.mapping, k) == assoc_get(
            st.mapping,
            k,
        ) && assoc_has(st1.mapping, k) == assoc_has(st.mapping, k) by {
            if freed.len() > 0 {
                lemma_get_put(st.mapping, x.0, freed.last(), k);
            }
        }
        assert(reg_of(st1.mapping, x) == if freed.len() > 0 {
            Some(freed.last())
        } else {
            None
        }) by {
            if freed.len() > 0 {
                lemma_get_put(st.mapping, x.0, freed.last(), x.0);
            }
        }
        assert forall|k: Name| assoc_has(st1.mapping, k) implies assoc_has(sorted, k) by {
            if k == x.0 {
                lemma_find(sorted, k);
                if !assoc_has(sorted, k) {
                    assert(sorted[n].0 != k);
                }
            } else {
                assert(assoc_has(done, k));
                lemma_find(done, k);
                lemma_find(sorted, k);
                let f = assoc_find(done, k);
                assert(done[f] == sorted[f]);
                if !assoc_has(sorted, k) {
                    assert(sorted[f].0 != k);
                }
            }
        }
        assert forall|k: Name| (#[trigger] assoc_get(st1.mapping, k)) matches Some(r) ==> r
            < pool by {
            if k == x.0 {
                if freed.len() > 0 {
                    assert(freed[freed.len() - 1] < pool);
                }
            }
        }
        // the free registers
        assert(st1.free.no_duplicates() && forall|i: int|
            0 <= i < st1.free.len() ==> (#[trigger] st1.free[i]) < pool) by {
            if freed.len() > 0 {
                assert forall|i: int| 0 <= i < st1.free.len() implies (#[trigger] st1.free[i])
                    < pool by {
                    assert(st1.free[i] == freed[i]);
                }
                assert forall|i: int, j: int|
                    0 <= i < st1.free.len() && 0 <= j < st1.free.len() && i != j implies st1.free[i]
                    != st1.free[j] by {
                    assert(st1.free[i] == freed[i] && st1.free[j] == freed[j]);
                }
            }
        }
        assert forall|r: usize| st1.free.contains(r) implies freed.contains(r) && (freed.len() > 0
            ==> r != freed.last()) by {
            if freed.len() > 0 {
                let i = choose|i: int| 0 <= i < st1.free.len() && st1.free[i] == r;
                assert(freed[i] == r);
            }
        }
        // the registers of the active intervals
        assert forall|i: int| 0 <= i < active1.len() implies (reg_of(
            st1.mapping,
            #[trigger] active1[i],
        ) matches Some(r) ==> !st1.free.contains(r) && r < pool) by {
            if i < kept.len() {
                assert(active1[i] == kept[i]);
                assert(reg_of(st1.mapping, kept[i]) == reg_of(st.mapping, kept[i]));
            }
        }
        assert forall|i: int, j: int| 0 <= i < j < active1.len() implies !(reg_of(
            st1.mapping,
            active1[i],
        ) is Some && reg_of(st1.mapping, active1[i]) == reg_of(st1.mapping, active1[j])) by {
            assert(active1[i] == kept[i]);
            assert(reg_of(st1.mapping, kept[i]) == reg_of(st.mapping, kept[i]));
            if j < kept.len() {
                assert(active1[j] == kept[j]);
                assert(reg_of(st1.mapping, kept[j]) == reg_of(st.mapping, kept[j]));
            } else {
                if freed.len() > 0 {
                    assert(freed.contains(freed[freed.len() - 1]));
                }
            }
        }
        assert(holds_registers(st1.active, st1.mapping, st1.free, pool));
        // processed intervals with a register
        assert forall|j: int|
            0 <= j < sorted.len() && reg_of(st1.mapping, #[trigger] sorted[j]) is Some implies (
        st1.active.contains(sorted[j]) || sorted[j].1.1 < sorted.last().1.0) by {
            if j < n {
                assert(sorted[j] == done[j]);
                assert(reg_of(st1.mapping, done[j]) == reg_of(st.mapping, done[j]));
                if reg_of(st.mapping, done[j]) is Some {
                    if st.active.contains(done[j]) {
                        if done[j].1.1 >= x.1.0 {
                            assert(kept.contains(done[j]));
                            lemma_push_contains(kept, x, done[j]);
                        }
                    } else {
                        assert(done[j].1.1 < done.last().1.0);
                        assert(done.last() == sorted[n - 1]);
                        assert(sorted[n - 1].1.0 <= sorted[n].1.0);
                    }
                }
            } else {
                lemma_push_contains(kept, x, x);
            }
        }
        assert forall|i: int, j: int|
            0 <= i < j < sorted.len() && reg_of(st1.mapping, sorted[i]) is Some && reg_of(
                st1.mapping,
                sorted[i],
            ) == reg_of(st1.mapping, sorted[j]) implies sorted[i].1.1 < sorted[j].1.0 by {
            assert(sorted[i] == done[i]);
            assert(reg_of(st1.mapping, done[i]) == reg_of(st.mapping, done[i]));
            if j < n {
                assert(sorted[j] == done[j]);
                assert(reg_of(st1.mapping, done[j]) == reg_of(st.mapping, done[j]));
            } else if reg_of(st.mapping, done[i]) is Some && reg_of(st.mapping, done[i]) == reg_of(
                st1.mapping,
                x,
            ) {
                let r = freed.last();
                assert(freed.contains(freed[freed.len() - 1]));
                if st.active.contains(done[i]) {
                    if done[i].1.1 >= x.1.0 {
                        assert(kept.contains(done[i]));
                        let a = choose|a: int| 0 <= a < kept.len() && kept[a] == done[i];
                        assert(reg_of(st.mapping, kept[a]) == Some(r));
                    }
                } else {
                    assert(done[i].1.1 < done.last().1.0);
                    assert(done.last() == sorted[n - 1]);
                    assert(sorted[n - 1].1.0 <= sorted[n].1.0);
                }
            }
        }
    }
}

/// Allocator safety: two variables whose intervals overlap are never assigned the same
/// register, whatever the size of the pool.
pub proof fn lemma_allocation_safe(intervals: Intervals, pool: nat, a: int, b: int)
    requires
        keys_unique(intervals),
        pool <= usize::MAX,
        0 <= a < intervals.len(),
        0 <= b < intervals.len(),
        a != b,
        assoc_get(allocate_spec(intervals, pool), intervals[a].0) is Some,
        assoc_get(allocate_spec(intervals, pool), intervals[a].0) == assoc_get(
            allocate_spec(intervals, pool),
            intervals[b].0,
        ),
    ensures
        !overlap(intervals[a].1, intervals[b].1),
{
    let sorted = sort_by_start(intervals);
    lemma_sort(intervals);
    lemma_scan(sorted, pool);
    assert(intervals.contains(intervals[a]));
    assert(intervals.contains(intervals[b]));
    let i = choose|i: int| 0 <= i < sorted.len() && sorted[i] == intervals[a];
    let j = choose|j: int| 0 <= j < sorted.len() && sorted[j] == intervals[b];
    let mapping = scan_spec(sorted, pool).mapping;
    assert(reg_of(mapping, sorted[i]) == reg_of(mapping, sorted[j]));
    if i < j {
        assert(sorted[i].1.1 < sorted[j].1.0);
    } else if j < i {
        assert(sorted[j].1.1 < sorted[i].1.0);
    }
}

/// Only variables with an interval get a register.
pub proof fn lemma_allocation_binds(intervals: Intervals, pool: nat, v: Name)
    requires
        keys_unique(intervals),
        pool <= usize::MAX,
        !assoc_has(intervals, v),
    ensures
        assoc_get(allocate_spec(intervals, pool), v) is None,
{
    let sorted = sort_by_start(intervals);
    lemma_sort(intervals);
    lemma_scan(sorted, pool);
    if assoc_has(sorted, v) {
        lemma_find(sorted, v);
        let i = assoc_find(sorted, v);
        assert(sorted.contains(sorted[i]));
        assert(intervals.contains(sorted[i]));
        let j = choose|j: int| 0 <= j < intervals.len() && intervals[j] == sorted[i];
        lemma_find(intervals, v);
        assert(intervals[j].0 == v);
    }
}

/// Every register that allocation assigns is one of the pool.
pub proof fn lemma_allocation_in_pool(intervals: Intervals, pool: nat, v: Name)
    requires
        keys_unique(intervals),
        pool <= usize::MAX,
    ensures
        assoc_get(allocate_spec(intervals, pool), v) matches Some(r) ==> r < pool,
{
    lemma_sort(intervals);
    lemma_scan(sort_by_start(intervals), pool);
}

/// More values than there are numbers below a bound cannot all be different.
proof fn lemma_pigeonhole(f: Seq<usize>, n: nat)
    requires
        f.len() > n,
        forall|i: int| 0 <= i < f.len() ==> (#[trigger] f[i]) < n,
    ensures
        exists|i: int, j: int| 0 <= i < j < f.len() && f[i] == f[j],
    decreases n,
{
    if n == 0 {
        assert(f[0] < n);
    } else if exists|p: int| 0 <= p < f.len() && f[p] == n - 1 {
        let p = choose|p: int| 0 <= p < f.len() && f[p] == n - 1;
        if exists|q: int| 0 <= q < f.len() && q != p && f[q] == n - 1 {
            let q = choose|q: int| 0 <= q < f.len() && q != p && f[q] == n - 1;
            if p < q {
                assert(0 <= p < q < f.len() && f[p] == f[q]);
            } else {
                assert(0 <= q < p < f.len() && f[q] == f[p]);
            }
        } else {
            let g = f.subrange(0, p) + f.subrange(p + 1, f.len() as int);
            assert forall|i: int| 0 <= i < g.len() implies (#[trigger] g[i]) < n - 1 by {
                if i < p {
                    assert(g[i] == f[i]);
                } else {
                    assert(g[i] == f[i + 1]);
                }
            }
            lemma_pigeonhole(g, (n - 1) as nat);
            let (i, j) = choose|i: int, j: int| 0 <= i < j < g.len() && g[i] == g[j];
            let a = if i < p {
                i
            } else {
                i + 1
            };
            let b = if j < p {
                j
            } else {
                j + 1
            };
            assert(g[i] == f[a] && g[j] == f[b]);
            assert(0 <= a < b < f.len() && f[a] == f[b]);
        }
    } else {
        let g = f.drop_last();
        assert forall|i: int| 0 <= i < g.len() implies (#[trigger] g[i]) < n - 1 by {
            assert(g[i] == f[i]);
        }
        lemma_pigeonhole(g, (n - 1) as nat);
        let (i, j) = choose|i: int, j: int| 0 <= i < j < g.len() && g[i] == g[j];
        assert(g[i] == f[i] && g[j] == f[j]);
        assert(0 <= i < j < f.len() && f[i] == f[j]);
    }
}

/// A crowd spills: of more intervals than the pool has registers, all of which overlap
/// one another, at least one gets no register.
pub proof fn lemma_crowd_spills(intervals: Intervals, pool: nat, crowd: Seq<int>)
    requires
        keys_unique(intervals),
        pool <= usize::MAX,
        crowd.len() > pool,
        forall|i: int| 0 <= i < crowd.len() ==> 0 <= #[trigger] crowd[i] < intervals.len(),
        forall|i: int, j: int|
            0 <= i < j < crowd.len() ==> #[trigger] crowd[i] != #[trigger] crowd[j] && overlap(
                intervals[crowd[i]].1,
                intervals[crowd[j]].1,
            ),
    ensures
        exists|i: int|
            0 <= i < crowd.len() && assoc_get(
                allocate_spec(intervals, pool),
                intervals[#[trigger] crowd[i]].0,
            ) is None,
{
    let regs = allocate_spec(intervals, pool);
    if forall|i: int|
        0 <= i < crowd.len() ==> assoc_get(regs, intervals[#[trigger] crowd[i]].0) is Some {
        let f = Seq::new(
            crowd.len(),
            |i: int| assoc_get(regs, intervals[crowd[i]].0)->Some_0,
        );
        assert forall|i: int| 0 <= i < f.len() implies (#[trigger] f[i]) < pool by {
            assert(assoc_get(regs, intervals[crowd[i]].0) is Some);
            lemma_allocation_in_pool(intervals, pool, intervals[crowd[i]].0);
        }
        lemma_pigeonhole(f, pool);
        let (i, j) = choose|i: int, j: int| 0 <= i < j < f.len() && f[i] == f[j];
        assert(assoc_get(regs, intervals[crowd[i]].0) is Some);
        assert(assoc_get(regs, intervals[crowd[j]].0) is Some);
        assert(crowd[i] != crowd[j] && overlap(intervals[crowd[i]].1, intervals[crowd[j]].1));
        lemma_allocation_safe(intervals, pool, crowd[i], crowd[j]);
    }
}

} // verus!

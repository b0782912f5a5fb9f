use lispc::error::CompileError;
use lispc::homes::{assign_homes, assign_homes_to_instrs, assign_homes_to_op2, decide_locs, pool_reg};
use lispc::intervals::compute_live_intervals;
use lispc::liveness::uncover_live;
use lispc::regalloc::{allocate_registers, allocate_registers_in, sort_intervals, POOL_SIZE};
use lispc::x86::{Reg, X86Arg, X86};

fn s(name: &str) -> String {
    name.to_string()
}

fn names(list: &[&str]) -> Vec<String> {
    list.iter().map(|n| n.to_string()).collect()
}

fn var(name: &str) -> X86Arg {
    X86Arg::Var(s(name))
}

fn rax() -> X86Arg {
    X86Arg::Reg(Reg::RAX)
}

fn slot(k: i32) -> X86Arg {
    X86Arg::RegOffset(Reg::RBP, -8 * k)
}

fn iv(name: &str, start: i32, end: i32) -> (String, (i32, i32)) {
    (s(name), (start, end))
}

fn sum_body() -> Vec<X86> {
    vec![
        X86::Mov(var("tmp1"), X86Arg::Imm(13)),
        X86::Add(var("tmp1"), X86Arg::Imm(14)),
        X86::Mov(var("tmp2"), X86Arg::Imm(12)),
        X86::Add(var("tmp2"), var("tmp1")),
        X86::Mov(rax(), var("tmp2")),
    ]
}

fn sum_sets() -> Vec<Vec<String>> {
    vec![
        names(&["tmp1"]),
        names(&["tmp1"]),
        names(&["tmp2", "tmp1"]),
        names(&["tmp2"]),
        names(&[]),
    ]
}

fn has_var(arg: &X86Arg) -> bool {
    matches!(arg, X86Arg::Var(_))
}

fn mentions_var(instr: &X86) -> bool {
    match instr {
        X86::Mov(a, b) | X86::Add(a, b) | X86::Cmp(a, b) | X86::EqP(a, b) => has_var(a) || has_var(b),
        X86::If(cnd, thn, els) | X86::IfWithLives(cnd, thn, _, els, _) => {
            mentions_var(cnd) || thn.iter().any(mentions_var) || els.iter().any(mentions_var)
        }
        X86::Define(_, _, instrs) | X86::DefineWithLives(_, _, _, instrs) => instrs.iter().any(mentions_var),
        X86::Prog(defs, instrs, _) | X86::ProgWithLives(defs, instrs, _, _) => {
            defs.iter().any(mentions_var) || instrs.iter().any(mentions_var)
        }
        X86::Call(_) | X86::JmpIf(_, _) | X86::Jmp(_) | X86::Label(_) => false,
    }
}

#[test]
fn interval_runs_from_the_line_before_the_first_set_to_the_last() {
    let mut intervals = Vec::new();
    assert_eq!(compute_live_intervals(&sum_body(), &sum_sets(), &mut intervals, 1), Ok(()));
    assert_eq!(intervals, vec![iv("tmp1", 0, 3), iv("tmp2", 2, 4)]);
}

#[test]
fn intervals_extend_what_is_there() {
    let mut intervals = vec![iv("tmp2", -5, -4), iv("other", 7, 9)];
    assert_eq!(compute_live_intervals(&sum_body(), &sum_sets(), &mut intervals, 10), Ok(()));
    assert_eq!(intervals, vec![iv("tmp2", -5, 13), iv("other", 7, 9), iv("tmp1", 9, 12)]);
}

#[test]
fn branches_are_numbered_from_the_line_of_their_conditional() {
    let body = vec![
        X86::Mov(var("a"), X86Arg::Imm(1)),
        X86::IfWithLives(
            Box::new(X86::EqP(var("a"), X86Arg::Imm(1))),
            vec![X86::Mov(var("t"), X86Arg::Imm(1)), X86::Mov(var("r"), var("t"))],
            vec![names(&["t"]), names(&["r"])],
            vec![X86::Mov(var("r"), X86Arg::Imm(2))],
            vec![names(&["r"])],
        ),
        X86::Mov(rax(), var("r")),
    ];
    let sets = vec![names(&["a"]), names(&["r", "a"]), names(&["z"])];
    let mut intervals = Vec::new();
    assert_eq!(compute_live_intervals(&body, &sets, &mut intervals, 1), Ok(()));
    // Line 1: a. The conditional is at line 2: t at 2, r at 3 in the then-branch, r at 2
    // in the else-branch. The conditional takes three lines, so z is live at line 5.
    assert_eq!(intervals, vec![iv("a", 0, 1), iv("t", 1, 2), iv("r", 2, 2), iv("z", 4, 5)]);
}

#[test]
fn only_instructions_with_a_set_are_numbered() {
    let mut intervals = Vec::new();
    let sets = vec![names(&["tmp1"]), names(&["tmp1"])];
    assert_eq!(compute_live_intervals(&sum_body(), &sets, &mut intervals, 1), Ok(()));
    assert_eq!(intervals, vec![iv("tmp1", 0, 2)]);
    let mut intervals = Vec::new();
    assert_eq!(compute_live_intervals(&vec![], &sum_sets(), &mut intervals, 1), Ok(()));
    assert_eq!(intervals, vec![]);
}

#[test]
fn line_numbers_have_32_bits() {
    let body = vec![X86::Mov(rax(), X86Arg::Imm(1))];
    let mut intervals = Vec::new();
    assert_eq!(
        compute_live_intervals(&body, &vec![vec![]], &mut intervals, i32::MAX),
        Err(CompileError::FrameTooLarge)
    );
    assert_eq!(
        compute_live_intervals(&body, &vec![vec![]], &mut intervals, i32::MIN),
        Err(CompileError::FrameTooLarge)
    );
    assert_eq!(compute_live_intervals(&body, &vec![vec![]], &mut intervals, i32::MAX - 1), Ok(()));
    let branch = vec![X86::IfWithLives(
        Box::new(X86::EqP(rax(), rax())),
        vec![X86::Mov(rax(), X86Arg::Imm(1))],
        vec![vec![]],
        vec![X86::Mov(rax(), X86Arg::Imm(1))],
        vec![vec![]],
    )];
    assert_eq!(
        compute_live_intervals(&branch, &vec![vec![]], &mut intervals, i32::MAX - 1),
        Err(CompileError::FrameTooLarge)
    );
    assert_eq!(
        compute_live_intervals(&branch, &vec![vec![]], &mut intervals, i32::MAX - 2),
        Ok(())
    );
}

#[test]
fn sorting_is_by_start_and_stable() {
    let intervals = vec![iv("c", 5, 9), iv("a", 1, 2), iv("d", 5, 6), iv("b", 1, 8), iv("e", 0, 0)];
    assert_eq!(
        sort_intervals(&intervals),
        vec![iv("e", 0, 0), iv("a", 1, 2), iv("b", 1, 8), iv("c", 5, 9), iv("d", 5, 6)]
    );
    assert_eq!(sort_intervals(&vec![]), vec![]);
}

#[test]
fn registers_are_taken_from_the_end_of_the_pool() {
    assert_eq!(POOL_SIZE, 3);
    assert_eq!(
        allocate_registers(&vec![iv("tmp1", 0, 3), iv("tmp2", 2, 4)]),
        vec![(s("tmp1"), 2), (s("tmp2"), 1)]
    );
    assert_eq!(pool_reg(2), Reg::RCX);
    assert_eq!(pool_reg(1), Reg::RDX);
    assert_eq!(pool_reg(0), Reg::RBX);
}

#[test]
fn variable_without_a_free_register_is_left_out() {
    let intervals = vec![iv("a", 0, 10), iv("b", 1, 10), iv("c", 2, 10), iv("d", 3, 10)];
    assert_eq!(
        allocate_registers(&intervals),
        vec![(s("a"), 2), (s("b"), 1), (s("c"), 0)]
    );
    assert_eq!(
        allocate_registers_in(&intervals, 4),
        vec![(s("a"), 3), (s("b"), 2), (s("c"), 1), (s("d"), 0)]
    );
    assert_eq!(allocate_registers_in(&intervals, 0), vec![]);
}

#[test]
fn expired_interval_frees_its_register_for_the_next() {
    // `a` ends before `c` starts, `b` does not: `c` reuses the register of `a`.
    assert_eq!(
        allocate_registers(&vec![iv("a", 0, 1), iv("b", 0, 5), iv("c", 2, 4)]),
        vec![(s("a"), 2), (s("b"), 1), (s("c"), 2)]
    );
    // An interval that ends where the next starts has not expired.
    assert_eq!(
        allocate_registers(&vec![iv("a", 0, 2), iv("b", 2, 3)]),
        vec![(s("a"), 2), (s("b"), 1)]
    );
}

#[test]
fn register_freed_last_is_taken_first() {
    let intervals = vec![iv("a", 0, 1), iv("b", 0, 2), iv("c", 0, 9), iv("d", 5, 6), iv("e", 5, 6)];
    // At line 5 `a` and then `b` expire: `d` takes the register of `b`, `e` that of `a`.
    assert_eq!(
        allocate_registers(&intervals),
        vec![(s("a"), 2), (s("b"), 1), (s("c"), 0), (s("d"), 1), (s("e"), 2)]
    );
}

#[test]
fn spilled_interval_frees_nothing_when_it_expires() {
    let intervals = vec![iv("a", 0, 9), iv("b", 0, 1), iv("c", 3, 4)];
    assert_eq!(
        allocate_registers_in(&intervals, 1),
        vec![(s("a"), 0)]
    );
}

#[test]
fn allocation_takes_intervals_in_the_order_of_their_starts() {
    assert_eq!(
        allocate_registers(&vec![iv("late", 5, 6), iv("early", 0, 9)]),
        vec![(s("early"), 2), (s("late"), 1)]
    );
}

#[test]
fn overlapping_intervals_never_share_a_register() {
    let intervals = vec![
        iv("a", 0, 4),
        iv("b", 1, 2),
        iv("c", 2, 7),
        iv("d", 3, 3),
        iv("e", 3, 9),
        iv("f", 5, 6),
        iv("g", 8, 12),
        iv("h", 8, 8),
        iv("i", 10, 11),
    ];
    for pool in 0..6 {
        let mapping = allocate_registers_in(&intervals, pool);
        for (x, (xs, xe)) in &intervals {
            for (y, (ys, ye)) in &intervals {
                let rx = mapping.iter().find(|(n, _)| n == x).map(|(_, r)| *r);
                let ry = mapping.iter().find(|(n, _)| n == y).map(|(_, r)| *r);
                if x != y && rx.is_some() && rx == ry {
                    assert!(!(xs <= ye && ys <= xe), "{} and {} share register {:?}", x, y, rx);
                }
                assert!(rx.map_or(true, |r| r < pool));
            }
        }
    }
}

#[test]
fn homes_are_registers_or_slots() {
    assert_eq!(
        decide_locs(&names(&["tmp1", "tmp2"]), &sum_body(), &sum_sets()),
        Ok(vec![
            (s("tmp1"), X86Arg::Reg(Reg::RCX)),
            (s("tmp2"), X86Arg::Reg(Reg::RDX)),
        ])
    );
    // A variable that is never live has no interval and gets a slot.
    assert_eq!(
        decide_locs(&names(&["dead", "tmp2", "gone"]), &sum_body(), &sum_sets()),
        Ok(vec![(s("dead"), slot(1)), (s("tmp2"), X86Arg::Reg(Reg::RDX)), (s("gone"), slot(2))])
    );
}

#[test]
fn every_occurrence_without_a_register_takes_a_new_slot() {
    assert_eq!(
        decide_locs(&names(&["x", "tmp1", "x", "y", "tmp1"]), &sum_body(), &sum_sets()),
        Ok(vec![(s("x"), slot(2)), (s("tmp1"), X86Arg::Reg(Reg::RCX)), (s("y"), slot(3))])
    );
}

#[test]
fn operands_are_replaced_by_homes() {
    let locs = vec![(s("a"), X86Arg::Reg(Reg::RBX)), (s("b"), slot(1))];
    assert_eq!(
        assign_homes_to_op2(&locs, &var("b"), &var("a")),
        Ok((X86Arg::Reg(Reg::RBX), slot(1)))
    );
    assert_eq!(
        assign_homes_to_op2(&locs, &X86Arg::Imm(3), &var("b")),
        Ok((slot(1), X86Arg::Imm(3)))
    );
    assert_eq!(
        assign_homes_to_op2(&locs, &var("a"), &rax()),
        Ok((rax(), X86Arg::Reg(Reg::RBX)))
    );
    assert_eq!(
        assign_homes_to_op2(&locs, &X86Arg::Imm(1), &X86Arg::Imm(2)),
        Ok((X86Arg::Imm(2), X86Arg::Imm(1)))
    );
}

#[test]
fn variable_without_a_home_is_refused() {
    let locs = vec![(s("a"), X86Arg::Reg(Reg::RBX))];
    assert_eq!(assign_homes_to_op2(&locs, &var("a"), &var("zz")), Err(CompileError::NoHome));
    assert_eq!(assign_homes_to_op2(&locs, &var("zz"), &var("a")), Err(CompileError::NoHome));
    assert_eq!(
        assign_homes_to_instrs(&vec![X86::Mov(rax(), var("zz"))], &locs),
        Err(CompileError::NoHome)
    );
}

#[test]
fn conditional_gets_homes_on_both_sides_of_its_test() {
    let locs = vec![(s("a"), X86Arg::Reg(Reg::RBX)), (s("b"), slot(1)), (s("r"), slot(2))];
    let annotated = vec![X86::IfWithLives(
        Box::new(X86::EqP(var("a"), var("b"))),
        vec![X86::Mov(var("r"), var("a"))],
        vec![names(&["r"])],
        vec![X86::Call(s("f")), X86::Add(var("r"), X86Arg::Imm(1))],
        vec![vec![], names(&["r"])],
    )];
    assert_eq!(
        assign_homes_to_instrs(&annotated, &locs),
        Ok(vec![X86::If(
            Box::new(X86::EqP(X86Arg::Reg(Reg::RBX), slot(1))),
            vec![X86::Mov(slot(2), X86Arg::Reg(Reg::RBX))],
            vec![X86::Call(s("f")), X86::Add(slot(2), X86Arg::Imm(1))],
        )])
    );
}

#[test]
fn home_assignment_handles_what_selection_produces() {
    let locs = vec![];
    assert_eq!(
        assign_homes_to_instrs(&vec![X86::Cmp(rax(), rax())], &locs),
        Err(CompileError::UnsupportedInstruction)
    );
    assert_eq!(
        assign_homes_to_instrs(&vec![X86::Jmp(s("l"))], &locs),
        Err(CompileError::UnsupportedInstruction)
    );
    assert_eq!(
        assign_homes_to_instrs(&vec![X86::If(Box::new(X86::EqP(rax(), rax())), vec![], vec![])], &locs),
        Err(CompileError::UnsupportedInstruction)
    );
    assert_eq!(
        assign_homes_to_instrs(
            &vec![X86::IfWithLives(Box::new(X86::Cmp(rax(), rax())), vec![], vec![], vec![], vec![])],
            &locs
        ),
        Err(CompileError::UnsupportedCondition)
    );
    assert_eq!(assign_homes(&X86::Define(s("f"), vec![], vec![])), Err(CompileError::NotTopLevel));
    assert_eq!(assign_homes(&X86::Call(s("f"))), Err(CompileError::NotTopLevel));
}

#[test]
fn assign_homes_places_each_body_by_itself() {
    let program = X86::Prog(
        vec![X86::Define(s("f"), names(&["tmp1", "tmp2"]), sum_body())],
        sum_body(),
        names(&["tmp2", "tmp1"]),
    );
    let placed_body = vec![
        X86::Mov(X86Arg::Reg(Reg::RCX), X86Arg::Imm(13)),
        X86::Add(X86Arg::Reg(Reg::RCX), X86Arg::Imm(14)),
        X86::Mov(X86Arg::Reg(Reg::RDX), X86Arg::Imm(12)),
        X86::Add(X86Arg::Reg(Reg::RDX), X86Arg::Reg(Reg::RCX)),
        X86::Mov(rax(), X86Arg::Reg(Reg::RDX)),
    ];
    assert_eq!(
        assign_homes(&uncover_live(&program).unwrap()),
        Ok(X86::Prog(
            vec![X86::Define(s("f"), names(&["tmp1", "tmp2"]), placed_body.clone())],
            placed_body,
            names(&["tmp2", "tmp1"]),
        ))
    );
}

#[test]
fn no_variable_is_left_after_home_assignment() {
    let body = vec![
        X86::Mov(var("a"), X86Arg::Imm(1)),
        X86::Mov(var("b"), X86Arg::Imm(2)),
        X86::Mov(var("c"), X86Arg::Imm(3)),
        X86::Mov(var("d"), X86Arg::Imm(4)),
        X86::If(
            Box::new(X86::EqP(var("a"), var("d"))),
            vec![X86::Mov(var("r"), var("b")), X86::Add(var("r"), var("c"))],
            vec![X86::Mov(var("r"), var("d")), X86::Add(var("r"), var("a"))],
        ),
        X86::Add(var("r"), var("b")),
        X86::Mov(rax(), var("r")),
    ];
    let program = X86::Prog(
        vec![X86::Define(s("f"), names(&["a", "b", "c", "d", "r"]), body.clone())],
        body,
        names(&["r", "d", "c", "b", "a"]),
    );
    let placed = assign_homes(&uncover_live(&program).unwrap()).unwrap();
    assert!(!mentions_var(&placed), "{:?}", placed);
}

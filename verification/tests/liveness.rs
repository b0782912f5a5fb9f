use lispc::error::CompileError;
use lispc::liveness::{arg_var_names, get_live_after_sets, instruction_rw, uncover_live};
use lispc::x86::{Reg, X86Arg, X86};

fn s(name: &str) -> String {
    name.to_string()
}

fn names(list: &[&str]) -> Vec<String> {
    list.iter().map(|n| n.to_string()).collect()
}

fn var(name: &str) -> X86Arg {
    X86Arg::Var(s(name))
}

fn rax() -> X86Arg {
    X86Arg::Reg(Reg::RAX)
}

fn sum_body() -> Vec<X86> {
    vec![
        X86::Mov(var("tmp1"), X86Arg::Imm(13)),
        X86::Add(var("tmp1"), X86Arg::Imm(14)),
        X86::Mov(var("tmp2"), X86Arg::Imm(12)),
        X86::Add(var("tmp2"), var("tmp1")),
        X86::Mov(rax(), var("tmp2")),
    ]
}

fn branch_body() -> Vec<X86> {
    vec![
        X86::If(
            Box::new(X86::EqP(X86Arg::Imm(0), X86Arg::Imm(0))),
            vec![
                X86::Mov(var("tmp1"), X86Arg::Imm(1)),
                X86::Add(var("tmp1"), X86Arg::Imm(2)),
                X86::Mov(var("if1"), var("tmp1")),
            ],
            vec![
                X86::Mov(var("tmp2"), X86Arg::Imm(3)),
                X86::Add(var("tmp2"), X86Arg::Imm(4)),
                X86::Mov(var("if1"), var("tmp2")),
            ],
        ),
        X86::Mov(rax(), var("if1")),
    ]
}

fn reads(instr: &X86) -> Vec<String> {
    match instr {
        X86::If(cnd, _, _) | X86::IfWithLives(cnd, _, _, _, _) => match &**cnd {
            X86::EqP(left, right) => {
                let mut all = arg_var_names(left);
                all.extend(arg_var_names(right));
                all
            }
            _ => vec![],
        },
        other => instruction_rw(other).map(|(_, read, _)| read).unwrap_or_default(),
    }
}

fn sound(instrs: &[X86], sets: &[Vec<String>], before: &[String]) -> bool {
    if instrs.len() != sets.len() {
        return false;
    }
    instrs.iter().enumerate().all(|(i, instr)| {
        let previous: &[String] = if i == 0 { before } else { &sets[i - 1] };
        reads(instr).iter().all(|v| previous.contains(v))
            && match instr {
                X86::IfWithLives(_, thn, thn_sets, els, els_sets) => {
                    sound(thn, thn_sets, &sets[i]) && sound(els, els_sets, &sets[i])
                }
                _ => true,
            }
    })
}

#[test]
fn move_reads_its_source_and_writes_its_destination() {
    assert_eq!(
        instruction_rw(&X86::Mov(var("d"), var("x"))),
        Ok((names(&["d", "x"]), names(&["x"]), names(&["d"])))
    );
    assert_eq!(
        instruction_rw(&X86::Mov(var("d"), X86Arg::Imm(1))),
        Ok((names(&["d"]), vec![], names(&["d"])))
    );
    assert_eq!(
        instruction_rw(&X86::Mov(rax(), var("x"))),
        Ok((names(&["x"]), names(&["x"]), vec![]))
    );
    assert_eq!(instruction_rw(&X86::Mov(rax(), X86Arg::Imm(1))), Ok((vec![], vec![], vec![])));
    assert_eq!(
        instruction_rw(&X86::Mov(X86Arg::RegOffset(Reg::RBP, -8), rax())),
        Ok((vec![], vec![], vec![]))
    );
}

#[test]
fn add_reads_both_operands() {
    assert_eq!(
        instruction_rw(&X86::Add(var("d"), var("x"))),
        Ok((names(&["d", "x"]), names(&["d", "x"]), names(&["d"])))
    );
    assert_eq!(
        instruction_rw(&X86::Add(var("d"), X86Arg::Imm(1))),
        Ok((names(&["d"]), names(&["d"]), names(&["d"])))
    );
}

#[test]
fn compare_and_call_write_nothing() {
    assert_eq!(
        instruction_rw(&X86::Cmp(var("l"), var("r"))),
        Ok((names(&["l", "r"]), names(&["l", "r"]), vec![]))
    );
    assert_eq!(
        instruction_rw(&X86::Cmp(X86Arg::Imm(1), var("r"))),
        Ok((names(&["r"]), names(&["r"]), vec![]))
    );
    assert_eq!(instruction_rw(&X86::Call(s("f"))), Ok((vec![], vec![], vec![])));
}

#[test]
fn other_instructions_have_no_analysis() {
    assert_eq!(instruction_rw(&X86::Jmp(s("l"))), Err(CompileError::UnsupportedInstruction));
    assert_eq!(instruction_rw(&X86::Label(s("l"))), Err(CompileError::UnsupportedInstruction));
    assert_eq!(
        instruction_rw(&X86::EqP(var("a"), var("b"))),
        Err(CompileError::UnsupportedInstruction)
    );
    assert_eq!(
        instruction_rw(&X86::If(Box::new(X86::EqP(var("a"), var("b"))), vec![], vec![])),
        Err(CompileError::UnsupportedInstruction)
    );
    assert_eq!(
        get_live_after_sets(&vec![X86::Mov(rax(), var("x")), X86::Jmp(s("l"))], &vec![]),
        Err(CompileError::UnsupportedInstruction)
    );
}

#[test]
fn sets_are_live_after_and_in_the_order_of_the_instructions() {
    let body = sum_body();
    let (inflow, sets, annotated) = get_live_after_sets(&body, &vec![]).unwrap();
    assert_eq!(inflow, names(&[]));
    assert_eq!(
        sets,
        vec![
            names(&["tmp1"]),
            names(&["tmp1"]),
            names(&["tmp2", "tmp1"]),
            names(&["tmp2"]),
            names(&[]),
        ]
    );
    assert_eq!(annotated, body);
}

#[test]
fn what_is_live_at_the_end_is_live_after_the_last_instruction() {
    let body = vec![X86::Mov(var("a"), var("b"))];
    let (inflow, sets, _) = get_live_after_sets(&body, &names(&["a", "c"])).unwrap();
    assert_eq!(sets, vec![names(&["a", "c"])]);
    assert_eq!(inflow, names(&["c", "b"]));
}

#[test]
fn merge_variable_is_live_after_the_conditional() {
    let (inflow, sets, annotated) = get_live_after_sets(&branch_body(), &vec![]).unwrap();
    assert_eq!(sets, vec![names(&["if1"]), names(&[])]);
    assert!(sets[0].contains(&s("if1")));
    assert_eq!(inflow, names(&["if1"]));
    match &annotated[0] {
        X86::IfWithLives(cnd, thn, thn_sets, els, els_sets) => {
            assert_eq!(**cnd, X86::EqP(X86Arg::Imm(0), X86Arg::Imm(0)));
            assert_eq!(thn.len(), 3);
            assert_eq!(els.len(), 3);
            assert_eq!(
                *thn_sets,
                vec![names(&["tmp1"]), names(&["tmp1"]), names(&["if1"])]
            );
            assert_eq!(
                *els_sets,
                vec![names(&["tmp2"]), names(&["tmp2"]), names(&["if1"])]
            );
        }
        other => panic!("not annotated: {:?}", other),
    }
    assert_eq!(annotated[1], X86::Mov(rax(), var("if1")));
}

#[test]
fn conditional_records_what_its_condition_and_branches_need() {
    let body = vec![
        X86::If(
            Box::new(X86::EqP(var("c"), var("d"))),
            vec![X86::Mov(var("r"), var("t"))],
            vec![X86::Mov(var("r"), var("e"))],
        ),
        X86::Mov(rax(), var("r")),
    ];
    let (inflow, sets, _) = get_live_after_sets(&body, &vec![]).unwrap();
    assert_eq!(sets[0], names(&["r", "t", "e", "c", "d"]));
    assert_eq!(inflow, names(&["r", "t", "e", "c", "d"]));
}

#[test]
fn condition_must_be_an_equality_test() {
    let body = vec![X86::If(Box::new(X86::Cmp(var("c"), var("d"))), vec![], vec![])];
    assert_eq!(get_live_after_sets(&body, &vec![]), Err(CompileError::UnsupportedCondition));
}

#[test]
fn uncover_live_annotates_definitions_and_programs() {
    let define = X86::Define(s("f"), names(&["tmp1", "tmp2"]), sum_body());
    let expected_sets = vec![
        names(&["tmp1"]),
        names(&["tmp1"]),
        names(&["tmp2", "tmp1"]),
        names(&["tmp2"]),
        names(&[]),
    ];
    assert_eq!(
        uncover_live(&define),
        Ok(X86::DefineWithLives(
            s("f"),
            names(&["tmp1", "tmp2"]),
            expected_sets.clone(),
            sum_body()
        ))
    );
    let program = X86::Prog(vec![define], vec![X86::Mov(rax(), X86Arg::Imm(1))], vec![]);
    assert_eq!(
        uncover_live(&program),
        Ok(X86::ProgWithLives(
            vec![X86::DefineWithLives(s("f"), names(&["tmp1", "tmp2"]), expected_sets, sum_body())],
            vec![X86::Mov(rax(), X86Arg::Imm(1))],
            vec![],
            vec![vec![]],
        ))
    );
}

#[test]
fn uncover_live_wants_a_program() {
    assert_eq!(uncover_live(&X86::Jmp(s("l"))), Err(CompileError::NotTopLevel));
    assert_eq!(
        uncover_live(&X86::Prog(vec![X86::Label(s("l"))], vec![], vec![])),
        Err(CompileError::NotTopLevel)
    );
}

#[test]
fn every_read_is_live_after_the_instruction_before() {
    for body in [sum_body(), branch_body()] {
        let (inflow, sets, annotated) = get_live_after_sets(&body, &vec![]).unwrap();
        assert!(sound(&annotated, &sets, &inflow));
    }
    let nested = vec![
        X86::Mov(var("a"), X86Arg::Imm(1)),
        X86::If(
            Box::new(X86::EqP(var("a"), X86Arg::Imm(1))),
            vec![X86::If(
                Box::new(X86::EqP(var("a"), var("b"))),
                vec![X86::Mov(var("r"), var("a"))],
                vec![X86::Mov(var("r"), var("b"))],
            )],
            vec![X86::Mov(var("r"), X86Arg::Imm(0)), X86::Add(var("r"), var("c"))],
        ),
        X86::Add(var("r"), var("a")),
        X86::Mov(rax(), var("r")),
    ];
    let (inflow, sets, annotated) = get_live_after_sets(&nested, &vec![]).unwrap();
    assert!(sound(&annotated, &sets, &inflow));
    assert_eq!(sets.len(), nested.len());
}

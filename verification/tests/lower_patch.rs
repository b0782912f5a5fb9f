use lispc::ast::CC;
use lispc::error::CompileError;
use lispc::lower::{lower_conditionals, lower_if};
use lispc::names::NameSupply;
use lispc::patch::{patch_instructions, patch_single_instr};
use lispc::x86::{Reg, X86Arg, X86};

fn s(name: &str) -> String {
    name.to_string()
}

fn reg(r: Reg) -> X86Arg {
    X86Arg::Reg(r)
}

fn rax() -> X86Arg {
    X86Arg::Reg(Reg::RAX)
}

fn slot(k: i32) -> X86Arg {
    X86Arg::RegOffset(Reg::RBP, -8 * k)
}

fn branch(left: X86Arg, right: X86Arg, thn: Vec<X86>, els: Vec<X86>) -> X86 {
    X86::If(Box::new(X86::EqP(left, right)), thn, els)
}

fn is_mem(arg: &X86Arg) -> bool {
    matches!(arg, X86Arg::RegOffset(_, _))
}

fn legal(instr: &X86) -> bool {
    match instr {
        X86::Mov(a, b) | X86::Add(a, b) => !(is_mem(a) && is_mem(b)),
        X86::Cmp(a, b) => !(is_mem(a) && is_mem(b)) && !matches!(a, X86Arg::Imm(_)),
        _ => true,
    }
}

#[test]
fn conditional_becomes_compare_jumps_and_labels() {
    let mut names = NameSupply::new();
    let instr = branch(
        reg(Reg::RBX),
        X86Arg::Imm(1),
        vec![X86::Mov(rax(), X86Arg::Imm(42))],
        vec![X86::Mov(rax(), X86Arg::Imm(99))],
    );
    assert_eq!(
        lower_if(&instr, &mut names),
        Ok(vec![
            X86::Cmp(X86Arg::Imm(1), reg(Reg::RBX)),
            X86::JmpIf(CC::E, s("then1")),
            X86::Mov(rax(), X86Arg::Imm(99)),
            X86::Jmp(s("endif1")),
            X86::Label(s("then1")),
            X86::Mov(rax(), X86Arg::Imm(42)),
            X86::Label(s("endif1")),
        ])
    );
    assert_eq!(names.count("then"), 1);
    assert_eq!(names.count("endif"), 1);
}

#[test]
fn nested_conditionals_name_the_else_branch_first() {
    let mut names = NameSupply::new();
    let instr = branch(
        rax(),
        rax(),
        vec![branch(reg(Reg::RBX), rax(), vec![], vec![])],
        vec![branch(reg(Reg::RCX), rax(), vec![], vec![])],
    );
    assert_eq!(
        lower_if(&instr, &mut names),
        Ok(vec![
            X86::Cmp(rax(), rax()),
            X86::JmpIf(CC::E, s("then1")),
            X86::Cmp(rax(), reg(Reg::RCX)),
            X86::JmpIf(CC::E, s("then2")),
            X86::Jmp(s("endif2")),
            X86::Label(s("then2")),
            X86::Label(s("endif2")),
            X86::Jmp(s("endif1")),
            X86::Label(s("then1")),
            X86::Cmp(rax(), reg(Reg::RBX)),
            X86::JmpIf(CC::E, s("then3")),
            X86::Jmp(s("endif3")),
            X86::Label(s("then3")),
            X86::Label(s("endif3")),
            X86::Label(s("endif1")),
        ])
    );
}

#[test]
fn other_instructions_stay() {
    let mut names = NameSupply::new();
    let instr = X86::Mov(rax(), slot(1));
    assert_eq!(lower_if(&instr, &mut names), Ok(vec![X86::Mov(rax(), slot(1))]));
    assert_eq!(lower_if(&X86::Call(s("f")), &mut names), Ok(vec![X86::Call(s("f"))]));
    assert_eq!(names.count("then"), 0);
    assert_eq!(names.count("endif"), 0);
}

#[test]
fn lowering_wants_an_equality_test() {
    let mut names = NameSupply::new();
    let instr = X86::If(Box::new(X86::Cmp(rax(), rax())), vec![], vec![]);
    assert_eq!(lower_if(&instr, &mut names), Err(CompileError::UnsupportedCondition));
}

#[test]
fn lowering_needs_a_name_for_each_label() {
    let instr = branch(rax(), rax(), vec![], vec![]);
    let mut names = NameSupply::new();
    names.set_count("then", u64::MAX);
    assert_eq!(lower_if(&instr, &mut names), Err(CompileError::NamesExhausted));
    let mut names = NameSupply::new();
    names.set_count("endif", u64::MAX);
    assert_eq!(lower_if(&instr, &mut names), Err(CompileError::NamesExhausted));
    let mut names = NameSupply::new();
    names.set_count("then", u64::MAX - 1);
    names.set_count("endif", 6);
    assert_eq!(
        lower_if(&instr, &mut names),
        Ok(vec![
            X86::Cmp(rax(), rax()),
            X86::JmpIf(CC::E, s("then18446744073709551615")),
            X86::Jmp(s("endif7")),
            X86::Label(s("then18446744073709551615")),
            X86::Label(s("endif7")),
        ])
    );
}

#[test]
fn program_lowers_its_main_body_before_its_definitions() {
    let mut names = NameSupply::new();
    let program = X86::Prog(
        vec![X86::Define(s("f"), vec![s("v")], vec![branch(rax(), rax(), vec![], vec![])])],
        vec![branch(rax(), X86Arg::Imm(0), vec![], vec![]), X86::Mov(rax(), X86Arg::Imm(1))],
        vec![s("w")],
    );
    assert_eq!(
        lower_conditionals(&program, &mut names),
        Ok(X86::Prog(
            vec![X86::Define(
                s("f"),
                vec![s("v")],
                vec![
                    X86::Cmp(rax(), rax()),
                    X86::JmpIf(CC::E, s("then2")),
                    X86::Jmp(s("endif2")),
                    X86::Label(s("then2")),
                    X86::Label(s("endif2")),
                ],
            )],
            vec![
                X86::Cmp(X86Arg::Imm(0), rax()),
                X86::JmpIf(CC::E, s("then1")),
                X86::Jmp(s("endif1")),
                X86::Label(s("then1")),
                X86::Label(s("endif1")),
                X86::Mov(rax(), X86Arg::Imm(1)),
            ],
            vec![s("w")],
        ))
    );
}

#[test]
fn lowering_wants_a_program() {
    let mut names = NameSupply::new();
    assert_eq!(
        lower_conditionals(&X86::Mov(rax(), rax()), &mut names),
        Err(CompileError::NotTopLevel)
    );
    assert_eq!(
        lower_conditionals(&X86::Prog(vec![X86::Call(s("f"))], vec![], vec![]), &mut names),
        Err(CompileError::NotTopLevel)
    );
}

#[test]
fn move_between_memory_cells_goes_through_the_accumulator() {
    assert_eq!(
        patch_single_instr(&X86::Mov(slot(1), slot(2))),
        vec![X86::Mov(rax(), slot(2)), X86::Mov(slot(1), rax())]
    );
    assert_eq!(
        patch_single_instr(&X86::Mov(X86Arg::RegOffset(Reg::RBX, 8), slot(2))),
        vec![X86::Mov(rax(), slot(2)), X86::Mov(X86Arg::RegOffset(Reg::RBX, 8), rax())]
    );
}

#[test]
fn addition_of_memory_cells_is_done_in_the_accumulator() {
    assert_eq!(
        patch_single_instr(&X86::Add(slot(1), slot(2))),
        vec![X86::Mov(rax(), slot(1)), X86::Add(rax(), slot(2)), X86::Mov(slot(1), rax())]
    );
}

#[test]
fn immediate_first_operand_of_a_compare_is_loaded() {
    assert_eq!(
        patch_single_instr(&X86::Cmp(X86Arg::Imm(1), X86Arg::Imm(1))),
        vec![X86::Mov(rax(), X86Arg::Imm(1)), X86::Cmp(rax(), X86Arg::Imm(1))]
    );
    assert_eq!(
        patch_single_instr(&X86::Cmp(X86Arg::Imm(0), slot(1))),
        vec![X86::Mov(rax(), X86Arg::Imm(0)), X86::Cmp(rax(), slot(1))]
    );
}

#[test]
fn legal_instructions_pass_through() {
    let legal_ones = vec![
        X86::Mov(slot(1), rax()),
        X86::Mov(rax(), slot(1)),
        X86::Mov(slot(1), X86Arg::Imm(4)),
        X86::Add(reg(Reg::RBX), slot(1)),
        X86::Add(slot(1), X86Arg::Imm(4)),
        X86::Cmp(reg(Reg::RBX), X86Arg::Imm(4)),
        X86::Cmp(slot(1), reg(Reg::RBX)),
        X86::Call(s("f")),
        X86::Jmp(s("l")),
        X86::JmpIf(CC::E, s("l")),
        X86::Label(s("l")),
    ];
    for instr in legal_ones {
        assert_eq!(patch_single_instr(&instr), vec![instr.clone()]);
    }
}

#[test]
fn compare_of_two_memory_cells_passes_through() {
    assert_eq!(
        patch_single_instr(&X86::Cmp(slot(1), slot(2))),
        vec![X86::Cmp(slot(1), slot(2))]
    );
}

#[test]
fn patching_covers_every_body() {
    let body = vec![
        X86::Mov(slot(1), slot(2)),
        X86::Add(slot(1), slot(2)),
        X86::Cmp(X86Arg::Imm(1), slot(1)),
        X86::Mov(rax(), slot(1)),
    ];
    let patched_body = vec![
        X86::Mov(rax(), slot(2)),
        X86::Mov(slot(1), rax()),
        X86::Mov(rax(), slot(1)),
        X86::Add(rax(), slot(2)),
        X86::Mov(slot(1), rax()),
        X86::Mov(rax(), X86Arg::Imm(1)),
        X86::Cmp(rax(), slot(1)),
        X86::Mov(rax(), slot(1)),
    ];
    let program = X86::Prog(
        vec![X86::Define(s("f"), vec![s("v")], body.clone())],
        body,
        vec![s("w")],
    );
    let patched = patch_instructions(&program).unwrap();
    assert_eq!(
        patched,
        X86::Prog(
            vec![X86::Define(s("f"), vec![s("v")], patched_body.clone())],
            patched_body.clone(),
            vec![s("w")],
        )
    );
    assert!(patched_body.iter().all(legal));
}

#[test]
fn patching_wants_a_program() {
    assert_eq!(patch_instructions(&X86::Mov(rax(), rax())), Err(CompileError::NotTopLevel));
    assert_eq!(
        patch_instructions(&X86::Prog(vec![X86::Label(s("l"))], vec![], vec![])),
        Err(CompileError::NotTopLevel)
    );
}

use lispc::anf::{Flat, FlatResult};
use lispc::ast::CC;
use lispc::error::CompileError;
use lispc::select::{arg_reg, flat_arg_type, flat_to_px86, select_instructions};
use lispc::x86::{Reg, X86Arg, X86};

fn s(name: &str) -> String {
    name.to_string()
}

fn sym(name: &str) -> Flat {
    Flat::Symbol(s(name))
}

fn var(name: &str) -> X86Arg {
    X86Arg::Var(s(name))
}

fn reg(r: Reg) -> X86Arg {
    X86Arg::Reg(r)
}

fn assign(name: &str, value: Flat) -> Flat {
    Flat::Assign(s(name), Box::new(value))
}

fn numbers(n: i64) -> Vec<Flat> {
    (1..=n).map(Flat::Number).collect()
}

#[test]
fn atoms_become_operands() {
    assert_eq!(flat_arg_type(&sym("x")), Ok(var("x")));
    assert_eq!(flat_arg_type(&Flat::Number(42)), Ok(X86Arg::Imm(42)));
    assert_eq!(flat_arg_type(&Flat::Number(-7)), Ok(X86Arg::Imm(-7)));
    assert_eq!(flat_arg_type(&Flat::Bool(true)), Ok(X86Arg::Imm(1)));
    assert_eq!(flat_arg_type(&Flat::Bool(false)), Ok(X86Arg::Imm(0)));
}

#[test]
fn immediates_have_32_bits() {
    assert_eq!(flat_arg_type(&Flat::Number(2147483647)), Ok(X86Arg::Imm(i32::MAX)));
    assert_eq!(flat_arg_type(&Flat::Number(-2147483648)), Ok(X86Arg::Imm(i32::MIN)));
    assert_eq!(flat_arg_type(&Flat::Number(2147483648)), Err(CompileError::ImmediateOutOfRange));
    assert_eq!(flat_arg_type(&Flat::Number(-2147483649)), Err(CompileError::ImmediateOutOfRange));
    assert_eq!(flat_arg_type(&Flat::Number(i64::MAX)), Err(CompileError::ImmediateOutOfRange));
    assert_eq!(
        flat_to_px86(&assign("x", Flat::Number(1 << 40))),
        Err(CompileError::ImmediateOutOfRange)
    );
}

#[test]
fn compounds_are_no_operands() {
    assert_eq!(flat_arg_type(&Flat::FuncName(s("f"))), Err(CompileError::UnsupportedExpression));
    assert_eq!(flat_arg_type(&Flat::Tuple(vec![])), Err(CompileError::UnsupportedExpression));
    assert_eq!(
        flat_arg_type(&Flat::Prim(s("+"), numbers(2))),
        Err(CompileError::UnsupportedExpression)
    );
}

#[test]
fn argument_registers_follow_the_calling_convention() {
    let order: Vec<Reg> = (0..6).map(arg_reg).collect();
    assert_eq!(order, vec![Reg::RDI, Reg::RSI, Reg::RDX, Reg::RCX, Reg::R8, Reg::R9]);
}

#[test]
fn assignment_of_an_atom_is_one_move() {
    assert_eq!(
        flat_to_px86(&assign("d", sym("x"))),
        Ok(vec![X86::Mov(var("d"), var("x"))])
    );
    assert_eq!(
        flat_to_px86(&assign("d", Flat::Number(5))),
        Ok(vec![X86::Mov(var("d"), X86Arg::Imm(5))])
    );
    assert_eq!(
        flat_to_px86(&assign("d", Flat::Bool(true))),
        Ok(vec![X86::Mov(var("d"), X86Arg::Imm(1))])
    );
}

#[test]
fn addition_is_a_move_and_an_add() {
    assert_eq!(
        flat_to_px86(&assign("d", Flat::Prim(s("+"), vec![Flat::Number(12), sym("tmp1")]))),
        Ok(vec![
            X86::Mov(var("d"), X86Arg::Imm(12)),
            X86::Add(var("d"), var("tmp1")),
        ])
    );
}

#[test]
fn call_loads_the_argument_registers_in_order() {
    assert_eq!(
        flat_to_px86(&assign("d", Flat::App(s("f"), numbers(6)))),
        Ok(vec![
            X86::Mov(reg(Reg::RDI), X86Arg::Imm(1)),
            X86::Mov(reg(Reg::RSI), X86Arg::Imm(2)),
            X86::Mov(reg(Reg::RDX), X86Arg::Imm(3)),
            X86::Mov(reg(Reg::RCX), X86Arg::Imm(4)),
            X86::Mov(reg(Reg::R8), X86Arg::Imm(5)),
            X86::Mov(reg(Reg::R9), X86Arg::Imm(6)),
            X86::Call(s("f")),
            X86::Mov(var("d"), reg(Reg::RAX)),
        ])
    );
    assert_eq!(
        flat_to_px86(&assign("d", Flat::App(s("f"), vec![]))),
        Ok(vec![X86::Call(s("f")), X86::Mov(var("d"), reg(Reg::RAX))])
    );
}

#[test]
fn more_than_six_arguments_are_refused() {
    assert_eq!(
        flat_to_px86(&assign("d", Flat::App(s("f"), numbers(7)))),
        Err(CompileError::TooManyArguments)
    );
    let define = FlatResult::Define(
        s("f"),
        vec![s("a"), s("b"), s("c"), s("d"), s("e"), s("f"), s("g")],
        vec![],
        vec![],
    );
    assert_eq!(select_instructions(&define), Err(CompileError::TooManyArguments));
}

#[test]
fn return_moves_to_the_accumulator() {
    assert_eq!(
        flat_to_px86(&Flat::Return(Box::new(sym("tmp2")))),
        Ok(vec![X86::Mov(reg(Reg::RAX), var("tmp2"))])
    );
    assert_eq!(
        flat_to_px86(&Flat::Return(Box::new(Flat::Tuple(vec![])))),
        Err(CompileError::UnsupportedExpression)
    );
}

#[test]
fn conditional_on_equality_stays_structured() {
    let stmt = Flat::If(
        Box::new(Flat::Cmp(CC::E, Box::new(sym("a")), Box::new(Flat::Number(1)))),
        vec![assign("r", Flat::Number(42))],
        vec![assign("t", Flat::Prim(s("+"), numbers(2))), assign("r", sym("t"))],
    );
    assert_eq!(
        flat_to_px86(&stmt),
        Ok(vec![X86::If(
            Box::new(X86::EqP(var("a"), X86Arg::Imm(1))),
            vec![X86::Mov(var("r"), X86Arg::Imm(42))],
            vec![
                X86::Mov(var("t"), X86Arg::Imm(1)),
                X86::Add(var("t"), X86Arg::Imm(2)),
                X86::Mov(var("r"), var("t")),
            ],
        )])
    );
}

#[test]
fn other_conditions_are_refused() {
    let on_atom = Flat::If(Box::new(sym("x")), vec![], vec![]);
    assert_eq!(flat_to_px86(&on_atom), Err(CompileError::UnsupportedCondition));
    let on_less = Flat::If(
        Box::new(Flat::Cmp(CC::L, Box::new(sym("a")), Box::new(sym("b")))),
        vec![],
        vec![],
    );
    assert_eq!(flat_to_px86(&on_less), Err(CompileError::UnsupportedCondition));
}

#[test]
fn only_addition_has_instructions() {
    assert_eq!(
        flat_to_px86(&assign("d", Flat::Prim(s("-"), numbers(1)))),
        Err(CompileError::UnsupportedPrimitive)
    );
    assert_eq!(
        flat_to_px86(&assign("d", Flat::Prim(s("tuple-ref"), numbers(2)))),
        Err(CompileError::UnsupportedPrimitive)
    );
    assert_eq!(
        flat_to_px86(&assign("d", Flat::Prim(s("+"), numbers(3)))),
        Err(CompileError::BadArity)
    );
}

#[test]
fn other_shapes_are_refused() {
    assert_eq!(
        flat_to_px86(&assign("d", Flat::Tuple(numbers(2)))),
        Err(CompileError::UnsupportedExpression)
    );
    assert_eq!(
        flat_to_px86(&assign(
            "d",
            Flat::Cmp(CC::E, Box::new(Flat::Number(1)), Box::new(Flat::Number(1)))
        )),
        Err(CompileError::UnsupportedExpression)
    );
    assert_eq!(flat_to_px86(&sym("x")), Err(CompileError::UnsupportedExpression));
    assert_eq!(flat_to_px86(&Flat::Number(1)), Err(CompileError::UnsupportedExpression));
}

#[test]
fn definition_starts_with_the_moves_of_its_parameters() {
    let define = FlatResult::Define(
        s("foo"),
        vec![s("x"), s("y"), s("z")],
        vec![
            assign("tmp3", Flat::Prim(s("+"), vec![sym("x"), Flat::Number(10)])),
            Flat::Return(Box::new(sym("tmp3"))),
        ],
        vec![s("tmp3")],
    );
    assert_eq!(
        select_instructions(&define),
        Ok(X86::Define(
            s("foo"),
            vec![s("tmp3"), s("x"), s("y"), s("z")],
            vec![
                X86::Mov(var("x"), reg(Reg::RDI)),
                X86::Mov(var("y"), reg(Reg::RSI)),
                X86::Mov(var("z"), reg(Reg::RDX)),
                X86::Mov(var("tmp3"), var("x")),
                X86::Add(var("tmp3"), X86Arg::Imm(10)),
                X86::Mov(reg(Reg::RAX), var("tmp3")),
            ],
        ))
    );
}

#[test]
fn program_selects_for_definitions_and_main_body() {
    let program = FlatResult::Prog(
        vec![FlatResult::Define(s("one"), vec![], vec![Flat::Return(Box::new(Flat::Number(1)))], vec![])],
        vec![
            assign("tmp1", Flat::App(s("one"), vec![])),
            Flat::Return(Box::new(sym("tmp1"))),
        ],
        vec![s("tmp1")],
    );
    assert_eq!(
        select_instructions(&program),
        Ok(X86::Prog(
            vec![X86::Define(s("one"), vec![], vec![X86::Mov(reg(Reg::RAX), X86Arg::Imm(1))])],
            vec![
                X86::Call(s("one")),
                X86::Mov(var("tmp1"), reg(Reg::RAX)),
                X86::Mov(reg(Reg::RAX), var("tmp1")),
            ],
            vec![s("tmp1")],
        ))
    );
}

#[test]
fn expression_is_no_program() {
    assert_eq!(
        select_instructions(&FlatResult::Flat(Flat::Number(1), vec![], vec![])),
        Err(CompileError::NotTopLevel)
    );
    let program = FlatResult::Prog(
        vec![FlatResult::Flat(Flat::Number(1), vec![], vec![])],
        vec![],
        vec![],
    );
    assert_eq!(select_instructions(&program), Err(CompileError::NotTopLevel));
}

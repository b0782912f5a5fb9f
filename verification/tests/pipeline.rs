use lispc::anf::flatten;
use lispc::compile::{compile, compile_source};
use lispc::error::CompileError;
use lispc::homes::{assign_homes, decide_locs};
use lispc::liveness::uncover_live;
use lispc::lower::lower_conditionals;
use lispc::names::NameSupply;
use lispc::parser::parse_program;
use lispc::patch::patch_instructions;
use lispc::select::select_instructions;
use lispc::uniquify::uniquify;
use lispc::x86::{Reg, X86Arg, X86};

const HEADER: &str = "section .text\nextern print_int\nglobal main\n";
const SAVE: &str = "    push rbx\n    push r12\n    push r13\n    push r14\n";
const RESTORE: &str = "    pop r14\n    pop r13\n    pop r12\n    pop rbx\n";

fn function(name: &str, frame: u32, body: &str, tail: &str) -> String {
    format!(
        "{}:\n    push rbp\n    mov rbp, rsp\n    sub rsp, {}\n{}{}{}{}    add rsp, {}\n    mov rsp, rbp\n    pop rbp\n    ret\n",
        name, frame, SAVE, body, tail, RESTORE, frame
    )
}

fn main_text(frame: u32, body: &str) -> String {
    format!(
        "{}{}",
        HEADER,
        function("main", frame, body, "    mov rdi, rax\n    call print_int\n")
    )
}

/// The program after home assignment, lowering and patching, with its name supply.
fn lowered(source: &str) -> X86 {
    let program = parse_program(source).unwrap();
    let mut names = NameSupply::new();
    let mut mapping = Vec::new();
    let unique = uniquify(&mut mapping, &program, &mut names).unwrap();
    let flat = flatten(&unique, &mut names).unwrap();
    let selected = select_instructions(&flat).unwrap();
    let annotated = uncover_live(&selected).unwrap();
    let placed = assign_homes(&annotated).unwrap();
    let lowered = lower_conditionals(&placed, &mut names).unwrap();
    patch_instructions(&lowered).unwrap()
}

fn annotated(source: &str) -> X86 {
    let program = parse_program(source).unwrap();
    let mut names = NameSupply::new();
    let mut mapping = Vec::new();
    let unique = uniquify(&mut mapping, &program, &mut names).unwrap();
    let flat = flatten(&unique, &mut names).unwrap();
    uncover_live(&select_instructions(&flat).unwrap()).unwrap()
}

fn main_body(program: &X86) -> &Vec<X86> {
    match program {
        X86::Prog(_, instrs, _) => instrs,
        other => panic!("not a program: {:?}", other),
    }
}

fn is_mem(arg: &X86Arg) -> bool {
    matches!(arg, X86Arg::RegOffset(_, _))
}

#[test]
fn nested_sum_compiles_to_two_additions() {
    assert_eq!(
        compile_source("(+ 12 (+ 13 14))"),
        Ok(main_text(
            0,
            "    mov rcx, 13\n    add rcx, 14\n    mov rdx, 12\n    add rdx, rcx\n    mov rax, rdx\n"
        ))
    );
}

#[test]
fn let_bound_variable_lives_in_a_register() {
    assert_eq!(
        compile_source("(let ((x 10)) (+ x 5))"),
        Ok(main_text(
            0,
            "    mov rcx, 10\n    mov rdx, rcx\n    add rdx, 5\n    mov rax, rdx\n"
        ))
    );
}

#[test]
fn conditional_lowers_to_one_compare_two_jumps_and_two_labels() {
    let text = compile_source("(if (= 1 1) 42 99)").unwrap();
    assert_eq!(
        text,
        main_text(
            0,
            "    mov rax, 1\n    cmp rax, 1\n    je then1\n    mov rcx, 99\n    jmp endif1\nthen1:\n    mov rcx, 42\nendif1:\n    mov rax, rcx\n"
        )
    );
    let lines: Vec<&str> = text.lines().collect();
    assert_eq!(lines.iter().filter(|l| l.starts_with("    cmp ")).count(), 1);
    assert_eq!(lines.iter().filter(|l| l.starts_with("    je ")).count(), 1);
    assert_eq!(lines.iter().filter(|l| l.starts_with("    jmp ")).count(), 1);
    let labels = lines.iter().filter(|l| l.ends_with(':') && **l != "main:").count();
    assert_eq!(labels, 2);
}

#[test]
fn function_moves_its_parameters_out_of_the_argument_registers() {
    let text = compile_source("(define (foo x y z) (+ x 10)) 0").unwrap();
    let foo = function(
        "foo",
        16,
        "    mov rcx, rdi\n    mov QWORD [rbp-8], rsi\n    mov QWORD [rbp-16], rdx\n    mov rdx, rcx\n    add rdx, 10\n    mov rax, rdx\n",
        "",
    );
    let main = main_text(0, "    mov rax, 0\n");
    assert_eq!(text, format!("{}{}", main, foo));
    // The call of `foo` becomes the reference to `foo` in its closure, a tuple, for
    // which there are no instructions.
    assert_eq!(
        compile_source("(define (foo x y z) (+ x 10)) (foo 1 2 3)"),
        Err(CompileError::UnsupportedExpression)
    );
}

#[test]
fn unused_parameters_are_never_live_and_get_slots() {
    let program = annotated("(define (foo x y z) (+ x 10)) 0");
    let (vars, sets, instrs) = match &program {
        X86::ProgWithLives(defs, _, _, _) => match &defs[0] {
            X86::DefineWithLives(name, vars, sets, instrs) => {
                assert_eq!(name, "foo");
                (vars, sets, instrs)
            }
            other => panic!("not a definition: {:?}", other),
        },
        other => panic!("not a program: {:?}", other),
    };
    assert_eq!(*vars, vec!["tmp1", "x1", "y1", "z1"]);
    assert_eq!(
        instrs[..3],
        [
            X86::Mov(X86Arg::Var("x1".to_string()), X86Arg::Reg(Reg::RDI)),
            X86::Mov(X86Arg::Var("y1".to_string()), X86Arg::Reg(Reg::RSI)),
            X86::Mov(X86Arg::Var("z1".to_string()), X86Arg::Reg(Reg::RDX)),
        ]
    );
    assert!(sets.iter().all(|set| !set.contains(&"y1".to_string()) && !set.contains(&"z1".to_string())));
    assert_eq!(
        decide_locs(vars, instrs, sets),
        Ok(vec![
            ("tmp1".to_string(), X86Arg::Reg(Reg::RDX)),
            ("x1".to_string(), X86Arg::Reg(Reg::RCX)),
            ("y1".to_string(), X86Arg::RegOffset(Reg::RBP, -8)),
            ("z1".to_string(), X86Arg::RegOffset(Reg::RBP, -16)),
        ])
    );
}

#[test]
fn four_live_variables_force_spills_to_distinct_slots() {
    let source = "(let ((a 1) (b 2) (c 3) (d 4)) (+ a (+ b (+ c d))))";
    let program = annotated(source);
    let (vars, sets, instrs) = match &program {
        X86::ProgWithLives(_, instrs, vars, sets) => (vars, sets, instrs),
        other => panic!("not a program: {:?}", other),
    };
    let locs = decide_locs(vars, instrs, sets).unwrap();
    let spilled: Vec<i32> = locs
        .iter()
        .filter_map(|(_, home)| match home {
            X86Arg::RegOffset(Reg::RBP, offset) => Some(*offset),
            _ => None,
        })
        .collect();
    assert!(!spilled.is_empty());
    for (i, x) in spilled.iter().enumerate() {
        assert!(*x < 0 && *x % 8 == 0);
        for y in &spilled[i + 1..] {
            assert_ne!(x, y);
        }
    }
    let patched = lowered(source);
    for instr in main_body(&patched) {
        match instr {
            X86::Mov(a, b) | X86::Add(a, b) | X86::Cmp(a, b) => assert!(!(is_mem(a) && is_mem(b))),
            _ => {}
        }
    }
    assert_eq!(
        compile_source(source),
        Ok(main_text(
            24,
            "    mov rcx, 1\n    mov rdx, 2\n    mov rbx, 3\n    mov QWORD [rbp-16], 4\n    mov QWORD [rbp-24], rbx\n    mov rax, QWORD [rbp-24]\n    add rax, QWORD [rbp-16]\n    mov QWORD [rbp-24], rax\n    mov rbx, rdx\n    add rbx, QWORD [rbp-24]\n    mov rdx, rcx\n    add rdx, rbx\n    mov rax, rdx\n"
        ))
    );
}

#[test]
fn merge_variable_is_written_in_both_branches_and_live_after_them() {
    let program = annotated("(if (= 0 0) (+ 1 2) (+ 3 4))");
    let (sets, instrs) = match &program {
        X86::ProgWithLives(_, instrs, _, sets) => (sets, instrs),
        other => panic!("not a program: {:?}", other),
    };
    let merge = X86Arg::Var("if1".to_string());
    match &instrs[0] {
        X86::IfWithLives(_, thn, _, els, _) => {
            assert_eq!(thn.last(), Some(&X86::Mov(merge.clone(), X86Arg::Var("tmp1".to_string()))));
            assert_eq!(els.last(), Some(&X86::Mov(merge.clone(), X86Arg::Var("tmp2".to_string()))));
        }
        other => panic!("not a conditional: {:?}", other),
    }
    assert_eq!(instrs[1], X86::Mov(X86Arg::Reg(Reg::RAX), merge));
    assert!(sets[0].contains(&"if1".to_string()));
    assert_eq!(
        compile_source("(if (= 0 0) (+ 1 2) (+ 3 4))"),
        Ok(main_text(
            0,
            "    mov rax, 0\n    cmp rax, 0\n    je then1\n    mov rdx, 3\n    add rdx, 4\n    mov rbx, rdx\n    jmp endif1\nthen1:\n    mov rcx, 1\n    add rcx, 2\n    mov rbx, rcx\nendif1:\n    mov rax, rbx\n"
        ))
    );
}

#[test]
fn compile_takes_a_parsed_program() {
    let program = parse_program("(let ((x 10)) (+ x 5))").unwrap();
    assert_eq!(compile(&program), compile_source("(let ((x 10)) (+ x 5))"));
}

#[test]
fn literal_program_moves_to_the_accumulator() {
    assert_eq!(compile_source("42"), Ok(main_text(0, "    mov rax, 42\n")));
    assert_eq!(compile_source("#t"), Ok(main_text(0, "    mov rax, 1\n")));
}

#[test]
fn first_error_ends_the_compilation() {
    assert_eq!(compile_source(""), Err(CompileError::EmptyProgram));
    assert_eq!(compile_source("(+ 1"), Err(CompileError::UnexpectedEnd));
    assert_eq!(compile_source("1)"), Err(CompileError::UnbalancedParen));
    assert_eq!(compile_source("(if 1)"), Err(CompileError::MalformedForm));
    assert_eq!(compile_source("99999999999999999999"), Err(CompileError::NumberOutOfRange));
    assert_eq!(compile_source("(+ x 1)"), Err(CompileError::UnboundVariable));
    assert_eq!(compile_source("(+ 1 2 3)"), Err(CompileError::BadArity));
    assert_eq!(compile_source("(tuple-ref (tuple 1) (+ 0 0))"), Err(CompileError::NonLiteralIndex));
    assert_eq!(compile_source("(1 2)"), Err(CompileError::NotAFunction));
    assert_eq!(compile_source("(+ 1 (define (f) 1))"), Err(CompileError::NotAnExpression));
    assert_eq!(
        compile_source("(define (f a b c d e g h) 1) 0"),
        Err(CompileError::TooManyArguments)
    );
    assert_eq!(compile_source("(f 1 2 3 4 5 6 7)"), Err(CompileError::UnsupportedExpression));
    assert_eq!(compile_source("(- 1)"), Err(CompileError::UnsupportedPrimitive));
    assert_eq!(compile_source("(tuple 1 2)"), Err(CompileError::UnsupportedExpression));
    assert_eq!(compile_source("(if (< 1 2) 3 4)"), Err(CompileError::UnsupportedCondition));
    assert_eq!(compile_source("(if #t 3 4)"), Err(CompileError::UnsupportedCondition));
    assert_eq!(compile_source("(+ 1 4294967296)"), Err(CompileError::ImmediateOutOfRange));
    assert_eq!(compile_source("1 2"), Err(CompileError::NotTopLevel));
}

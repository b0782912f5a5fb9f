use lispc::anf::{dedup_names, Flat};
use lispc::assoc::{find_key, get, put};
use lispc::ast::CC;
use lispc::error::CompileError;
use lispc::names::{digit_str, is_name, push_decimal, push_signed_decimal, NameSupply};
use lispc::seqs::{append_deep, empty_deep, push_deep, reverse_deep};
use lispc::varset::{contains_name, insert_name, minus_names, union_names};
use lispc::x86::{copy_instr, copy_instrs, Reg, X86Arg, X86};

fn s(name: &str) -> String {
    name.to_string()
}

fn names(list: &[&str]) -> Vec<String> {
    list.iter().map(|n| n.to_string()).collect()
}

fn decimal(n: u64) -> String {
    let mut out = String::new();
    push_decimal(&mut out, n);
    out
}

fn signed(n: i32) -> String {
    let mut out = String::new();
    push_signed_decimal(&mut out, n);
    out
}

#[test]
fn supply_counts_for_each_prefix_by_itself() {
    let mut supply = NameSupply::new();
    assert_eq!(supply.count("tmp"), 0);
    assert_eq!(supply.fresh("tmp"), Some(s("tmp1")));
    assert_eq!(supply.fresh("if"), Some(s("if1")));
    assert_eq!(supply.fresh("tmp"), Some(s("tmp2")));
    assert_eq!(supply.fresh("then"), Some(s("then1")));
    assert_eq!(supply.fresh("endif"), Some(s("endif1")));
    assert_eq!(supply.fresh(""), Some(s("1")));
    assert_eq!(supply.fresh("x1"), Some(s("x11")));
    assert_eq!(supply.fresh("tmp"), Some(s("tmp3")));
    assert_eq!(supply.count("tmp"), 3);
    assert_eq!(supply.count("if"), 1);
    assert_eq!(supply.count("x1"), 1);
    assert_eq!(supply.count("x"), 0);
}

#[test]
fn supply_ends_at_the_last_number_of_a_prefix() {
    let mut supply = NameSupply::new();
    supply.set_count("t", u64::MAX - 1);
    assert_eq!(supply.fresh("t"), Some(s("t18446744073709551615")));
    assert_eq!(supply.fresh("t"), None);
    assert_eq!(supply.fresh("t"), None);
    assert_eq!(supply.count("t"), u64::MAX);
    assert_eq!(supply.fresh("u"), Some(s("u1")));
    supply.set_count("t", 41);
    assert_eq!(supply.fresh("t"), Some(s("t42")));
    assert_eq!(supply.count("u"), 1);
}

#[test]
fn decimal_numerals_have_no_leading_zeros() {
    assert_eq!(decimal(0), "0");
    assert_eq!(decimal(7), "7");
    assert_eq!(decimal(10), "10");
    assert_eq!(decimal(1234567890), "1234567890");
    assert_eq!(decimal(u64::MAX), "18446744073709551615");
    let mut out = s("x");
    push_decimal(&mut out, 42);
    assert_eq!(out, "x42");
}

#[test]
fn signed_numerals_have_a_minus_sign() {
    assert_eq!(signed(0), "0");
    assert_eq!(signed(15), "15");
    assert_eq!(signed(-8), "-8");
    assert_eq!(signed(i32::MAX), "2147483647");
    assert_eq!(signed(i32::MIN), "-2147483648");
}

#[test]
fn digits_are_single_characters() {
    let all: Vec<&str> = (0..10).map(digit_str).collect();
    assert_eq!(all, vec!["0", "1", "2", "3", "4", "5", "6", "7", "8", "9"]);
}

#[test]
fn names_compare_by_their_characters() {
    assert!(is_name(&s("tuple-ref"), "tuple-ref"));
    assert!(!is_name(&s("tuple-ref"), "tuple"));
    assert!(!is_name(&s("+"), "-"));
    assert!(is_name(&s(""), ""));
}

#[test]
fn name_lists_work_as_sets() {
    let a = names(&["x", "y", "z"]);
    assert!(contains_name(&a, &s("y")));
    assert!(!contains_name(&a, &s("w")));
    assert!(!contains_name(&vec![], &s("x")));
    let mut b = a.clone();
    insert_name(&mut b, s("y"));
    assert_eq!(b, names(&["x", "y", "z"]));
    insert_name(&mut b, s("w"));
    assert_eq!(b, names(&["x", "y", "z", "w"]));
    assert_eq!(union_names(&a, &names(&["w", "x", "w", "v"])), names(&["x", "y", "z", "w", "v"]));
    assert_eq!(union_names(&vec![], &names(&["a", "a"])), names(&["a"]));
    assert_eq!(minus_names(&a, &names(&["y", "q"])), names(&["x", "z"]));
    assert_eq!(minus_names(&names(&["a", "b", "a"]), &names(&["b"])), names(&["a", "a"]));
    assert_eq!(minus_names(&a, &a), names(&[]));
}

#[test]
fn adjacent_repetitions_are_dropped() {
    assert_eq!(dedup_names(&names(&["a", "a", "b", "a", "a", "a", "c", "c"])), names(&["a", "b", "a", "c"]));
    assert_eq!(dedup_names(&names(&[])), names(&[]));
}

#[test]
fn association_list_keeps_the_place_of_a_key() {
    let mut m: Vec<(String, i32)> = Vec::new();
    assert_eq!(get(&m, &s("a")), None);
    put(&mut m, s("a"), 1);
    put(&mut m, s("b"), 2);
    put(&mut m, s("a"), 3);
    assert_eq!(m, vec![(s("a"), 3), (s("b"), 2)]);
    assert_eq!(get(&m, &s("a")), Some(&3));
    assert_eq!(get(&m, &s("b")), Some(&2));
    assert_eq!(get(&m, &s("c")), None);
    assert_eq!(find_key(&m, &s("a")), 0);
    assert_eq!(find_key(&m, &s("b")), 1);
    assert_eq!(find_key(&m, &s("c")), 2);
    let twice = vec![(s("k"), 1), (s("k"), 2)];
    assert_eq!(get(&twice, &s("k")), Some(&1));
}

#[test]
fn vector_helpers_do_what_they_say() {
    let mut v: Vec<String> = empty_deep();
    assert!(v.is_empty());
    push_deep(&mut v, s("a"));
    let mut w = names(&["b", "c"]);
    append_deep(&mut v, &mut w);
    assert_eq!(v, names(&["a", "b", "c"]));
    assert!(w.is_empty());
    assert_eq!(reverse_deep(v), names(&["c", "b", "a"]));
    assert_eq!(reverse_deep(Vec::<String>::new()), Vec::<String>::new());
}

#[test]
fn copies_are_equal_to_their_originals() {
    let instr = X86::Prog(
        vec![X86::DefineWithLives(
            s("f"),
            names(&["v"]),
            vec![names(&["v"])],
            vec![X86::IfWithLives(
                Box::new(X86::EqP(X86Arg::Var(s("v")), X86Arg::Imm(1))),
                vec![X86::Mov(X86Arg::RegOffset(Reg::RBP, -8), X86Arg::Reg(Reg::R9))],
                vec![names(&["v"])],
                vec![X86::JmpIf(CC::LE, s("l")), X86::Jmp(s("l")), X86::Label(s("l"))],
                vec![vec![], vec![], vec![]],
            )],
        )],
        vec![
            X86::If(Box::new(X86::Cmp(X86Arg::Imm(1), X86Arg::Imm(2))), vec![X86::Call(s("f"))], vec![]),
            X86::Add(X86Arg::Reg(Reg::RAX), X86Arg::Imm(1)),
            X86::Define(s("g"), vec![], vec![]),
            X86::ProgWithLives(vec![], vec![], vec![], vec![]),
        ],
        names(&["a", "b"]),
    );
    assert_eq!(copy_instr(&instr), instr);
    assert_eq!(instr.clone(), instr);
    assert_eq!(copy_instrs(&vec![instr.clone(), X86::Jmp(s("x"))]), vec![instr, X86::Jmp(s("x"))]);
    let arg = X86Arg::Var(s("x"));
    assert_eq!(arg.clone(), arg);
}

#[test]
fn flat_builders_build_the_variants() {
    assert_eq!(Flat::symbol(s("x")), Flat::Symbol(s("x")));
    assert_eq!(Flat::assign(s("x"), Flat::Number(1)), Flat::Assign(s("x"), Box::new(Flat::Number(1))));
    assert_eq!(Flat::ret(Flat::Bool(true)), Flat::Return(Box::new(Flat::Bool(true))));
    assert_eq!(Flat::tuple(vec![Flat::Number(1)]), Flat::Tuple(vec![Flat::Number(1)]));
    assert_eq!(Flat::prim(s("+"), vec![]), Flat::Prim(s("+"), vec![]));
    assert_eq!(Flat::app(s("f"), vec![]), Flat::App(s("f"), vec![]));
    assert_eq!(
        Flat::compare(CC::G, Flat::Number(1), Flat::Number(2)),
        Flat::Cmp(CC::G, Box::new(Flat::Number(1)), Box::new(Flat::Number(2)))
    );
    assert_eq!(
        Flat::branch(Flat::Bool(true), vec![], vec![Flat::Number(1)]),
        Flat::If(Box::new(Flat::Bool(true)), vec![], vec![Flat::Number(1)])
    );
}

#[test]
fn every_error_has_its_own_sentence() {
    let all = [
        CompileError::NamesExhausted,
        CompileError::UnboundVariable,
        CompileError::BadArity,
        CompileError::NonLiteralIndex,
        CompileError::NotAFunction,
        CompileError::NotAnExpression,
        CompileError::TooManyArguments,
        CompileError::UnsupportedPrimitive,
        CompileError::UnsupportedExpression,
        CompileError::UnsupportedCondition,
        CompileError::ImmediateOutOfRange,
        CompileError::NotTopLevel,
        CompileError::UnsupportedInstruction,
        CompileError::FrameTooLarge,
        CompileError::NoHome,
        CompileError::PseudoOperand,
        CompileError::UnexpectedEnd,
        CompileError::UnbalancedParen,
        CompileError::MalformedForm,
        CompileError::NumberOutOfRange,
        CompileError::EmptyProgram,
    ];
    for (i, a) in all.iter().enumerate() {
        assert!(!a.message().is_empty());
        for b in &all[i + 1..] {
            assert_ne!(a.message(), b.message());
        }
    }
    assert_eq!(CompileError::NoHome.message(), "a variable has no home");
    assert_eq!(
        CompileError::NonLiteralIndex.message(),
        "the index of tuple-ref must be an integer literal"
    );
}

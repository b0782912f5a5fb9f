use lispc::anf::{flatten, flatten_args, flatten_expr, Flat, FlatResult};
use lispc::ast::{SExpr, CC};
use lispc::error::CompileError;
use lispc::names::NameSupply;
use lispc::parser::convert;
use lispc::reader::read_all;

fn read(source: &str) -> SExpr {
    let forms = read_all(source).expect("the reader accepts the text");
    assert_eq!(forms.len(), 1);
    convert(&forms[0]).expect("the parser accepts the form")
}

fn s(name: &str) -> String {
    name.to_string()
}

fn sym(name: &str) -> Flat {
    Flat::Symbol(s(name))
}

fn assign(name: &str, value: Flat) -> Flat {
    Flat::Assign(s(name), Box::new(value))
}

fn prim(op: &str, args: Vec<Flat>) -> Flat {
    Flat::Prim(s(op), args)
}

fn is_atom(f: &Flat) -> bool {
    matches!(f, Flat::Symbol(_) | Flat::FuncName(_) | Flat::Number(_) | Flat::Bool(_))
}

fn value_in_normal_form(f: &Flat) -> bool {
    match f {
        Flat::Tuple(args) | Flat::Prim(_, args) | Flat::App(_, args) => args.iter().all(is_atom),
        Flat::Cmp(_, left, right) => is_atom(left) && is_atom(right),
        other => is_atom(other),
    }
}

fn stmt_in_normal_form(f: &Flat) -> bool {
    match f {
        Flat::Assign(_, value) => value_in_normal_form(value),
        Flat::Return(value) => is_atom(value),
        Flat::If(cnd, thn, els) => {
            value_in_normal_form(cnd)
                && thn.iter().all(stmt_in_normal_form)
                && els.iter().all(stmt_in_normal_form)
        }
        _ => false,
    }
}

fn result_in_normal_form(r: &FlatResult) -> bool {
    match r {
        FlatResult::Prog(defs, stmts, _) => {
            defs.iter().all(result_in_normal_form) && stmts.iter().all(stmt_in_normal_form)
        }
        FlatResult::Define(_, _, stmts, _) => stmts.iter().all(stmt_in_normal_form),
        FlatResult::Flat(atom, stmts, _) => is_atom(atom) && stmts.iter().all(stmt_in_normal_form),
    }
}

#[test]
fn test_flatten() {
    let input = String::from("(+ 12 (+ 13 14))");
    let mut names = NameSupply::new();

    assert_eq!(
        flatten(&SExpr::Prog(vec![], Box::new(read(&input))), &mut names),
        Ok(FlatResult::Prog(vec![],
                         vec![Flat::Assign("tmp1".to_string(), Box::new(Flat::Prim("+".to_string(),
                                                                                   vec![Flat::Number(13), Flat::Number(14)]))),
                              Flat::Assign("tmp2".to_string(),
                                           Box::new(Flat::Prim("+".to_string(),
                                                               vec![Flat::Number(12), Flat::Symbol("tmp1".to_string())]))),
                              Flat::Return(Box::new(Flat::Symbol("tmp2".to_string())))],
                         vec!["tmp1".to_string(), "tmp2".to_string()]))
    );

    // The supply is not reset: the next temporary is the third.
    assert_eq!(
        flatten(&SExpr::Define("foo".to_string(), vec!["x".to_string(), "y".to_string(), "z".to_string()],
                              Box::new(SExpr::App(Box::new(SExpr::Symbol("+".to_string())),
                                                  vec![SExpr::Symbol("x".to_string()), SExpr::Number(10)]))),
                &mut names),
        Ok(FlatResult::Define("foo".to_string(),
                           vec!["x".to_string(), "y".to_string(), "z".to_string()],
                           vec![Flat::Assign("tmp3".to_string(),
                                             Box::new(Flat::Prim("+".to_string(), vec![Flat::Symbol("x".to_string()), Flat::Number(10)]))),
                                Flat::Return(Box::new(Flat::Symbol("tmp3".to_string())))],
                           vec!["tmp3".to_string()]))
    );
    assert_eq!(names.count("tmp"), 3);
}

#[test]
fn atoms_flatten_to_themselves() {
    let mut names = NameSupply::new();
    assert_eq!(
        flatten(&SExpr::Number(7), &mut names),
        Ok(FlatResult::Flat(Flat::Number(7), vec![], vec![]))
    );
    assert_eq!(
        flatten(&SExpr::Bool(true), &mut names),
        Ok(FlatResult::Flat(Flat::Bool(true), vec![], vec![]))
    );
    assert_eq!(
        flatten(&SExpr::Symbol(s("x")), &mut names),
        Ok(FlatResult::Flat(sym("x"), vec![], vec![s("x")]))
    );
    assert_eq!(
        flatten(&SExpr::FuncName(s("f")), &mut names),
        Ok(FlatResult::Flat(Flat::FuncName(s("f")), vec![], vec![s("f")]))
    );
    assert_eq!(names.count("tmp"), 0);
}

#[test]
fn let_puts_bindings_before_body_but_names_body_first() {
    let mut names = NameSupply::new();
    assert_eq!(
        flatten(&read("(let ((x (+ 1 2))) (+ x 5))"), &mut names),
        Ok(FlatResult::Flat(
            sym("tmp1"),
            vec![
                assign("tmp2", prim("+", vec![Flat::Number(1), Flat::Number(2)])),
                assign("x", sym("tmp2")),
                assign("tmp1", prim("+", vec![sym("x"), Flat::Number(5)])),
            ],
            vec![s("tmp2"), s("tmp2"), s("x"), s("x"), s("tmp1")],
        ))
    );
}

#[test]
fn if_keeps_the_comparison_and_merges_in_both_branches() {
    let mut names = NameSupply::new();
    assert_eq!(
        flatten(&read("(if (= 0 0) (+ 1 2) (+ 3 4))"), &mut names),
        Ok(FlatResult::Flat(
            sym("if1"),
            vec![Flat::If(
                Box::new(Flat::Cmp(CC::E, Box::new(Flat::Number(0)), Box::new(Flat::Number(0)))),
                vec![
                    assign("tmp1", prim("+", vec![Flat::Number(1), Flat::Number(2)])),
                    assign("if1", sym("tmp1")),
                ],
                vec![
                    assign("tmp2", prim("+", vec![Flat::Number(3), Flat::Number(4)])),
                    assign("if1", sym("tmp2")),
                ],
            )],
            vec![s("tmp1"), s("tmp2"), s("if1")],
        ))
    );
    assert_eq!(names.count("tmp"), 2);
    assert_eq!(names.count("if"), 1);
}

#[test]
fn if_flattens_the_operands_of_its_comparison() {
    let mut names = NameSupply::new();
    assert_eq!(
        flatten(&read("(if (< (+ 1 2) x) 1 2)"), &mut names),
        Ok(FlatResult::Flat(
            sym("if1"),
            vec![
                assign("tmp1", prim("+", vec![Flat::Number(1), Flat::Number(2)])),
                Flat::If(
                    Box::new(Flat::Cmp(CC::L, Box::new(sym("tmp1")), Box::new(sym("x")))),
                    vec![assign("if1", Flat::Number(1))],
                    vec![assign("if1", Flat::Number(2))],
                ),
            ],
            vec![s("tmp1"), s("x"), s("if1")],
        ))
    );
}

#[test]
fn if_on_anything_else_tests_an_atom() {
    let mut names = NameSupply::new();
    assert_eq!(
        flatten(&read("(if x 1 2)"), &mut names),
        Ok(FlatResult::Flat(
            sym("if1"),
            vec![Flat::If(
                Box::new(sym("x")),
                vec![assign("if1", Flat::Number(1))],
                vec![assign("if1", Flat::Number(2))],
            )],
            vec![s("x"), s("if1")],
        ))
    );
}

#[test]
fn comparison_as_a_value_gets_a_temporary() {
    let mut names = NameSupply::new();
    assert_eq!(
        flatten(&read("(>= 1 2)"), &mut names),
        Ok(FlatResult::Flat(
            sym("tmp1"),
            vec![assign(
                "tmp1",
                Flat::Cmp(CC::GE, Box::new(Flat::Number(1)), Box::new(Flat::Number(2))),
            )],
            vec![s("tmp1")],
        ))
    );
}

#[test]
fn tuple_names_its_temporary_first() {
    let mut names = NameSupply::new();
    assert_eq!(
        flatten(&read("(tuple (+ 1 2) 3)"), &mut names),
        Ok(FlatResult::Flat(
            sym("tmp1"),
            vec![
                assign("tmp2", prim("+", vec![Flat::Number(1), Flat::Number(2)])),
                assign("tmp1", Flat::Tuple(vec![sym("tmp2"), Flat::Number(3)])),
            ],
            vec![s("tmp2"), s("tmp1")],
        ))
    );
}

#[test]
fn unary_minus_and_tuple_ref_are_primitives() {
    let mut names = NameSupply::new();
    assert_eq!(
        flatten(&read("(- 5)"), &mut names),
        Ok(FlatResult::Flat(
            sym("tmp1"),
            vec![assign("tmp1", prim("-", vec![Flat::Number(5)]))],
            vec![s("tmp1")],
        ))
    );
    assert_eq!(
        flatten(&read("(tuple-ref t 1)"), &mut names),
        Ok(FlatResult::Flat(
            sym("tmp2"),
            vec![assign("tmp2", prim("tuple-ref", vec![sym("t"), Flat::Number(1)]))],
            vec![s("t"), s("tmp2")],
        ))
    );
}

#[test]
fn call_by_name_refers_to_the_function_in_its_closure() {
    let mut names = NameSupply::new();
    let expected = Ok(FlatResult::Flat(
        sym("tmp2"),
        vec![
            assign("tmp1", Flat::Tuple(vec![Flat::FuncName(s("foo"))])),
            assign("tmp2", prim("tuple-ref", vec![sym("tmp1"), Flat::Number(0)])),
        ],
        vec![s("foo"), s("tmp1"), s("tmp2")],
    ));
    assert_eq!(flatten(&read("(foo 1 2 3)"), &mut names), expected);
    let mut names = NameSupply::new();
    assert_eq!(flatten(&read("(foo (+ 1 2) 3)"), &mut names), expected);
    let mut names = NameSupply::new();
    let reference = SExpr::App(
        Box::new(SExpr::Symbol(s("tuple-ref"))),
        vec![SExpr::Tuple(vec![SExpr::FuncName(s("foo"))]), SExpr::Number(0)],
    );
    assert_eq!(flatten(&reference, &mut names), expected);
    assert_eq!(names.count("tmp"), 2);
}

#[test]
fn call_of_a_call_goes_through_the_variable() {
    let mut names = NameSupply::new();
    assert_eq!(
        flatten(&read("((f 1) 2)"), &mut names),
        Ok(FlatResult::Flat(
            sym("tmp3"),
            vec![
                assign("tmp1", Flat::Tuple(vec![Flat::FuncName(s("f"))])),
                assign("tmp2", prim("tuple-ref", vec![sym("tmp1"), Flat::Number(0)])),
                assign("tmp3", Flat::App(s("tmp2"), vec![Flat::Number(2)])),
            ],
            vec![s("f"), s("tmp1"), s("tmp2"), s("tmp3")],
        ))
    );
}

#[test]
fn program_drops_adjacent_repetitions_of_its_variables() {
    let mut names = NameSupply::new();
    assert_eq!(
        flatten(&SExpr::Prog(vec![], Box::new(read("(+ x x)"))), &mut names),
        Ok(FlatResult::Prog(
            vec![],
            vec![
                assign("tmp1", prim("+", vec![sym("x"), sym("x")])),
                Flat::Return(Box::new(sym("tmp1"))),
            ],
            vec![s("x"), s("tmp1")],
        ))
    );
}

#[test]
fn program_flattens_its_body_before_its_definitions() {
    let mut names = NameSupply::new();
    let program = SExpr::Prog(
        vec![read("(define (inc n) (+ n 1))")],
        Box::new(read("(inc 41)")),
    );
    assert_eq!(
        flatten(&program, &mut names),
        Ok(FlatResult::Prog(
            vec![FlatResult::Define(
                s("inc"),
                vec![s("n")],
                vec![
                    assign("tmp3", prim("+", vec![sym("n"), Flat::Number(1)])),
                    Flat::Return(Box::new(sym("tmp3"))),
                ],
                vec![s("tmp3")],
            )],
            vec![
                assign("tmp1", Flat::Tuple(vec![Flat::FuncName(s("inc"))])),
                assign("tmp2", prim("tuple-ref", vec![sym("tmp1"), Flat::Number(0)])),
                Flat::Return(Box::new(sym("tmp2"))),
            ],
            vec![s("inc"), s("tmp1"), s("tmp2")],
        ))
    );
}

#[test]
fn flatten_args_concatenates_in_order() {
    let mut names = NameSupply::new();
    let args = vec![read("(+ 1 2)"), read("x"), read("(- 3)")];
    assert_eq!(
        flatten_args(&args, &mut names),
        Ok((
            vec![sym("tmp1"), sym("x"), sym("tmp2")],
            vec![
                assign("tmp1", prim("+", vec![Flat::Number(1), Flat::Number(2)])),
                assign("tmp2", prim("-", vec![Flat::Number(3)])),
            ],
            vec![s("tmp1"), s("x"), s("tmp2")],
        ))
    );
}

#[test]
fn wrong_arity_is_refused() {
    let mut names = NameSupply::new();
    assert_eq!(flatten(&read("(+ 1)"), &mut names), Err(CompileError::BadArity));
    assert_eq!(flatten(&read("(+ 1 2 3)"), &mut names), Err(CompileError::BadArity));
    assert_eq!(flatten(&read("(- 1 2)"), &mut names), Err(CompileError::BadArity));
    assert_eq!(flatten(&read("(tuple-ref t)"), &mut names), Err(CompileError::BadArity));
}

#[test]
fn tuple_ref_needs_a_literal_index() {
    let mut names = NameSupply::new();
    assert_eq!(
        flatten(&read("(tuple-ref t k)"), &mut names),
        Err(CompileError::NonLiteralIndex)
    );
    assert_eq!(
        flatten(&read("(tuple-ref t (+ 1 2))"), &mut names),
        Err(CompileError::NonLiteralIndex)
    );
}

#[test]
fn callee_must_be_a_name_or_a_call() {
    let mut names = NameSupply::new();
    let call = SExpr::App(Box::new(SExpr::Number(1)), vec![]);
    assert_eq!(flatten(&call, &mut names), Err(CompileError::NotAFunction));
    let call = SExpr::App(Box::new(SExpr::FuncName(s("f"))), vec![]);
    assert_eq!(flatten(&call, &mut names), Err(CompileError::NotAFunction));
}

#[test]
fn definition_is_no_expression() {
    let mut names = NameSupply::new();
    let nested = SExpr::Tuple(vec![read("(define (f x) x)")]);
    assert_eq!(flatten(&nested, &mut names), Err(CompileError::NotAnExpression));
    assert_eq!(
        flatten_expr(&read("(define (f x) x)"), &mut names),
        Err(CompileError::NotAnExpression)
    );
}

#[test]
fn an_exhausted_supply_ends_flattening() {
    let mut names = NameSupply::new();
    names.set_count("tmp", u64::MAX);
    assert_eq!(flatten(&read("(+ 1 2)"), &mut names), Err(CompileError::NamesExhausted));
    assert_eq!(
        flatten(&read("(if x 1 2)"), &mut names),
        Ok(FlatResult::Flat(
            sym("if1"),
            vec![Flat::If(
                Box::new(sym("x")),
                vec![assign("if1", Flat::Number(1))],
                vec![assign("if1", Flat::Number(2))],
            )],
            vec![s("x"), s("if1")],
        ))
    );
    names.set_count("if", u64::MAX);
    assert_eq!(flatten(&read("(if x 1 2)"), &mut names), Err(CompileError::NamesExhausted));
    names.set_count("tmp", u64::MAX - 1);
    assert_eq!(flatten(&read("(foo 1)"), &mut names), Err(CompileError::NamesExhausted));
    assert_eq!(flatten(&read("7"), &mut names), Ok(FlatResult::Flat(Flat::Number(7), vec![], vec![])));
    let mut names = NameSupply::new();
    names.set_count("tmp", u64::MAX - 1);
    assert_eq!(
        flatten(&read("(- 1)"), &mut names),
        Ok(FlatResult::Flat(
            sym("tmp18446744073709551615"),
            vec![assign("tmp18446744073709551615", prim("-", vec![Flat::Number(1)]))],
            vec![s("tmp18446744073709551615")],
        ))
    );
}

#[test]
fn flattened_programs_are_in_normal_form() {
    let sources = [
        "(+ 12 (+ 13 14))",
        "(let ((x 10)) (+ x 5))",
        "(if (= (+ 1 2) (+ 3 4)) (tuple 1 (+ 2 3)) (f (g (- 1)) (< 1 2)))",
        "(let ((a (if (= 1 1) 2 3)) (b (tuple-ref (tuple 1 2) 0))) ((h a) (+ a b)))",
    ];
    for source in sources {
        let mut names = NameSupply::new();
        let program = SExpr::Prog(vec![read("(define (f x y) (+ x (+ y 1)))")], Box::new(read(source)));
        let flat = flatten(&program, &mut names).expect("the program flattens");
        assert!(result_in_normal_form(&flat), "not in normal form: {:?}", flat);
    }
}

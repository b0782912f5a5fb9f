use lispc::ast::{SExpr, CC};
use lispc::error::CompileError;
use lispc::parser::{convert, parse_atom, parse_program};
use lispc::reader::{chars_of, read_all, read_form, Sexp};

fn s(name: &str) -> String {
    name.to_string()
}

fn atom(text: &str) -> Sexp {
    Sexp::Atom(s(text))
}

fn sym(name: &str) -> SExpr {
    SExpr::Symbol(s(name))
}

fn num(n: i64) -> SExpr {
    SExpr::Number(n)
}

fn app(f: &str, args: Vec<SExpr>) -> SExpr {
    SExpr::App(Box::new(sym(f)), args)
}

fn parse(source: &str) -> Result<SExpr, CompileError> {
    let forms = read_all(source)?;
    assert_eq!(forms.len(), 1);
    convert(&forms[0])
}

#[test]
fn reader_splits_atoms_at_blanks_and_parentheses() {
    assert_eq!(
        read_all("  foo(bar baz)\n\t42 (a(b)c)\r\n"),
        Ok(vec![
            atom("foo"),
            Sexp::List(vec![atom("bar"), atom("baz")]),
            atom("42"),
            Sexp::List(vec![atom("a"), Sexp::List(vec![atom("b")]), atom("c")]),
        ])
    );
    assert_eq!(read_all(""), Ok(vec![]));
    assert_eq!(read_all(" \n "), Ok(vec![]));
    assert_eq!(read_all("()"), Ok(vec![Sexp::List(vec![])]));
    assert_eq!(read_all("λ→x"), Ok(vec![atom("λ→x")]));
}

#[test]
fn reader_reports_where_a_form_ends() {
    let source = " (a b) c";
    let chars = chars_of(source);
    assert_eq!(chars.len(), 8);
    assert_eq!(
        read_form(source, &chars, 0),
        Ok((Sexp::List(vec![atom("a"), atom("b")]), 6))
    );
    assert_eq!(read_form(source, &chars, 6), Ok((atom("c"), 8)));
    assert_eq!(read_form(source, &chars, 8), Err(CompileError::UnexpectedEnd));
    assert_eq!(read_form(source, &chars, 3), Ok((atom("b"), 5)));
}

#[test]
fn unclosed_list_is_refused() {
    assert_eq!(read_all("(+ 1 2"), Err(CompileError::UnexpectedEnd));
    assert_eq!(read_all("(a (b)"), Err(CompileError::UnexpectedEnd));
    assert_eq!(read_all("("), Err(CompileError::UnexpectedEnd));
}

#[test]
fn stray_closing_parenthesis_is_refused() {
    assert_eq!(read_all(")"), Err(CompileError::UnbalancedParen));
    assert_eq!(read_all("(a) )"), Err(CompileError::UnbalancedParen));
}

#[test]
fn atoms_are_booleans_integers_or_symbols() {
    assert_eq!(parse_atom(&s("#t")), Ok(SExpr::Bool(true)));
    assert_eq!(parse_atom(&s("#f")), Ok(SExpr::Bool(false)));
    assert_eq!(parse_atom(&s("0")), Ok(num(0)));
    assert_eq!(parse_atom(&s("42")), Ok(num(42)));
    assert_eq!(parse_atom(&s("007")), Ok(num(7)));
    assert_eq!(parse_atom(&s("-13")), Ok(num(-13)));
    assert_eq!(parse_atom(&s("-0")), Ok(num(0)));
    assert_eq!(parse_atom(&s("x")), Ok(sym("x")));
    assert_eq!(parse_atom(&s("-")), Ok(sym("-")));
    assert_eq!(parse_atom(&s("+")), Ok(sym("+")));
    assert_eq!(parse_atom(&s("+5")), Ok(sym("+5")));
    assert_eq!(parse_atom(&s("--1")), Ok(sym("--1")));
    assert_eq!(parse_atom(&s("12a")), Ok(sym("12a")));
    assert_eq!(parse_atom(&s("1-2")), Ok(sym("1-2")));
    assert_eq!(parse_atom(&s("#true")), Ok(sym("#true")));
    assert_eq!(parse_atom(&s("tuple-ref")), Ok(sym("tuple-ref")));
}

#[test]
fn integers_have_64_bits() {
    assert_eq!(parse_atom(&s("9223372036854775807")), Ok(num(i64::MAX)));
    assert_eq!(parse_atom(&s("-9223372036854775808")), Ok(num(i64::MIN)));
    assert_eq!(parse_atom(&s("-9223372036854775807")), Ok(num(i64::MIN + 1)));
    assert_eq!(parse_atom(&s("9223372036854775808")), Err(CompileError::NumberOutOfRange));
    assert_eq!(parse_atom(&s("-9223372036854775809")), Err(CompileError::NumberOutOfRange));
    assert_eq!(
        parse_atom(&s("100000000000000000000000000000000000000000000")),
        Err(CompileError::NumberOutOfRange)
    );
    assert_eq!(
        parse_atom(&s("-340282366920938463463374607431768211456")),
        Err(CompileError::NumberOutOfRange)
    );
    assert_eq!(parse_atom(&s("0000000000000000000000000000000000000000000001")), Ok(num(1)));
}

#[test]
fn special_forms_have_their_shapes() {
    assert_eq!(
        parse("(let ((x 10) (y (+ x 1))) (+ x y))"),
        Ok(SExpr::Let(
            vec![(s("x"), num(10)), (s("y"), app("+", vec![sym("x"), num(1)]))],
            Box::new(app("+", vec![sym("x"), sym("y")])),
        ))
    );
    assert_eq!(parse("(let () 1)"), Ok(SExpr::Let(vec![], Box::new(num(1)))));
    assert_eq!(
        parse("(if #t 1 x)"),
        Ok(SExpr::If(Box::new(SExpr::Bool(true)), Box::new(num(1)), Box::new(sym("x"))))
    );
    assert_eq!(
        parse("(define (foo x y z) (+ x 10))"),
        Ok(SExpr::Define(
            s("foo"),
            vec![s("x"), s("y"), s("z")],
            Box::new(app("+", vec![sym("x"), num(10)])),
        ))
    );
    assert_eq!(parse("(define (k) 1)"), Ok(SExpr::Define(s("k"), vec![], Box::new(num(1)))));
    assert_eq!(parse("(tuple 1 #f x)"), Ok(SExpr::Tuple(vec![num(1), SExpr::Bool(false), sym("x")])));
    assert_eq!(parse("(tuple)"), Ok(SExpr::Tuple(vec![])));
}

#[test]
fn comparison_operators_have_their_codes() {
    let cases = [("=", CC::E), ("<", CC::L), ("<=", CC::LE), (">", CC::G), (">=", CC::GE)];
    for (op, cc) in cases {
        assert_eq!(
            parse(&format!("({} a 2)", op)),
            Ok(SExpr::Cmp(cc, Box::new(sym("a")), Box::new(num(2))))
        );
    }
}

#[test]
fn every_other_list_is_an_application() {
    assert_eq!(parse("(+ 1 2)"), Ok(app("+", vec![num(1), num(2)])));
    assert_eq!(parse("(- x)"), Ok(app("-", vec![sym("x")])));
    assert_eq!(parse("(f)"), Ok(app("f", vec![])));
    assert_eq!(parse("(tuple-ref t 0)"), Ok(app("tuple-ref", vec![sym("t"), num(0)])));
    assert_eq!(
        parse("((f 1) 2)"),
        Ok(SExpr::App(Box::new(app("f", vec![num(1)])), vec![num(2)]))
    );
    assert_eq!(parse("(1 2)"), Ok(SExpr::App(Box::new(num(1)), vec![num(2)])));
}

#[test]
fn keywords_are_symbols_elsewhere() {
    assert_eq!(parse("if"), Ok(sym("if")));
    assert_eq!(parse("(f let define)"), Ok(app("f", vec![sym("let"), sym("define")])));
}

#[test]
fn misshapen_forms_are_refused() {
    let sources = [
        "()",
        "(let)",
        "(let x 1)",
        "(let ((x 1)))",
        "(let ((x 1)) 1 2)",
        "(let (x) 1)",
        "(let ((x)) 1)",
        "(let ((x 1 2)) 1)",
        "(let (((x) 1)) 1)",
        "(if 1 2)",
        "(if 1 2 3 4)",
        "(define f 1)",
        "(define () 1)",
        "(define (f (x)) 1)",
        "(define (f x))",
        "(= 1)",
        "(< 1 2 3)",
        "(f ())",
    ];
    for source in sources {
        assert_eq!(parse(source), Err(CompileError::MalformedForm), "{}", source);
    }
}

#[test]
fn errors_inside_a_form_come_out() {
    assert_eq!(parse("(+ 1 99999999999999999999)"), Err(CompileError::NumberOutOfRange));
    assert_eq!(parse("(let ((x ())) 1)"), Err(CompileError::MalformedForm));
    assert_eq!(parse("(if (if) 1 2)"), Err(CompileError::MalformedForm));
}

#[test]
fn last_form_is_the_expression_of_the_program() {
    assert_eq!(
        parse_program("(define (foo x y z) (+ x 10)) (foo 1 2 3)"),
        Ok(SExpr::Prog(
            vec![SExpr::Define(
                s("foo"),
                vec![s("x"), s("y"), s("z")],
                Box::new(app("+", vec![sym("x"), num(10)])),
            )],
            Box::new(app("foo", vec![num(1), num(2), num(3)])),
        ))
    );
    assert_eq!(parse_program("42"), Ok(SExpr::Prog(vec![], Box::new(num(42)))));
    assert_eq!(
        parse_program("1 2 3"),
        Ok(SExpr::Prog(vec![num(1), num(2)], Box::new(num(3))))
    );
}

#[test]
fn program_needs_a_form() {
    assert_eq!(parse_program(""), Err(CompileError::EmptyProgram));
    assert_eq!(parse_program("  \n"), Err(CompileError::EmptyProgram));
    assert_eq!(parse_program("(+ 1"), Err(CompileError::UnexpectedEnd));
    assert_eq!(parse_program("(if) 1"), Err(CompileError::MalformedForm));
    assert_eq!(parse_program("1 (if)"), Err(CompileError::MalformedForm));
}

use std::collections::HashMap;

use lispc::ast::{SExpr, CC};
use lispc::error::CompileError;
use lispc::names::NameSupply;
use lispc::parser::{convert, parse_program};
use lispc::reader::read_all;
use lispc::uniquify::uniquify;

fn read(source: &str) -> SExpr {
    let forms = read_all(source).expect("the reader accepts the text");
    assert_eq!(forms.len(), 1);
    convert(&forms[0]).expect("the parser accepts the form")
}

fn s(name: &str) -> String {
    name.to_string()
}

fn fresh_run(expr: &SExpr) -> Result<SExpr, CompileError> {
    let mut mapping = Vec::new();
    let mut names = NameSupply::new();
    uniquify(&mut mapping, expr, &mut names)
}

/// Whether two programs are the same up to a one-to-one renaming of their binders,
/// which is extended as the binders are met.
fn same_up_to_names(a: &SExpr, b: &SExpr, there: &mut HashMap<String, String>, back: &mut HashMap<String, String>) -> bool {
    fn bind(x: &str, y: &str, there: &mut HashMap<String, String>, back: &mut HashMap<String, String>) -> bool {
        if back.get(y).map_or(false, |old| old != x) {
            return false;
        }
        there.insert(x.to_string(), y.to_string());
        back.insert(y.to_string(), x.to_string());
        true
    }
    fn callee(a: &SExpr, b: &SExpr, there: &mut HashMap<String, String>, back: &mut HashMap<String, String>) -> bool {
        match (a, b) {
            (SExpr::Symbol(x), SExpr::Symbol(y)) => x == y,
            _ => same_up_to_names(a, b, there, back),
        }
    }
    fn all(xs: &[SExpr], ys: &[SExpr], there: &mut HashMap<String, String>, back: &mut HashMap<String, String>) -> bool {
        xs.len() == ys.len() && xs.iter().zip(ys).all(|(x, y)| same_up_to_names(x, y, there, back))
    }
    match (a, b) {
        (SExpr::Number(x), SExpr::Number(y)) => x == y,
        (SExpr::Bool(x), SExpr::Bool(y)) => x == y,
        (SExpr::FuncName(x), SExpr::FuncName(y)) => x == y,
        (SExpr::Symbol(x), SExpr::Symbol(y)) => there.get(x) == Some(y),
        (SExpr::Tuple(xs), SExpr::Tuple(ys)) => all(xs, ys, there, back),
        (SExpr::Let(bs, body), SExpr::Let(cs, other)) => {
            bs.len() == cs.len()
                && bs.iter().zip(cs).all(|((x, v), (y, w))| {
                    bind(x, y, there, back) && same_up_to_names(v, w, there, back)
                })
                && same_up_to_names(body, other, there, back)
        }
        (SExpr::If(c, t, e), SExpr::If(c2, t2, e2)) => {
            same_up_to_names(c, c2, there, back)
                && same_up_to_names(t, t2, there, back)
                && same_up_to_names(e, e2, there, back)
        }
        (SExpr::Cmp(op, l, r), SExpr::Cmp(op2, l2, r2)) => {
            op == op2 && same_up_to_names(l, l2, there, back) && same_up_to_names(r, r2, there, back)
        }
        (SExpr::App(f, xs), SExpr::App(g, ys)) => callee(f, g, there, back) && all(xs, ys, there, back),
        (SExpr::Define(n, ps, body), SExpr::Define(n2, qs, other)) => {
            n == n2
                && ps.len() == qs.len()
                && ps.iter().zip(qs).all(|(p, q)| bind(p, q, there, back))
                && same_up_to_names(body, other, there, back)
        }
        (SExpr::Prog(ds, body), SExpr::Prog(es, other)) => {
            all(ds, es, there, back) && same_up_to_names(body, other, there, back)
        }
        _ => false,
    }
}

#[test]
fn let_binder_gets_the_next_number() {
    let mut mapping = Vec::new();
    let mut names = NameSupply::new();
    assert_eq!(
        uniquify(&mut mapping, &read("(let ((x 10)) (+ x 5))"), &mut names),
        Ok(read("(let ((x1 10)) (+ x1 5))"))
    );
    assert_eq!(mapping, vec![(s("x"), s("x1"))]);
    assert_eq!(names.count("x"), 1);
}

#[test]
fn later_binding_shadows_earlier_one() {
    let mut mapping = Vec::new();
    let mut names = NameSupply::new();
    assert_eq!(
        uniquify(&mut mapping, &read("(let ((x 1) (y x)) (let ((x y)) (+ x y)))"), &mut names),
        Ok(read("(let ((x1 1) (y1 x1)) (let ((x2 y1)) (+ x2 y1)))"))
    );
    assert_eq!(mapping, vec![(s("x"), s("x2")), (s("y"), s("y1"))]);
    assert_eq!(names.count("x"), 2);
    assert_eq!(names.count("y"), 1);
}

#[test]
fn binding_is_in_force_in_its_own_value_and_afterwards() {
    assert_eq!(fresh_run(&read("(let ((x x)) 1)")), Ok(read("(let ((x1 x1)) 1)")));
    assert_eq!(
        fresh_run(&read("(tuple (let ((x 1)) x) x)")),
        Ok(read("(tuple (let ((x1 1)) x1) x1)"))
    );
}

#[test]
fn parameters_are_renamed_and_function_names_stay() {
    let program = parse_program("(define (foo x y z) (+ x 10)) (foo 1 2 3)").unwrap();
    let expected = parse_program("(define (foo x1 y1 z1) (+ x1 10)) (foo 1 2 3)").unwrap();
    assert_eq!(fresh_run(&program), Ok(expected));
}

#[test]
fn callee_that_is_a_call_is_renamed_inside() {
    assert_eq!(
        fresh_run(&read("(let ((a 1)) ((f a) a))")),
        Ok(read("(let ((a1 1)) ((f a1) a1))"))
    );
}

#[test]
fn comparison_and_conditional_are_renamed_in_order() {
    assert_eq!(
        fresh_run(&read("(let ((a 1)) (if (< a 2) (let ((b a)) b) (let ((c a)) c)))")),
        Ok(read("(let ((a1 1)) (if (< a1 2) (let ((b1 a1)) b1) (let ((c1 a1)) c1)))"))
    );
}

#[test]
fn literals_and_function_references_stay() {
    assert_eq!(fresh_run(&SExpr::Number(3)), Ok(SExpr::Number(3)));
    assert_eq!(fresh_run(&SExpr::Bool(false)), Ok(SExpr::Bool(false)));
    assert_eq!(fresh_run(&SExpr::FuncName(s("f"))), Ok(SExpr::FuncName(s("f"))));
    assert_eq!(
        fresh_run(&SExpr::Cmp(CC::E, Box::new(SExpr::Number(1)), Box::new(SExpr::Number(2)))),
        Ok(SExpr::Cmp(CC::E, Box::new(SExpr::Number(1)), Box::new(SExpr::Number(2))))
    );
}

#[test]
fn unbound_variable_is_refused() {
    assert_eq!(fresh_run(&read("x")), Err(CompileError::UnboundVariable));
    assert_eq!(fresh_run(&read("(let ((x 1)) (+ x y))")), Err(CompileError::UnboundVariable));
}

#[test]
fn an_exhausted_supply_ends_renaming() {
    let mut mapping = Vec::new();
    let mut names = NameSupply::new();
    names.set_count("x", u64::MAX);
    assert_eq!(
        uniquify(&mut mapping, &read("(let ((x 1)) x)"), &mut names),
        Err(CompileError::NamesExhausted)
    );
    assert_eq!(
        uniquify(&mut mapping, &read("(define (f x) 1)"), &mut names),
        Err(CompileError::NamesExhausted)
    );
    assert_eq!(
        uniquify(&mut mapping, &read("(let ((y 1)) y)"), &mut names),
        Ok(read("(let ((y1 1)) y1)"))
    );
}

#[test]
fn second_run_keeps_the_binding_structure() {
    let sources = [
        "(let ((x 10)) (+ x 5))",
        "(let ((x 1) (y x)) (let ((x y)) (+ x y)))",
        "(define (foo x y z) (+ x 10)) (define (bar x) (foo x x x)) (let ((a (bar 1))) (if (= a 1) a (foo a a a)))",
    ];
    for source in sources {
        let program = parse_program(source).unwrap();
        let first = fresh_run(&program).expect("the first run succeeds");
        let second = fresh_run(&first).expect("the second run succeeds");
        assert!(
            same_up_to_names(&first, &second, &mut HashMap::new(), &mut HashMap::new()),
            "{:?} and {:?} differ by more than names",
            first,
            second
        );
        assert!(same_up_to_names(&program, &first, &mut HashMap::new(), &mut HashMap::new()));
    }
    let first = fresh_run(&read("(let ((x 10)) (+ x 5))")).unwrap();
    assert_eq!(fresh_run(&first), Ok(read("(let ((x11 10)) (+ x11 5))")));
}

#[test]
fn binders_that_end_in_digits_can_collide() {
    // The eleventh binder `x` gets the name that the first binder `x1` already has.
    let mut source = String::from("(let ((x1 0)");
    for _ in 0..11 {
        source.push_str(" (x 0)");
    }
    source.push_str(") x1)");
    let renamed = fresh_run(&read(&source)).unwrap();
    match renamed {
        SExpr::Let(bindings, body) => {
            assert_eq!(bindings[0].0, "x11");
            assert_eq!(bindings[10].0, "x10");
            assert_eq!(bindings[11].0, "x11");
            assert_eq!(*body, SExpr::Symbol(s("x11")));
        }
        other => panic!("not a let: {:?}", other),
    }
}

#[test]
fn binders_that_do_not_end_in_digits_stay_distinct() {
    let program = parse_program(
        "(define (f x y) (let ((x y) (y x)) (+ x y))) (define (g x) (f x x)) (let ((x 1) (f 2)) (g (let ((x f)) x)))",
    )
    .unwrap();
    fn binders(e: &SExpr, out: &mut Vec<String>) {
        match e {
            SExpr::Tuple(es) => es.iter().for_each(|x| binders(x, out)),
            SExpr::Let(bs, body) => {
                for (k, v) in bs {
                    out.push(k.clone());
                    binders(v, out);
                }
                binders(body, out);
            }
            SExpr::If(c, t, f) => {
                binders(c, out);
                binders(t, out);
                binders(f, out);
            }
            SExpr::Cmp(_, l, r) => {
                binders(l, out);
                binders(r, out);
            }
            SExpr::App(f, args) => {
                binders(f, out);
                args.iter().for_each(|x| binders(x, out));
            }
            SExpr::Define(_, ps, body) => {
                out.extend(ps.iter().cloned());
                binders(body, out);
            }
            SExpr::Prog(ds, body) => {
                ds.iter().for_each(|x| binders(x, out));
                binders(body, out);
            }
            _ => {}
        }
    }
    let renamed = fresh_run(&program).unwrap();
    let mut names = Vec::new();
    binders(&renamed, &mut names);
    assert_eq!(
        names,
        vec!["x1", "y1", "x2", "y2", "x3", "x4", "f1", "x5"]
    );
    let mut sorted = names.clone();
    sorted.sort();
    sorted.dedup();
    assert_eq!(sorted.len(), names.len());
}

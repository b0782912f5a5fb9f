//! The parser: trees of atoms and lists become the syntax tree of the source language.
//!
//! A program is a sequence of top-level forms: the last one is the expression whose
//! value the program prints, the ones before it are definitions.

use vstd::prelude::*;
use vstd::string::*;
use crate::ast::{CC, ExprView, SExpr, lemma_sexpr_view};
use crate::error::CompileError;
use crate::names::{Name, is_name};
use crate::reader::{Sexp, SexpView, chars_of, lemma_sexp_view, read_all, read_all_spec};
use crate::seqs::{empty_deep, lemma_deep_view_index, push_deep};

verus! {

/// The value of a decimal digit, or `-1` for any other character.
pub open spec fn digit_of(c: char) -> int {
    if c == '0' {
        0
    } else if c == '1' {
        1
    } else if c == '2' {
        2
    } else if c == '3' {
        3
    } else if c == '4' {
        4
    } else if c == '5' {
        5
    } else if c == '6' {
        6
    } else if c == '7' {
        7
    } else if c == '8' {
        8
    } else if c == '9' {
        9
    } else {
        -1
    }
}

/// Whether every character is a decimal digit.
pub open spec fn all_digits(s: Seq<char>) -> bool {
    forall|i: int| 0 <= i < s.len() ==> digit_of(#[trigger] s[i]) >= 0
}

/// The number that a sequence of decimal digits writes.
pub open spec fn digits_value(s: Seq<char>) -> nat
    decreases s.len(),
{
    if s.len() == 0 {
        0
    } else {
        (digits_value(s.drop_last()) * 10 + digit_of(s.last())) as nat
    }
}

/// The expression that an atom stands for: `#t` and `#f` are the booleans; digits, with
/// or without a minus sign in front, are an integer, which must fit 64 bits; anything
/// else is a symbol.
pub open spec fn atom_expr(a: Seq<char>) -> Result<ExprView, CompileError> {
    if a == "#t"@ {
        Ok(ExprView::Bool(true))
    } else if a == "#f"@ {
        Ok(ExprView::Bool(false))
    } else if a.len() >= 1 && all_digits(a) {
        if digits_value(a) <= i64::MAX {
            Ok(ExprView::Number(digits_value(a) as i64))
        } else {
            Err(CompileError::NumberOutOfRange)
        }
    } else if a.len() >= 2 && a[0] == '-' && all_digits(a.skip(1)) {
        if digits_value(a.skip(1)) <= -i64::MIN {
            Ok(ExprView::Number((-digits_value(a.skip(1))) as i64))
        } else {
            Err(CompileError::NumberOutOfRange)
        }
    } else {
        Ok(ExprView::Symbol(a))
    }
}

/// The comparison that an operator names.
pub open spec fn comparison_op(head: Seq<char>) -> Option<CC> {
    if head == "="@ {
        Some(CC::E)
    } else if head == "<"@ {
        Some(CC::L)
    } else if head == "<="@ {
        Some(CC::LE)
    } else if head == ">"@ {
        Some(CC::G)
    } else if head == ">="@ {
        Some(CC::GE)
    } else {
        None
    }
}

/// The expression that a tree stands for.
pub open spec fn convert_spec(x: SexpView) -> Result<ExprView, CompileError>
    decreases x, 1nat,
{
    match x {
        SexpView::Atom(a) => atom_expr(a),
        SexpView::List(items) => convert_form_spec(items),
    }
}

/// The expression that a list stands for. The head of the list decides: `let`, `if`,
/// `define`, `tuple` and the comparison operators open the special forms, whose shape
/// is fixed; every other list is an application of its head to the rest.
pub open spec fn convert_form_spec(items: Seq<SexpView>) -> Result<ExprView, CompileError>
    decreases items, items.len() + 2,
{
    if items.len() == 0 {
        Err(CompileError::MalformedForm)
    } else {
        match items[0] {
            SexpView::Atom(head) => {
                if head == "let"@ {
                    convert_let_spec(items)
                } else if head == "if"@ {
                    convert_if_spec(items)
                } else if head == "define"@ {
                    convert_define_spec(items)
                } else if head == "tuple"@ {
                    match convert_upto_spec(items, 1, items.len() as int) {
                        Err(err) => Err(err),
                        Ok(elts) => Ok(ExprView::Tuple(elts)),
                    }
                } else {
                    match comparison_op(head) {
                        Some(cc) => convert_comparison_spec(cc, items),
                        None => convert_app_spec(items),
                    }
                }
            },
            SexpView::List(_) => convert_app_spec(items),
        }
    }
}

/// `(let ((name value) ...) body)`.
pub open spec fn convert_let_spec(items: Seq<SexpView>) -> Result<ExprView, CompileError>
    decreases items, items.len() + 1,
{
    if items.len() != 3 {
        Err(CompileError::MalformedForm)
    } else {
        match items[1] {
            SexpView::List(bs) => match convert_bindings_upto_spec(bs, bs.len() as int) {
                Err(err) => Err(err),
                Ok(bindings) => match convert_spec(items[2]) {
                    Err(err) => Err(err),
                    Ok(body) => Ok(ExprView::Let(bindings, Box::new(body))),
                },
            },
            SexpView::Atom(_) => Err(CompileError::MalformedForm),
        }
    }
}

/// `(if condition then else)`.
pub open spec fn convert_if_spec(items: Seq<SexpView>) -> Result<ExprView, CompileError>
    decreases items, items.len() + 1,
{
    if items.len() != 4 {
        Err(CompileError::MalformedForm)
    } else {
        match convert_spec(items[1]) {
            Err(err) => Err(err),
            Ok(cnd) => match convert_spec(items[2]) {
                Err(err) => Err(err),
                Ok(thn) => match convert_spec(items[3]) {
                    Err(err) => Err(err),
                    Ok(els) => Ok(ExprView::If(Box::new(cnd), Box::new(thn), Box::new(els))),
                },
            },
        }
    }
}

/// `(define (name parameter ...) body)`.
pub open spec fn convert_define_spec(items: Seq<SexpView>) -> Result<ExprView, CompileError>
    decreases items, items.len() + 1,
{
    if items.len() != 3 {
        Err(CompileError::MalformedForm)
    } else {
        match items[1] {
            SexpView::List(sig) => match atoms_upto_spec(sig, sig.len() as int) {
                Err(err) => Err(err),
                Ok(names) => {
                    if names.len() == 0 {
                        Err(CompileError::MalformedForm)
                    } else {
                        match convert_spec(items[2]) {
                            Err(err) => Err(err),
                            Ok(body) => Ok(
                                ExprView::Define(names[0], names.skip(1), Box::new(body)),
                            ),
                        }
                    }
                },
            },
            SexpView::Atom(_) => Err(CompileError::MalformedForm),
        }
    }
}

/// `(op left right)` for a comparison operator.
pub open spec fn convert_comparison_spec(cc: CC, items: Seq<SexpView>) -> Result<ExprView, CompileError>
    decreases items, items.len() + 1,
{
    if items.len() != 3 {
        Err(CompileError::MalformedForm)
    } else {
        match convert_spec(items[1]) {
            Err(err) => Err(err),
            Ok(left) => match convert_spec(items[2]) {
                Err(err) => Err(err),
                Ok(right) => Ok(ExprView::Cmp(cc, Box::new(left), Box::new(right))),
            },
        }
    }
}

/// `(callee operand ...)`.
pub open spec fn convert_app_spec(items: Seq<SexpView>) -> Result<ExprView, CompileError>
    decreases items, items.len() + 1,
{
    if items.len() == 0 {
        Err(CompileError::MalformedForm)
    } else {
        match convert_spec(items[0]) {
            Err(err) => Err(err),
            Ok(callee) => match convert_upto_spec(items, 1, items.len() as int) {
                Err(err) => Err(err),
                Ok(args) => Ok(ExprView::App(Box::new(callee), args)),
            },
        }
    }
}

/// The expressions of the items from position `from` up to position `k`.
pub open spec fn convert_upto_spec(items: Seq<SexpView>, from: int, k: int) -> Result<
    Seq<ExprView>,
    CompileError,
>
    decreases items, k,
{
    if from < 0 || k <= from || k > items.len() {
        Ok(Seq::empty())
    } else {
        match convert_upto_spec(items, from, k - 1) {
            Err(err) => Err(err),
            Ok(init) => match convert_spec(items[k - 1]) {
                Err(err) => Err(err),
                Ok(e) => Ok(init.push(e)),
            },
        }
    }
}

/// The first `k` bindings of a `let`: each is a list of a name and a value.
pub open spec fn convert_bindings_upto_spec(bs: Seq<SexpView>, k: int) -> Result<
    Seq<(Name, ExprView)>,
    CompileError,
>
    decreases bs, k,
{
    if k <= 0 || k > bs.len() {
        Ok(Seq::empty())
    } else {
        match convert_bindings_upto_spec(bs, k - 1) {
            Err(err) => Err(err),
            Ok(init) => match bs[k - 1] {
                SexpView::List(pair) => {
                    if pair.len() != 2 {
                        Err(CompileError::MalformedForm)
                    } else {
                        match pair[0] {
                            SexpView::Atom(name) => match convert_spec(pair[1]) {
                                Err(err) => Err(err),
                                Ok(value) => Ok(init.push((name, value))),
                            },
                            SexpView::List(_) => Err(CompileError::MalformedForm),
                        }
                    }
                },
                SexpView::Atom(_) => Err(CompileError::MalformedForm),
            },
        }
    }
}

/// The first `k` items, all of which must be atoms.
pub open spec fn atoms_upto_spec(items: Seq<SexpView>, k: int) -> Result<Seq<Name>, CompileError>
    decreases k,
{
    if k <= 0 || k > items.len() {
        Ok(Seq::empty())
    } else {
        match atoms_upto_spec(items, k - 1) {
            Err(err) => Err(err),
            Ok(init) => match items[k - 1] {
                SexpView::Atom(name) => Ok(init.push(name)),
                SexpView::List(_) => Err(CompileError::MalformedForm),
            },
        }
    }
}

/// The program that top-level forms stand for.
pub open spec fn program_spec(forms: Seq<SexpView>) -> Result<ExprView, CompileError> {
    if forms.len() == 0 {
        Err(CompileError::EmptyProgram)
    } else {
        match convert_upto_spec(forms, 0, forms.len() - 1) {
            Err(err) => Err(err),
            Ok(defs) => match convert_spec(forms.last()) {
                Err(err) => Err(err),
                Ok(body) => Ok(ExprView::Prog(defs, Box::new(body))),
            },
        }
    }
}

/// What [`parse_program`] computes.
pub open spec fn parse_program_spec(s: Seq<char>) -> Result<ExprView, CompileError> {
    match read_all_spec(s, 0) {
        Err(err) => Err(err),
        Ok(forms) => program_spec(forms),
    }
}

/// An error among the first items is the error of all of them.
proof fn lemma_convert_upto_error(items: Seq<SexpView>, from: int, k: int, n: int)
    requires
        0 <= from <= k <= n <= items.len(),
        convert_upto_spec(items, from, k) is Err,
    ensures
        convert_upto_spec(items, from, n) == convert_upto_spec(items, from, k),
    decreases n,
{
    if k < n {
        lemma_convert_upto_error(items, from, k, n - 1);
    }
}

/// An error among the first bindings is the error of all of them.
proof fn lemma_convert_bindings_error(bs: Seq<SexpView>, k: int, n: int)
    requires
        0 <= k <= n <= bs.len(),
        convert_bindings_upto_spec(bs, k) is Err,
    ensures
        convert_bindings_upto_spec(bs, n) == convert_bindings_upto_spec(bs, k),
    decreases n,
{
    if k < n {
        lemma_convert_bindings_error(bs, k, n - 1);
    }
}

/// An error among the first atoms is the error of all of them.
proof fn lemma_atoms_upto_error(items: Seq<SexpView>, k: int, n: int)
    requires
        0 <= k <= n <= items.len(),
        atoms_upto_spec(items, k) is Err,
    ensures
        atoms_upto_spec(items, n) == atoms_upto_spec(items, k),
    decreases n,
{
    if k < n {
        lemma_atoms_upto_error(items, k, n - 1);
    }
}

/// The value of a decimal digit.
fn digit_value(c: char) -> (d: Option<u8>)
    ensures
        match d {
            Some(v) => v == digit_of(c) && v <= 9,
            None => digit_of(c) == -1,
        },
{
    if c == '0' {
        Some(0)
    } else if c == '1' {
        Some(1)
    } else if c == '2' {
        Some(2)
    } else if c == '3' {
        Some(3)
    } else if c == '4' {
        Some(4)
    } else if c == '5' {
        Some(5)
    } else if c == '6' {
        Some(6)
    } else if c == '7' {
        Some(7)
    } else if c == '8' {
        Some(8)
    } else if c == '9' {
        Some(9)
    } else {
        None
    }
}

/// The bound above which the value of a literal is not followed any more: one more
/// than the magnitude of the least 64-bit integer.
pub const VALUE_CAP: u64 = 9223372036854775809;

/// Whether the characters from `from` on are all digits, and the number they write, or
/// the cap where the number is above it.
fn scan_digits(chars: &Vec<char>, from: usize) -> (result: (bool, u64))
    requires
        from <= chars.len(),
    ensures
        result.0 == all_digits(chars@.skip(from as int)),
        result.0 ==> result.1 == if digits_value(chars@.skip(from as int)) >= VALUE_CAP {
            VALUE_CAP as nat
        } else {
            digits_value(chars@.skip(from as int))
        },
{
    let ghost digits = chars@.skip(from as int);
    let mut value: u64 = 0;
    let mut i: usize = from;
    while i < chars.len()
        invariant
            from <= i <= chars.len(),
            digits == chars@.skip(from as int),
            all_digits(digits.take(i - from)),
            value <= VALUE_CAP,
            value == if digits_value(digits.take(i - from)) >= VALUE_CAP {
                VALUE_CAP as nat
            } else {
                digits_value(digits.take(i - from))
            },
        decreases chars.len() - i,
    {
        let ghost before = digits.take(i - from);
        let ghost after = digits.take(i - from + 1);
        proof {
            assert(after.drop_last() =~= before);
            assert(after.last() == chars@[i as int]);
        }
        match digit_value(chars[i]) {
            None => {
                proof {
                    assert(digits[i - from] == chars@[i as int]);
                }
                return (false, 0);
            },
            Some(d) => {
                let next: u128 = value as u128 * 10 + d as u128;
                if next >= VALUE_CAP as u128 {
                    value = VALUE_CAP;
                } else {
                    value = next as u64;
                }
                proof {
                    assert forall|j: int| 0 <= j < after.len() implies digit_of(
                        #[trigger] after[j],
                    ) >= 0 by {
                        if j < before.len() {
                            assert(after[j] == before[j]);
                        }
                    }
                }
            },
        }
        i = i + 1;
    }
    proof {
        assert(digits.take(i - from) =~= digits);
    }
    (true, value)
}

/// The expression that an atom stands for.
pub fn parse_atom(text: &String) -> (result: Result<SExpr, CompileError>)
    ensures
        match result {
            Ok(expr) => atom_expr(text@) == Ok::<_, CompileError>(expr@),
            Err(err) => atom_expr(text@) == Err::<ExprView, _>(err),
        },
{
    if is_name(text, "#t") {
        return Ok(SExpr::Bool(true));
    }
    if is_name(text, "#f") {
        return Ok(SExpr::Bool(false));
    }
    let chars = chars_of(text.as_str());
    proof {
        assert(chars@.skip(0) =~= chars@);
    }
    if chars.len() >= 1 {
        let (digits, value) = scan_digits(&chars, 0);
        if digits {
            if value <= 9223372036854775807 {
                return Ok(SExpr::Number(value as i64));
            } else {
                return Err(CompileError::NumberOutOfRange);
            }
        }
    }
    if chars.len() >= 2 && chars[0] == '-' {
        let (digits, value) = scan_digits(&chars, 1);
        if digits {
            if value <= 9223372036854775807 {
                return Ok(SExpr::Number(-(value as i64)));
            } else if value == 9223372036854775808 {
                return Ok(SExpr::Number(i64::MIN));
            } else {
                return Err(CompileError::NumberOutOfRange);
            }
        }
    }
    Ok(SExpr::Symbol(text.clone()))
}

/// The comparison that an operator names.
fn parse_comparison_op(head: &String) -> (cc: Option<CC>)
    ensures
        cc == comparison_op(head@),
{
    if is_name(head, "=") {
        Some(CC::E)
    } else if is_name(head, "<") {
        Some(CC::L)
    } else if is_name(head, "<=") {
        Some(CC::LE)
    } else if is_name(head, ">") {
        Some(CC::G)
    } else if is_name(head, ">=") {
        Some(CC::GE)
    } else {
        None
    }
}

/// The expressions of the items from position `from` up to position `to`.
fn convert_range(items: &Vec<Sexp>, from: usize, to: usize) -> (result: Result<
    Vec<SExpr>,
    CompileError,
>)
    requires
        from <= to <= items.len(),
    ensures
        match result {
            Ok(exprs) => convert_upto_spec(items.deep_view(), from as int, to as int) == Ok::<
                _,
                CompileError,
            >(exprs.deep_view()),
            Err(err) => convert_upto_spec(items.deep_view(), from as int, to as int) == Err::<
                Seq<ExprView>,
                _,
            >(err),
        },
    decreases items, to,
{
    let mut exprs: Vec<SExpr> = empty_deep();
    let mut k: usize = from;
    while k < to
        invariant
            from <= k <= to <= items.len(),
            convert_upto_spec(items.deep_view(), from as int, k as int) == Ok::<_, CompileError>(
                exprs.deep_view(),
            ),
        decreases to - k,
    {
        proof {
            lemma_deep_view_index(items);
        }
        match convert(&items[k]) {
            Err(err) => {
                proof {
                    lemma_convert_upto_error(items.deep_view(), from as int, k + 1, to as int);
                }
                return Err(err);
            },
            Ok(expr) => {
                push_deep(&mut exprs, expr);
            },
        }
        k = k + 1;
    }
    Ok(exprs)
}

/// The bindings of a `let`.
fn convert_bindings(bs: &Vec<Sexp>) -> (result: Result<Vec<(String, SExpr)>, CompileError>)
    ensures
        match result {
            Ok(bindings) => convert_bindings_upto_spec(bs.deep_view(), bs.len() as int) == Ok::<
                _,
                CompileError,
            >(bindings.deep_view()),
            Err(err) => convert_bindings_upto_spec(bs.deep_view(), bs.len() as int) == Err::<
                Seq<(Name, ExprView)>,
                _,
            >(err),
        },
    decreases bs, bs.len(),
{
    let mut bindings: Vec<(String, SExpr)> = empty_deep();
    let mut k: usize = 0;
    while k < bs.len()
        invariant
            k <= bs.len(),
            convert_bindings_upto_spec(bs.deep_view(), k as int) == Ok::<_, CompileError>(
                bindings.deep_view(),
            ),
        decreases bs.len() - k,
    {
        proof {
            lemma_deep_view_index(bs);
            lemma_sexp_view(&bs[k as int]);
        }
        let ghost n = bs.len() as int;
        match &bs[k] {
            Sexp::List(pair) => {
                proof {
                    lemma_deep_view_index(pair);
                }
                if pair.len() != 2 {
                    proof {
                        lemma_convert_bindings_error(bs.deep_view(), k + 1, n);
                    }
                    return Err(CompileError::MalformedForm);
                }
                proof {
                    lemma_sexp_view(&pair[0]);
                }
                match &pair[0] {
                    Sexp::Atom(name) => match convert(&pair[1]) {
                        Err(err) => {
                            proof {
                                lemma_convert_bindings_error(bs.deep_view(), k + 1, n);
                            }
                            return Err(err);
                        },
                        Ok(value) => {
                            push_deep(&mut bindings, (name.clone(), value));
                        },
                    },
                    Sexp::List(_) => {
                        proof {
                            lemma_convert_bindings_error(bs.deep_view(), k + 1, n);
                        }
                        return Err(CompileError::MalformedForm);
                    },
                }
            },
            Sexp::Atom(_) => {
                proof {
                    lemma_convert_bindings_error(bs.deep_view(), k + 1, n);
                }
                return Err(CompileError::MalformedForm);
            },
        }
        k = k + 1;
    }
    Ok(bindings)
}

/// The texts of items that must all be atoms.
fn atom_names(items: &Vec<Sexp>) -> (result: Result<Vec<String>, CompileError>)
    ensures
        match result {
            Ok(names) => atoms_upto_spec(items.deep_view(), items.len() as int) == Ok::<
                _,
                CompileError,
            >(names.deep_view()),
            Err(err) => atoms_upto_spec(items.deep_view(), items.len() as int) == Err::<
                Seq<Name>,
                _,
            >(err),
        },
{
    let mut names: Vec<String> = empty_deep();
    let mut k: usize = 0;
    while k < items.len()
        invariant
            k <= items.len(),
            atoms_upto_spec(items.deep_view(), k as int) == Ok::<_, CompileError>(
                names.deep_view(),
            ),
        decreases items.len() - k,
    {
        proof {
            lemma_deep_view_index(items);
            lemma_sexp_view(&items[k as int]);
        }
        match &items[k] {
            Sexp::Atom(name) => {
                push_deep(&mut names, name.clone());
            },
            Sexp::List(_) => {
                proof {
                    lemma_atoms_upto_error(items.deep_view(), k + 1, items.len() as int);
                }
                return Err(CompileError::MalformedForm);
            },
        }
        k = k + 1;
    }
    Ok(names)
}

/// The expression that a list stands for.
fn convert_form(items: &Vec<Sexp>) -> (result: Result<SExpr, CompileError>)
    ensures
        match result {
            Ok(expr) => convert_form_spec(items.deep_view()) == Ok::<_, CompileError>(expr@),
            Err(err) => convert_form_spec(items.deep_view()) == Err::<ExprView, _>(err),
        },
    decreases items, items.len() + 2,
{
    proof {
        lemma_deep_view_index(items);
    }
    if items.len() == 0 {
        return Err(CompileError::MalformedForm);
    }
    proof {
        lemma_sexp_view(&items[0]);
    }
    match &items[0] {
        Sexp::Atom(head) => {
            if is_name(head, "let") {
                if items.len() != 3 {
                    return Err(CompileError::MalformedForm);
                }
                proof {
                    lemma_sexp_view(&items[1]);
                }
                match &items[1] {
                    Sexp::List(bs) => {
                        let bindings = convert_bindings(bs)?;
                        let body = convert(&items[2])?;
                        let expr = SExpr::Let(bindings, Box::new(body));
                        proof {
                            lemma_sexpr_view(&expr);
                        }
                        Ok(expr)
                    },
                    Sexp::Atom(_) => Err(CompileError::MalformedForm),
                }
            } else if is_name(head, "if") {
                if items.len() != 4 {
                    return Err(CompileError::MalformedForm);
                }
                let cnd = convert(&items[1])?;
                let thn = convert(&items[2])?;
                let els = convert(&items[3])?;
                Ok(SExpr::If(Box::new(cnd), Box::new(thn), Box::new(els)))
            } else if is_name(head, "define") {
                if items.len() != 3 {
                    return Err(CompileError::MalformedForm);
                }
                proof {
                    lemma_sexp_view(&items[1]);
                }
                match &items[1] {
                    Sexp::List(sig) => {
                        let mut names = atom_names(sig)?;
                        if names.len() == 0 {
                            return Err(CompileError::MalformedForm);
                        }
                        let body = convert(&items[2])?;
                        let ghost all = names.deep_view();
                        let name = names.remove(0);
                        assert(names.deep_view() =~= all.skip(1));
                        Ok(SExpr::Define(name, names, Box::new(body)))
                    },
                    Sexp::Atom(_) => Err(CompileError::MalformedForm),
                }
            } else if is_name(head, "tuple") {
                let elts = convert_range(items, 1, items.len())?;
                let expr = SExpr::Tuple(elts);
                proof {
                    lemma_sexpr_view(&expr);
                }
                Ok(expr)
            } else {
                match parse_comparison_op(head) {
                    Some(cc) => {
                        if items.len() != 3 {
                            return Err(CompileError::MalformedForm);
                        }
                        let left = convert(&items[1])?;
                        let right = convert(&items[2])?;
                        Ok(SExpr::Cmp(cc, Box::new(left), Box::new(right)))
                    },
                    None => convert_app(items),
                }
            }
        },
        Sexp::List(_) => convert_app(items),
    }
}

/// The application that a list stands for.
fn convert_app(items: &Vec<Sexp>) -> (result: Result<SExpr, CompileError>)
    requires
        items.len() > 0,
    ensures
        match result {
            Ok(expr) => convert_app_spec(items.deep_view()) == Ok::<_, CompileError>(expr@),
            Err(err) => convert_app_spec(items.deep_view()) == Err::<ExprView, _>(err),
        },
    decreases items, items.len() + 1,
{
    proof {
        lemma_deep_view_index(items);
    }
    let callee = convert(&items[0])?;
    let args = convert_range(items, 1, items.len())?;
    let expr = SExpr::App(Box::new(callee), args);
    proof {
        lemma_sexpr_view(&expr);
    }
    Ok(expr)
}

/// The expression that a tree stands for.
pub fn convert(x: &Sexp) -> (result: Result<SExpr, CompileError>)
    ensures
        match result {
            Ok(expr) => convert_spec(x@) == Ok::<_, CompileError>(expr@),
            Err(err) => convert_spec(x@) == Err::<ExprView, _>(err),
        },
    decreases x, 1nat,
{
    proof {
        lemma_sexp_view(x);
    }
    match x {
        Sexp::Atom(text) => parse_atom(text),
        Sexp::List(items) => convert_form(items),
    }
}

/// Parses the text of a program: the last top-level form is the expression of the
/// program, the forms before it are its definitions.
pub fn parse_program(source: &str) -> (result: Result<SExpr, CompileError>)
    ensures
        match result {
            Ok(program) => parse_program_spec(source@) == Ok::<_, CompileError>(program@),
            Err(err) => parse_program_spec(source@) == Err::<ExprView, _>(err),
        },
{
    let forms = read_all(source)?;
    proof {
        lemma_deep_view_index(&forms);
    }
    if forms.len() == 0 {
        return Err(CompileError::EmptyProgram);
    }
    let last = forms.len() - 1;
    let defs = convert_range(&forms, 0, last)?;
    let body = convert(&forms[last])?;
    let program = SExpr::Prog(defs, Box::new(body));
    proof {
        lemma_sexpr_view(&program);
    }
    Ok(program)
}

} // verus!

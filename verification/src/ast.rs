//! The source language: the syntax tree that the passes start from, and its
//! mathematical view.

use vstd::prelude::*;
use crate::names::Name;

verus! {

/// A comparison operator, which is also the condition code of a conditional jump.
#[derive(Clone, Copy, Debug, PartialEq, Eq, Structural)]
pub enum CC {
    /// `=`
    E,
    /// `<`
    L,
    /// `<=`
    LE,
    /// `>`
    G,
    /// `>=`
    GE,
}

/// A node of the source program.
#[derive(Debug, PartialEq)]
pub enum SExpr {
    Number(i64),
    Bool(bool),
    /// A variable, or in callee position the name of a primitive or of a function.
    Symbol(String),
    /// A reference to a top-level function.
    FuncName(String),
    Tuple(Vec<SExpr>),
    /// Bindings, in order, and the body they are in force for.
    Let(Vec<(String, SExpr)>, Box<SExpr>),
    If(Box<SExpr>, Box<SExpr>, Box<SExpr>),
    Cmp(CC, Box<SExpr>, Box<SExpr>),
    /// Callee and operands.
    App(Box<SExpr>, Vec<SExpr>),
    /// Name, parameters and body of a top-level function.
    Define(String, Vec<String>, Box<SExpr>),
    /// The definitions and the expression whose value the program prints.
    Prog(Vec<SExpr>, Box<SExpr>),
}

/// The view of an [`SExpr`]: the same tree over sequences.
pub enum ExprView {
    Number(i64),
    Bool(bool),
    Symbol(Name),
    FuncName(Name),
    Tuple(Seq<ExprView>),
    Let(Seq<(Name, ExprView)>, Box<ExprView>),
    If(Box<ExprView>, Box<ExprView>, Box<ExprView>),
    Cmp(CC, Box<ExprView>, Box<ExprView>),
    App(Box<ExprView>, Seq<ExprView>),
    Define(Name, Seq<Name>, Box<ExprView>),
    Prog(Seq<ExprView>, Box<ExprView>),
}

/// The view of a source tree, defined by recursion on the tree.
pub open spec fn sexpr_view(e: &SExpr) -> ExprView
    decreases e,
{
    match e {
        SExpr::Number(n) => ExprView::Number(*n),
        SExpr::Bool(b) => ExprView::Bool(*b),
        SExpr::Symbol(name) => ExprView::Symbol(name@),
        SExpr::FuncName(name) => ExprView::FuncName(name@),
        SExpr::Tuple(elts) => ExprView::Tuple(
            Seq::new(
                elts.len() as nat,
                |i: int|
                    if 0 <= i < elts.len() {
                        sexpr_view(&elts[i])
                    } else {
                        ExprView::Bool(false)
                    },
            ),
        ),
        SExpr::Let(bindings, body) => ExprView::Let(
            Seq::new(
                bindings.len() as nat,
                |i: int|
                    if 0 <= i < bindings.len() {
                        (bindings[i].0@, sexpr_view(&bindings[i].1))
                    } else {
                        (Seq::empty(), ExprView::Bool(false))
                    },
            ),
            Box::new(sexpr_view(body)),
        ),
        SExpr::If(cnd, thn, els) => ExprView::If(
            Box::new(sexpr_view(cnd)),
            Box::new(sexpr_view(thn)),
            Box::new(sexpr_view(els)),
        ),
        SExpr::Cmp(cc, left, right) => ExprView::Cmp(
            *cc,
            Box::new(sexpr_view(left)),
            Box::new(sexpr_view(right)),
        ),
        SExpr::App(f, args) => ExprView::App(
            Box::new(sexpr_view(f)),
            Seq::new(
                args.len() as nat,
                |i: int|
                    if 0 <= i < args.len() {
                        sexpr_view(&args[i])
                    } else {
                        ExprView::Bool(false)
                    },
            ),
        ),
        SExpr::Define(name, params, body) => ExprView::Define(
            name@,
            params.deep_view(),
            Box::new(sexpr_view(body)),
        ),
        SExpr::Prog(defs, e) => ExprView::Prog(
            Seq::new(
                defs.len() as nat,
                |i: int|
                    if 0 <= i < defs.len() {
                        sexpr_view(&defs[i])
                    } else {
                        ExprView::Bool(false)
                    },
            ),
            Box::new(sexpr_view(e)),
        ),
    }
}

impl DeepView for SExpr {
    type V = ExprView;

    open spec fn deep_view(&self) -> ExprView {
        sexpr_view(self)
    }
}

impl View for SExpr {
    type V = ExprView;

    open spec fn view(&self) -> ExprView {
        sexpr_view(self)
    }
}

/// The view of a node, written over the deep views of its children.
pub proof fn lemma_sexpr_view(e: &SExpr)
    ensures
        e matches SExpr::Number(n) ==> e@ == ExprView::Number(*n),
        e matches SExpr::Bool(b) ==> e@ == ExprView::Bool(*b),
        e matches SExpr::Symbol(name) ==> e@ == ExprView::Symbol(name@),
        e matches SExpr::FuncName(name) ==> e@ == ExprView::FuncName(name@),
        e matches SExpr::Tuple(elts) ==> e@ == ExprView::Tuple(elts.deep_view()),
        e matches SExpr::Let(bindings, body) ==> e@ == ExprView::Let(
            bindings.deep_view(),
            Box::new(body@),
        ),
        e matches SExpr::If(cnd, thn, els) ==> e@ == ExprView::If(
            Box::new(cnd@),
            Box::new(thn@),
            Box::new(els@),
        ),
        e matches SExpr::Cmp(cc, left, right) ==> e@ == ExprView::Cmp(
            *cc,
            Box::new(left@),
            Box::new(right@),
        ),
        e matches SExpr::App(f, args) ==> e@ == ExprView::App(Box::new(f@), args.deep_view()),
        e matches SExpr::Define(name, params, body) ==> e@ == ExprView::Define(
            name@,
            params.deep_view(),
            Box::new(body@),
        ),
        e matches SExpr::Prog(defs, body) ==> e@ == ExprView::Prog(
            defs.deep_view(),
            Box::new(body@),
        ),
{
    match e {
        SExpr::Tuple(elts) => {
            assert(e@->Tuple_0 =~= elts.deep_view());
        },
        SExpr::Let(bindings, _) => {
            assert(e@->Let_0 =~= bindings.deep_view());
        },
        SExpr::App(_, args) => {
            assert(e@->App_1 =~= args.deep_view());
        },
        SExpr::Prog(defs, _) => {
            assert(e@->Prog_0 =~= defs.deep_view());
        },
        _ => {},
    }
}

} // verus!

//! Administrative normal form: every operand of a compound expression becomes a literal
//! or a variable, and every intermediate result gets a name.

use vstd::prelude::*;
use vstd::string::*;
use crate::anf_spec::{
    Flattened, FlattenedBindings, FlattenedList, atom_spec, call_spec, dedup_adjacent,
    flatten_app_spec, flatten_bindings_spec, flatten_cmp_spec, flatten_cond_spec,
    flatten_define_spec, flatten_defs_spec, flatten_expr_spec, flatten_if_spec,
    flatten_let_spec, flatten_list_spec, flatten_neg_spec, flatten_plus_spec,
    flatten_prog_spec, flatten_spec, flatten_tuple_ref_spec, flatten_tuple_spec, named_spec,
    stub_spec,
    symbol_of,
};
use crate::ast::{CC, ExprView, SExpr, lemma_sexpr_view};
use crate::error::CompileError;
use crate::names::{Counts, Name, NameSupply, bump, exhausted, fresh_name, is_name};
use crate::seqs::{
    append_deep, empty_deep, lemma_deep_view_index, lemma_take_all, lemma_take_push, push_deep,
};
use crate::varset::minus_names;

verus! {

/// A flat expression or statement.
#[derive(Debug, PartialEq)]
pub enum Flat {
    Symbol(String),
    FuncName(String),
    Number(i64),
    Bool(bool),
    Tuple(Vec<Flat>),
    Assign(String, Box<Flat>),
    Return(Box<Flat>),
    If(Box<Flat>, Vec<Flat>, Vec<Flat>),
    Cmp(CC, Box<Flat>, Box<Flat>),
    App(String, Vec<Flat>),
    Prim(String, Vec<Flat>),
}

/// What flattening a node gives.
#[derive(Debug, PartialEq)]
pub enum FlatResult {
    /// Definitions, the statements of the main body, and the main body's variables.
    Prog(Vec<FlatResult>, Vec<Flat>, Vec<String>),
    /// Name, parameters, statements and the variables other than the parameters.
    Define(String, Vec<String>, Vec<Flat>, Vec<String>),
    /// The atom that stands for an expression, the statements that compute it, and the
    /// variables they mention.
    Flat(Flat, Vec<Flat>, Vec<String>),
}

/// The view of a [`Flat`].
pub enum FlatView {
    Symbol(Name),
    FuncName(Name),
    Number(i64),
    Bool(bool),
    Tuple(Seq<FlatView>),
    Assign(Name, Box<FlatView>),
    Return(Box<FlatView>),
    If(Box<FlatView>, Seq<FlatView>, Seq<FlatView>),
    Cmp(CC, Box<FlatView>, Box<FlatView>),
    App(Name, Seq<FlatView>),
    Prim(Name, Seq<FlatView>),
}

/// The view of a [`FlatResult`].
pub enum FlatResultView {
    Prog(Seq<FlatResultView>, Seq<FlatView>, Seq<Name>),
    Define(Name, Seq<Name>, Seq<FlatView>, Seq<Name>),
    Flat(FlatView, Seq<FlatView>, Seq<Name>),
}

/// The views of the elements of a vector of flat terms.
pub open spec fn flat_views(v: &Vec<Flat>) -> Seq<FlatView>
    decreases v, 1nat,
{
    Seq::new(
        v.len() as nat,
        |i: int|
            if 0 <= i < v.len() {
                flat_view(&v[i])
            } else {
                FlatView::Bool(false)
            },
    )
}

/// The view of a flat term, defined by recursion on the term.
pub open spec fn flat_view(f: &Flat) -> FlatView
    decreases f, 0nat,
{
    match f {
        Flat::Symbol(name) => FlatView::Symbol(name@),
        Flat::FuncName(name) => FlatView::FuncName(name@),
        Flat::Number(n) => FlatView::Number(*n),
        Flat::Bool(b) => FlatView::Bool(*b),
        Flat::Tuple(elts) => FlatView::Tuple(flat_views(elts)),
        Flat::Assign(name, e) => FlatView::Assign(name@, Box::new(flat_view(e))),
        Flat::Return(e) => FlatView::Return(Box::new(flat_view(e))),
        Flat::If(cnd, thn, els) => FlatView::If(
            Box::new(flat_view(cnd)),
            flat_views(thn),
            flat_views(els),
        ),
        Flat::Cmp(cc, left, right) => FlatView::Cmp(
            *cc,
            Box::new(flat_view(left)),
            Box::new(flat_view(right)),
        ),
        Flat::App(name, args) => FlatView::App(name@, flat_views(args)),
        Flat::Prim(name, args) => FlatView::Prim(name@, flat_views(args)),
    }
}

impl DeepView for Flat {
    type V = FlatView;

    open spec fn deep_view(&self) -> FlatView {
        flat_view(self)
    }
}

impl View for Flat {
    type V = FlatView;

    open spec fn view(&self) -> FlatView {
        flat_view(self)
    }
}

/// The two ways of viewing a vector of flat terms agree.
pub proof fn lemma_flat_views(v: &Vec<Flat>)
    ensures
        flat_views(v) == v.deep_view(),
{
    assert(flat_views(v) =~= v.deep_view());
}

/// The view of a flat term, written over the deep views of its children.
pub proof fn lemma_flat_view(f: &Flat)
    ensures
        f matches Flat::Symbol(name) ==> f@ == FlatView::Symbol(name@),
        f matches Flat::FuncName(name) ==> f@ == FlatView::FuncName(name@),
        f matches Flat::Number(n) ==> f@ == FlatView::Number(*n),
        f matches Flat::Bool(b) ==> f@ == FlatView::Bool(*b),
        f matches Flat::Tuple(elts) ==> f@ == FlatView::Tuple(elts.deep_view()),
        f matches Flat::Assign(name, e) ==> f@ == FlatView::Assign(name@, Box::new(e@)),
        f matches Flat::Return(e) ==> f@ == FlatView::Return(Box::new(e@)),
        f matches Flat::If(cnd, thn, els) ==> f@ == FlatView::If(
            Box::new(cnd@),
            thn.deep_view(),
            els.deep_view(),
        ),
        f matches Flat::Cmp(cc, left, right) ==> f@ == FlatView::Cmp(
            *cc,
            Box::new(left@),
            Box::new(right@),
        ),
        f matches Flat::App(name, args) ==> f@ == FlatView::App(name@, args.deep_view()),
        f matches Flat::Prim(name, args) ==> f@ == FlatView::Prim(name@, args.deep_view()),
{
    match f {
        Flat::Tuple(elts) => {
            lemma_flat_views(elts);
        },
        Flat::If(_, thn, els) => {
            lemma_flat_views(thn);
            lemma_flat_views(els);
        },
        Flat::App(_, args) => {
            lemma_flat_views(args);
        },
        Flat::Prim(_, args) => {
            lemma_flat_views(args);
        },
        _ => {},
    }
}

/// The view of a flattening result, defined by recursion on it.
pub open spec fn flat_result_view(r: &FlatResult) -> FlatResultView
    decreases r,
{
    match r {
        FlatResult::Prog(defs, stmts, vars) => FlatResultView::Prog(
            Seq::new(
                defs.len() as nat,
                |i: int|
                    if 0 <= i < defs.len() {
                        flat_result_view(&defs[i])
                    } else {
                        FlatResultView::Flat(FlatView::Bool(false), Seq::empty(), Seq::empty())
                    },
            ),
            stmts.deep_view(),
            vars.deep_view(),
        ),
        FlatResult::Define(name, params, stmts, vars) => FlatResultView::Define(
            name@,
            params.deep_view(),
            stmts.deep_view(),
            vars.deep_view(),
        ),
        FlatResult::Flat(atom, stmts, vars) => FlatResultView::Flat(
            atom@,
            stmts.deep_view(),
            vars.deep_view(),
        ),
    }
}

impl DeepView for FlatResult {
    type V = FlatResultView;

    open spec fn deep_view(&self) -> FlatResultView {
        flat_result_view(self)
    }
}

impl View for FlatResult {
    type V = FlatResultView;

    open spec fn view(&self) -> FlatResultView {
        flat_result_view(self)
    }
}

/// The view of a program, written over the deep view of its definitions.
pub proof fn lemma_flat_result_view(r: &FlatResult)
    ensures
        r matches FlatResult::Prog(defs, stmts, vars) ==> r@ == FlatResultView::Prog(
            defs.deep_view(),
            stmts.deep_view(),
            vars.deep_view(),
        ),
{
    match r {
        FlatResult::Prog(defs, _, _) => {
            assert(r@->Prog_0 =~= defs.deep_view());
        },
        _ => {},
    }
}

/// Whether a flat term is a literal or a variable.
pub open spec fn is_atom(f: FlatView) -> bool {
    f is Symbol || f is FuncName || f is Number || f is Bool
}

/// Whether every term of a sequence is an atom.
pub open spec fn all_atoms(fs: Seq<FlatView>) -> bool {
    forall|i: int| 0 <= i < fs.len() ==> is_atom(#[trigger] fs[i])
}

/// Whether a term is an atom or a compound whose operands are all atoms.
pub open spec fn is_anf_value(f: FlatView) -> bool {
    match f {
        FlatView::Tuple(elts) => all_atoms(elts),
        FlatView::Prim(_, args) => all_atoms(args),
        FlatView::App(_, args) => all_atoms(args),
        FlatView::Cmp(_, left, right) => is_atom(*left) && is_atom(*right),
        _ => is_atom(f),
    }
}

/// Whether a statement is in normal form: an assignment of a value in normal form, the
/// return of an atom, or a conditional over such statements.
pub open spec fn is_anf_stmt(s: FlatView) -> bool
    decreases s,
{
    match s {
        FlatView::Assign(_, value) => is_anf_value(*value),
        FlatView::Return(value) => is_atom(*value),
        FlatView::If(cnd, thn, els) => {
            &&& is_anf_value(*cnd)
            &&& forall|i: int| 0 <= i < thn.len() ==> is_anf_stmt(#[trigger] thn[i])
            &&& forall|i: int| 0 <= i < els.len() ==> is_anf_stmt(#[trigger] els[i])
        },
        _ => false,
    }
}

/// Whether every statement of a sequence is in normal form.
pub open spec fn all_anf(stmts: Seq<FlatView>) -> bool {
    forall|i: int| 0 <= i < stmts.len() ==> is_anf_stmt(#[trigger] stmts[i])
}

/// Whether a flattening result is in normal form throughout.
pub open spec fn is_anf(r: FlatResultView) -> bool
    decreases r,
{
    match r {
        FlatResultView::Prog(defs, stmts, _) => {
            &&& forall|i: int| 0 <= i < defs.len() ==> is_anf(#[trigger] defs[i])
            &&& all_anf(stmts)
        },
        FlatResultView::Define(_, _, stmts, _) => all_anf(stmts),
        FlatResultView::Flat(atom, stmts, _) => is_atom(atom) && all_anf(stmts),
    }
}

impl Flat {
    /// The variable `name`.
    pub fn symbol(name: String) -> (f: Flat)
        ensures
            f@ == FlatView::Symbol(name@),
    {
        Flat::Symbol(name)
    }

    /// The assignment of `value` to `name`.
    pub fn assign(name: String, value: Flat) -> (f: Flat)
        ensures
            f@ == FlatView::Assign(name@, Box::new(value@)),
    {
        Flat::Assign(name, Box::new(value))
    }

    /// The return of `value`.
    pub fn ret(value: Flat) -> (f: Flat)
        ensures
            f@ == FlatView::Return(Box::new(value@)),
    {
        Flat::Return(Box::new(value))
    }

    /// The tuple of `elts`.
    pub fn tuple(elts: Vec<Flat>) -> (f: Flat)
        ensures
            f@ == FlatView::Tuple(elts.deep_view()),
    {
        let f = Flat::Tuple(elts);
        proof {
            lemma_flat_view(&f);
        }
        f
    }

    /// The primitive `op` applied to `args`.
    pub fn prim(op: String, args: Vec<Flat>) -> (f: Flat)
        ensures
            f@ == FlatView::Prim(op@, args.deep_view()),
    {
        let f = Flat::Prim(op, args);
        proof {
            lemma_flat_view(&f);
        }
        f
    }

    /// The call of `name` with `args`.
    pub fn app(name: String, args: Vec<Flat>) -> (f: Flat)
        ensures
            f@ == FlatView::App(name@, args.deep_view()),
    {
        let f = Flat::App(name, args);
        proof {
            lemma_flat_view(&f);
        }
        f
    }

    /// The comparison of `left` and `right`.
    pub fn compare(cc: CC, left: Flat, right: Flat) -> (f: Flat)
        ensures
            f@ == FlatView::Cmp(cc, Box::new(left@), Box::new(right@)),
    {
        Flat::Cmp(cc, Box::new(left), Box::new(right))
    }

    /// The conditional with condition `cnd` and the two branches.
    pub fn branch(cnd: Flat, thn: Vec<Flat>, els: Vec<Flat>) -> (f: Flat)
        ensures
            f@ == FlatView::If(Box::new(cnd@), thn.deep_view(), els.deep_view()),
    {
        let f = Flat::If(Box::new(cnd), thn, els);
        proof {
            lemma_flat_view(&f);
        }
        f
    }
}

/// An error among the first `k` expressions of a list is the error of the whole list.
proof fn lemma_list_error(es: Seq<ExprView>, c: Counts, k: int)
    requires
        0 <= k <= es.len(),
        flatten_list_spec(es.take(k), c) is Err,
    ensures
        flatten_list_spec(es, c) == flatten_list_spec(es.take(k), c),
    decreases es.len(),
{
    if k == es.len() {
        lemma_take_all(es);
    } else {
        assert(es.drop_last().take(k) =~= es.take(k));
        lemma_list_error(es.drop_last(), c, k);
    }
}

/// An error among the first `k` bindings is the error of all the bindings.
proof fn lemma_bindings_error(bs: Seq<(Name, ExprView)>, c: Counts, k: int)
    requires
        0 <= k <= bs.len(),
        flatten_bindings_spec(bs.take(k), c) is Err,
    ensures
        flatten_bindings_spec(bs, c) == flatten_bindings_spec(bs.take(k), c),
    decreases bs.len(),
{
    if k == bs.len() {
        lemma_take_all(bs);
    } else {
        assert(bs.drop_last().take(k) =~= bs.take(k));
        lemma_bindings_error(bs.drop_last(), c, k);
    }
}

/// An error among the first `k` definitions is the error of all the definitions.
proof fn lemma_defs_error(ds: Seq<ExprView>, c: Counts, k: int)
    requires
        0 <= k <= ds.len(),
        flatten_defs_spec(ds.take(k), c) is Err,
    ensures
        flatten_defs_spec(ds, c) == flatten_defs_spec(ds.take(k), c),
    decreases ds.len(),
{
    if k == ds.len() {
        lemma_take_all(ds);
    } else {
        assert(ds.drop_last().take(k) =~= ds.take(k));
        lemma_defs_error(ds.drop_last(), c, k);
    }
}

/// Drops the adjacent repetitions of a list of names.
pub fn dedup_names(vars: &Vec<String>) -> (out: Vec<String>)
    ensures
        out.deep_view() == dedup_adjacent(vars.deep_view()),
{
    let mut out: Vec<String> = empty_deep();
    let mut i: usize = 0;
    while i < vars.len()
        invariant
            i <= vars.len(),
            out.deep_view() == dedup_adjacent(vars.deep_view().take(i as int)),
        decreases vars.len() - i,
    {
        proof {
            lemma_take_push(vars.deep_view(), i as int);
            lemma_deep_view_index(vars);
            lemma_deep_view_index(&out);
        }
        let n = out.len();
        if n > 0 && out[n - 1] == vars[i] {
        } else {
            push_deep(&mut out, vars[i].clone());
        }
        i = i + 1;
    }
    proof {
        lemma_take_all(vars.deep_view());
    }
    out
}

/// Whether `result` is what `spec` prescribes, with `after` names handed out, and in
/// normal form.
pub open spec fn flattens_to(
    result: Result<FlatResult, CompileError>,
    spec: Result<(FlatResultView, Counts), CompileError>,
    after: Counts,
) -> bool {
    match result {
        Ok(flat) => spec == Ok::<_, CompileError>((flat@, after)) && is_anf(flat@),
        Err(err) => spec == Err::<(FlatResultView, Counts), _>(err),
    }
}

/// Whether `result` is the triple that `spec` prescribes, with `after` names handed
/// out, its statements in normal form.
pub open spec fn flattens_to_triple(
    result: Result<(Flat, Vec<Flat>, Vec<String>), CompileError>,
    spec: Result<Flattened, CompileError>,
    after: Counts,
) -> bool {
    match result {
        Ok((atom, stmts, vars)) => {
            &&& spec == Ok::<_, CompileError>(
                Flattened {
                    atom: atom@,
                    stmts: stmts.deep_view(),
                    vars: vars.deep_view(),
                    count: after,
                },
            )
            &&& all_anf(stmts.deep_view())
        },
        Err(err) => spec == Err::<Flattened, _>(err),
    }
}

/// Draws the name of a temporary.
fn fresh_or_fail(names: &mut NameSupply, prefix: &str) -> (result: Result<String, CompileError>)
    ensures
        match result {
            Ok(name) => {
                &&& !exhausted(old(names)@, prefix@)
                &&& name@ == fresh_name(prefix@, old(names)@)
                &&& final(names)@ == bump(old(names)@, prefix@)
            },
            Err(err) => {
                &&& exhausted(old(names)@, prefix@)
                &&& err == CompileError::NamesExhausted
                &&& final(names)@ == old(names)@
            },
        },
{
    match names.fresh(prefix) {
        Some(name) => Ok(name),
        None => Err(CompileError::NamesExhausted),
    }
}

/// Names `value` by a fresh temporary, after the statements that computed its operands.
fn finish_named(value: Flat, stmts: Vec<Flat>, vars: Vec<String>, names: &mut NameSupply) -> (result:
    Result<FlatResult, CompileError>)
    requires
        is_anf_value(value@),
        all_anf(stmts.deep_view()),
    ensures
        flattens_to(
            result,
            named_spec(value@, stmts.deep_view(), vars.deep_view(), old(names)@),
            final(names)@,
        ),
{
    let mut stmts = stmts;
    let mut vars = vars;
    let tmp = fresh_or_fail(names, "tmp")?;
    push_deep(&mut stmts, Flat::assign(tmp.clone(), value));
    push_deep(&mut vars, tmp.clone());
    Ok(FlatResult::Flat(Flat::symbol(tmp), stmts, vars))
}

/// Flattens a call of `fname`: the temporary for the result is named first, then the
/// operands are flattened from left to right.
fn flatten_call(
    fname: &String,
    stmts: Vec<Flat>,
    vars: Vec<String>,
    args: &Vec<SExpr>,
    names: &mut NameSupply,
) -> (result: Result<FlatResult, CompileError>)
    requires
        all_anf(stmts.deep_view()),
    ensures
        flattens_to(
            result,
            call_spec(fname@, stmts.deep_view(), vars.deep_view(), args.deep_view(), old(names)@),
            final(names)@,
        ),
    decreases args, 1nat,
{
    let mut stmts = stmts;
    let mut vars = vars;
    let tmp = fresh_or_fail(names, "tmp")?;
    let (atoms, mut arg_stmts, mut arg_vars) = flatten_args(args, names)?;
    append_deep(&mut stmts, &mut arg_stmts);
    let value = Flat::app(fname.clone(), atoms);
    push_deep(&mut stmts, Flat::assign(tmp.clone(), value));
    push_deep(&mut vars, tmp.clone());
    append_deep(&mut vars, &mut arg_vars);
    Ok(FlatResult::Flat(Flat::symbol(tmp), stmts, vars))
}

/// The reference to the function `fname` in its closure.
fn flatten_stub(fname: &String, names: &mut NameSupply) -> (result: Result<
    FlatResult,
    CompileError,
>)
    ensures
        flattens_to(result, stub_spec(fname@, old(names)@), final(names)@),
{
    let closure = fresh_or_fail(names, "tmp")?;
    let reference = fresh_or_fail(names, "tmp")?;
    let mut elts: Vec<Flat> = empty_deep();
    push_deep(&mut elts, Flat::FuncName(fname.clone()));
    assert(elts.deep_view() =~= seq![FlatView::FuncName(fname@)]);
    let mut operands: Vec<Flat> = empty_deep();
    push_deep(&mut operands, Flat::symbol(closure.clone()));
    push_deep(&mut operands, Flat::Number(0));
    assert(operands.deep_view() =~= seq![FlatView::Symbol(closure@), FlatView::Number(0)]);
    let first = Flat::assign(closure.clone(), Flat::tuple(elts));
    let second = Flat::assign(
        reference.clone(),
        Flat::prim(String::from_str("tuple-ref"), operands),
    );
    assert(is_anf_stmt(first@) && is_anf_stmt(second@));
    let mut stmts: Vec<Flat> = empty_deep();
    push_deep(&mut stmts, first);
    push_deep(&mut stmts, second);
    assert(stmts.deep_view() =~= seq![first@, second@]);
    let mut vars: Vec<String> = empty_deep();
    push_deep(&mut vars, fname.clone());
    push_deep(&mut vars, closure);
    push_deep(&mut vars, reference.clone());
    assert(vars.deep_view() =~= seq![fname@, closure@, reference@]);
    Ok(FlatResult::Flat(Flat::symbol(reference), stmts, vars))
}

/// Flattens the operand of a unary minus.
fn flatten_neg(args: &Vec<SExpr>, names: &mut NameSupply) -> (result: Result<
    FlatResult,
    CompileError,
>)
    ensures
        flattens_to(result, flatten_neg_spec(args.deep_view(), old(names)@), final(names)@),
    decreases args, 1nat,
{
    proof {
        lemma_deep_view_index(args);
    }
    if args.len() != 1 {
        return Err(CompileError::BadArity);
    }
    let (atom, stmts, vars) = flatten_expr(&args[0], names)?;
    let mut atoms: Vec<Flat> = empty_deep();
    push_deep(&mut atoms, atom);
    assert(atoms.deep_view() =~= seq![atom@]);
    finish_named(Flat::prim(String::from_str("-"), atoms), stmts, vars, names)
}

/// Flattens the two operands of an addition.
fn flatten_plus(args: &Vec<SExpr>, names: &mut NameSupply) -> (result: Result<
    FlatResult,
    CompileError,
>)
    ensures
        flattens_to(result, flatten_plus_spec(args.deep_view(), old(names)@), final(names)@),
    decreases args, 1nat,
{
    proof {
        lemma_deep_view_index(args);
    }
    if args.len() != 2 {
        return Err(CompileError::BadArity);
    }
    let (first, mut stmts, mut vars) = flatten_expr(&args[0], names)?;
    let (second, mut more_stmts, mut more_vars) = flatten_expr(&args[1], names)?;
    append_deep(&mut stmts, &mut more_stmts);
    append_deep(&mut vars, &mut more_vars);
    let mut atoms: Vec<Flat> = empty_deep();
    push_deep(&mut atoms, first);
    push_deep(&mut atoms, second);
    assert(atoms.deep_view() =~= seq![first@, second@]);
    finish_named(Flat::prim(String::from_str("+"), atoms), stmts, vars, names)
}

/// Flattens a positional reference into a tuple.
fn flatten_tuple_ref(args: &Vec<SExpr>, names: &mut NameSupply) -> (result: Result<
    FlatResult,
    CompileError,
>)
    ensures
        flattens_to(result, flatten_tuple_ref_spec(args.deep_view(), old(names)@), final(names)@),
    decreases args, 1nat,
{
    proof {
        lemma_deep_view_index(args);
    }
    if args.len() != 2 {
        return Err(CompileError::BadArity);
    }
    match &args[1] {
        SExpr::Number(index) => {
            let (tuple, stmts, vars) = flatten_expr(&args[0], names)?;
            let mut atoms: Vec<Flat> = empty_deep();
            push_deep(&mut atoms, tuple);
            push_deep(&mut atoms, Flat::Number(*index));
            assert(atoms.deep_view() =~= seq![tuple@, FlatView::Number(*index)]);
            finish_named(Flat::prim(String::from_str("tuple-ref"), atoms), stmts, vars, names)
        },
        _ => Err(CompileError::NonLiteralIndex),
    }
}

/// Flattens a list of expressions from left to right: the atoms, one for each
/// expression, then the statements and the variables of all of them in order.
pub fn flatten_args(args: &Vec<SExpr>, names: &mut NameSupply) -> (result: Result<
    (Vec<Flat>, Vec<Flat>, Vec<String>),
    CompileError,
>)
    ensures
        match result {
            Ok((atoms, stmts, vars)) => {
                &&& flatten_list_spec(args.deep_view(), old(names)@) == Ok::<_, CompileError>(
                    FlattenedList {
                        atoms: atoms.deep_view(),
                        stmts: stmts.deep_view(),
                        vars: vars.deep_view(),
                        count: final(names)@,
                    },
                )
                &&& all_atoms(atoms.deep_view())
                &&& all_anf(stmts.deep_view())
            },
            Err(err) => flatten_list_spec(args.deep_view(), old(names)@) == Err::<
                FlattenedList,
                _,
            >(err),
        },
    decreases args, 0nat,
{
    let mut atoms: Vec<Flat> = empty_deep();
    let mut stmts: Vec<Flat> = empty_deep();
    let mut vars: Vec<String> = empty_deep();
    let ghost c0 = names@;
    let ghost es = args.deep_view();
    let mut i: usize = 0;
    while i < args.len()
        invariant
            i <= args.len(),
            es == args.deep_view(),
            c0 == old(names)@,
            flatten_list_spec(es.take(i as int), c0) == Ok::<_, CompileError>(
                FlattenedList {
                    atoms: atoms.deep_view(),
                    stmts: stmts.deep_view(),
                    vars: vars.deep_view(),
                    count: names@,
                },
            ),
            all_atoms(atoms.deep_view()),
            all_anf(stmts.deep_view()),
        decreases args.len() - i,
    {
        proof {
            lemma_take_push(es, i as int);
            lemma_deep_view_index(args);
        }
        match flatten_expr(&args[i], names) {
            Err(err) => {
                proof {
                    lemma_list_error(es, c0, i + 1);
                }
                return Err(err);
            },
            Ok((atom, s, v)) => {
                let mut s = s;
                let mut v = v;
                push_deep(&mut atoms, atom);
                append_deep(&mut stmts, &mut s);
                append_deep(&mut vars, &mut v);
            },
        }
        i = i + 1;
    }
    proof {
        lemma_take_all(es);
    }
    Ok((atoms, stmts, vars))
}

/// Flattens the bindings of a `let` from first to last.
fn flatten_bindings(bindings: &Vec<(String, SExpr)>, names: &mut NameSupply) -> (result: Result<
    (Vec<Flat>, Vec<String>),
    CompileError,
>)
    ensures
        match result {
            Ok((stmts, vars)) => {
                &&& flatten_bindings_spec(bindings.deep_view(), old(names)@) == Ok::<
                    _,
                    CompileError,
                >(
                    FlattenedBindings {
                        stmts: stmts.deep_view(),
                        vars: vars.deep_view(),
                        count: final(names)@,
                    },
                )
                &&& all_anf(stmts.deep_view())
            },
            Err(err) => flatten_bindings_spec(bindings.deep_view(), old(names)@) == Err::<
                FlattenedBindings,
                _,
            >(err),
        },
    decreases bindings, 0nat,
{
    let mut stmts: Vec<Flat> = empty_deep();
    let mut vars: Vec<String> = empty_deep();
    let ghost c0 = names@;
    let ghost bs = bindings.deep_view();
    let mut i: usize = 0;
    while i < bindings.len()
        invariant
            i <= bindings.len(),
            bs == bindings.deep_view(),
            c0 == old(names)@,
            flatten_bindings_spec(bs.take(i as int), c0) == Ok::<_, CompileError>(
                FlattenedBindings {
                    stmts: stmts.deep_view(),
                    vars: vars.deep_view(),
                    count: names@,
                },
            ),
            all_anf(stmts.deep_view()),
        decreases bindings.len() - i,
    {
        proof {
            lemma_take_push(bs, i as int);
            lemma_deep_view_index(bindings);
        }
        let binding = &bindings[i];
        match flatten_expr(&binding.1, names) {
            Err(err) => {
                proof {
                    lemma_bindings_error(bs, c0, i + 1);
                }
                return Err(err);
            },
            Ok((atom, s, v)) => {
                let mut s = s;
                let mut v = v;
                let ghost before = vars.deep_view();
                match &atom {
                    Flat::Symbol(name) => {
                        push_deep(&mut vars, name.clone());
                    },
                    _ => {},
                }
                assert(vars.deep_view() =~= before + symbol_of(atom@));
                append_deep(&mut stmts, &mut s);
                push_deep(&mut stmts, Flat::assign(binding.0.clone(), atom));
                append_deep(&mut vars, &mut v);
                push_deep(&mut vars, binding.0.clone());
            },
        }
        i = i + 1;
    }
    proof {
        lemma_take_all(bs);
    }
    Ok((stmts, vars))
}

/// Flattens the definitions of a program from first to last.
fn flatten_defs(defs: &Vec<SExpr>, names: &mut NameSupply) -> (result: Result<
    Vec<FlatResult>,
    CompileError,
>)
    ensures
        match result {
            Ok(flat_defs) => {
                &&& flatten_defs_spec(defs.deep_view(), old(names)@) == Ok::<_, CompileError>(
                    (flat_defs.deep_view(), final(names)@),
                )
                &&& forall|i: int|
                    0 <= i < flat_defs.deep_view().len() ==> is_anf(
                        #[trigger] flat_defs.deep_view()[i],
                    )
            },
            Err(err) => flatten_defs_spec(defs.deep_view(), old(names)@) == Err::<
                (Seq<FlatResultView>, Counts),
                _,
            >(err),
        },
    decreases defs, 0nat,
{
    let mut flat_defs: Vec<FlatResult> = empty_deep();
    let ghost c0 = names@;
    let ghost ds = defs.deep_view();
    let mut i: usize = 0;
    while i < defs.len()
        invariant
            i <= defs.len(),
            ds == defs.deep_view(),
            c0 == old(names)@,
            flatten_defs_spec(ds.take(i as int), c0) == Ok::<_, CompileError>(
                (flat_defs.deep_view(), names@),
            ),
            forall|j: int|
                0 <= j < flat_defs.deep_view().len() ==> is_anf(#[trigger] flat_defs.deep_view()[j]),
        decreases defs.len() - i,
    {
        proof {
            lemma_take_push(ds, i as int);
            lemma_deep_view_index(defs);
        }
        match flatten(&defs[i], names) {
            Err(err) => {
                proof {
                    lemma_defs_error(ds, c0, i + 1);
                }
                return Err(err);
            },
            Ok(def) => {
                push_deep(&mut flat_defs, def);
            },
        }
        i = i + 1;
    }
    proof {
        lemma_take_all(ds);
    }
    Ok(flat_defs)
}

/// Flattens a node that must be an expression: the atom that stands for it, the
/// statements that compute it, and the variables they mention.
pub fn flatten_expr(expr: &SExpr, names: &mut NameSupply) -> (result: Result<
    (Flat, Vec<Flat>, Vec<String>),
    CompileError,
>)
    ensures
        flattens_to_triple(result, flatten_expr_spec(expr@, old(names)@), final(names)@),
        result matches Ok((atom, _, _)) ==> is_atom(atom@),
    decreases expr, 2nat,
{
    match flatten(expr, names)? {
        FlatResult::Flat(atom, stmts, vars) => Ok((atom, stmts, vars)),
        _ => Err(CompileError::NotAnExpression),
    }
}

/// Flattens the condition of an `if`: a comparison stays a comparison, of two atoms.
fn flatten_cond(expr: &SExpr, names: &mut NameSupply) -> (result: Result<
    (Flat, Vec<Flat>, Vec<String>),
    CompileError,
>)
    ensures
        flattens_to_triple(result, flatten_cond_spec(expr@, old(names)@), final(names)@),
        result matches Ok((cnd, _, _)) ==> is_anf_value(cnd@),
    decreases expr, 3nat,
{
    proof {
        lemma_sexpr_view(expr);
    }
    match expr {
        SExpr::Cmp(cc, left, right) => {
            let (left_atom, mut stmts, mut vars) = flatten_expr(left, names)?;
            let (right_atom, mut right_stmts, mut right_vars) = flatten_expr(right, names)?;
            append_deep(&mut stmts, &mut right_stmts);
            append_deep(&mut vars, &mut right_vars);
            Ok((Flat::compare(*cc, left_atom, right_atom), stmts, vars))
        },
        _ => flatten_expr(expr, names),
    }
}

/// Flattens a tuple.
fn flatten_tuple(expr: &SExpr, names: &mut NameSupply) -> (result: Result<FlatResult, CompileError>)
    requires
        expr is Tuple,
    ensures
        flattens_to(result, flatten_tuple_spec(expr@, old(names)@), final(names)@),
    decreases expr, 0nat,
{
    proof {
        lemma_sexpr_view(expr);
    }
    match expr {
        SExpr::Tuple(elts) => {
            let tmp = fresh_or_fail(names, "tmp")?;
            let (atoms, mut stmts, mut vars) = flatten_args(elts, names)?;
            push_deep(&mut stmts, Flat::assign(tmp.clone(), Flat::tuple(atoms)));
            push_deep(&mut vars, tmp.clone());
            Ok(FlatResult::Flat(Flat::symbol(tmp), stmts, vars))
        },
        _ => Err(CompileError::NotAnExpression),
    }
}

/// Flattens a `let`.
fn flatten_let(expr: &SExpr, names: &mut NameSupply) -> (result: Result<FlatResult, CompileError>)
    requires
        expr is Let,
    ensures
        flattens_to(result, flatten_let_spec(expr@, old(names)@), final(names)@),
    decreases expr, 0nat,
{
    proof {
        lemma_sexpr_view(expr);
    }
    match expr {
        SExpr::Let(bindings, body) => {
            let (atom, mut body_stmts, mut body_vars) = flatten_expr(body, names)?;
            let (mut stmts, mut vars) = flatten_bindings(bindings, names)?;
            append_deep(&mut stmts, &mut body_stmts);
            append_deep(&mut vars, &mut body_vars);
            Ok(FlatResult::Flat(atom, stmts, vars))
        },
        _ => Err(CompileError::NotAnExpression),
    }
}

/// Flattens an `if`.
fn flatten_if(expr: &SExpr, names: &mut NameSupply) -> (result: Result<FlatResult, CompileError>)
    requires
        expr is If,
    ensures
        flattens_to(result, flatten_if_spec(expr@, old(names)@), final(names)@),
    decreases expr, 0nat,
{
    proof {
        lemma_sexpr_view(expr);
    }
    match expr {
        SExpr::If(cnd, thn, els) => {
            let (cnd_value, mut stmts, mut vars) = flatten_cond(cnd, names)?;
            let (thn_atom, mut thn_stmts, mut thn_vars) = flatten_expr(thn, names)?;
            let (els_atom, mut els_stmts, mut els_vars) = flatten_expr(els, names)?;
            let merge = fresh_or_fail(names, "if")?;
            let ghost cnd_vars = vars.deep_view();
            let ghost branch_vars = (thn_vars.deep_view(), els_vars.deep_view());
            let thn_merge = Flat::assign(merge.clone(), thn_atom);
            let els_merge = Flat::assign(merge.clone(), els_atom);
            assert(is_anf_stmt(thn_merge@) && is_anf_stmt(els_merge@));
            push_deep(&mut thn_stmts, thn_merge);
            push_deep(&mut els_stmts, els_merge);
            assert(all_anf(thn_stmts.deep_view()) && all_anf(els_stmts.deep_view()));
            let branch = Flat::branch(cnd_value, thn_stmts, els_stmts);
            assert(is_anf_stmt(branch@));
            push_deep(&mut stmts, branch);
            append_deep(&mut vars, &mut thn_vars);
            append_deep(&mut vars, &mut els_vars);
            push_deep(&mut vars, merge.clone());
            assert(vars.deep_view() =~= (cnd_vars + branch_vars.0 + branch_vars.1).push(merge@));
            Ok(FlatResult::Flat(Flat::symbol(merge), stmts, vars))
        },
        _ => Err(CompileError::NotAnExpression),
    }
}

/// Flattens a comparison whose value is used as a value.
fn flatten_cmp(expr: &SExpr, names: &mut NameSupply) -> (result: Result<FlatResult, CompileError>)
    requires
        expr is Cmp,
    ensures
        flattens_to(result, flatten_cmp_spec(expr@, old(names)@), final(names)@),
    decreases expr, 0nat,
{
    proof {
        lemma_sexpr_view(expr);
    }
    match expr {
        SExpr::Cmp(cc, left, right) => {
            let (left_atom, mut stmts, mut vars) = flatten_expr(left, names)?;
            let (right_atom, mut right_stmts, mut right_vars) = flatten_expr(right, names)?;
            append_deep(&mut stmts, &mut right_stmts);
            append_deep(&mut vars, &mut right_vars);
            finish_named(Flat::compare(*cc, left_atom, right_atom), stmts, vars, names)
        },
        _ => Err(CompileError::NotAnExpression),
    }
}

/// Flattens an application.
fn flatten_app(expr: &SExpr, names: &mut NameSupply) -> (result: Result<FlatResult, CompileError>)
    requires
        expr is App,
    ensures
        flattens_to(result, flatten_app_spec(expr@, old(names)@), final(names)@),
    decreases expr, 0nat,
{
    proof {
        lemma_sexpr_view(expr);
    }
    match expr {
        SExpr::App(f, args) => {
            proof {
                lemma_sexpr_view(f);
            }
            match &**f {
                SExpr::Symbol(fname) => {
                    if is_name(fname, "-") {
                        flatten_neg(args, names)
                    } else if is_name(fname, "+") {
                        flatten_plus(args, names)
                    } else if is_name(fname, "tuple-ref") {
                        flatten_tuple_ref(args, names)
                    } else {
                        flatten_stub(fname, names)
                    }
                },
                SExpr::App(_, _) => {
                    let (callee, stmts, vars) = flatten_expr(f, names)?;
                    match &callee {
                        Flat::Symbol(fname) => flatten_call(fname, stmts, vars, args, names),
                        _ => Err(CompileError::NotAFunction),
                    }
                },
                _ => Err(CompileError::NotAFunction),
            }
        },
        _ => Err(CompileError::NotAnExpression),
    }
}

/// Flattens a definition.
fn flatten_define(expr: &SExpr, names: &mut NameSupply) -> (result: Result<
    FlatResult,
    CompileError,
>)
    requires
        expr is Define,
    ensures
        flattens_to(result, flatten_define_spec(expr@, old(names)@), final(names)@),
    decreases expr, 0nat,
{
    proof {
        lemma_sexpr_view(expr);
    }
    match expr {
        SExpr::Define(name, params, body) => {
            let (atom, mut stmts, vars) = flatten_expr(body, names)?;
            push_deep(&mut stmts, Flat::ret(atom));
            let kept = minus_names(&vars, params);
            Ok(FlatResult::Define(name.clone(), params.clone(), stmts, kept))
        },
        _ => Err(CompileError::NotAnExpression),
    }
}

/// Flattens a program.
fn flatten_prog(expr: &SExpr, names: &mut NameSupply) -> (result: Result<FlatResult, CompileError>)
    requires
        expr is Prog,
    ensures
        flattens_to(result, flatten_prog_spec(expr@, old(names)@), final(names)@),
    decreases expr, 0nat,
{
    proof {
        lemma_sexpr_view(expr);
    }
    match expr {
        SExpr::Prog(defs, body) => {
            let (atom, mut stmts, vars) = flatten_expr(body, names)?;
            push_deep(&mut stmts, Flat::ret(atom));
            let main_vars = dedup_names(&vars);
            let flat_defs = flatten_defs(defs, names)?;
            let prog = FlatResult::Prog(flat_defs, stmts, main_vars);
            proof {
                lemma_flat_result_view(&prog);
            }
            Ok(prog)
        },
        _ => Err(CompileError::NotAnExpression),
    }
}

/// The pass to normal form. An expression becomes an atom with the statements that
/// compute it; a definition and a program become their statement lists, each ending in
/// the return of the body's atom. In the result every operand of a compound is an atom.
pub fn flatten(expr: &SExpr, names: &mut NameSupply) -> (result: Result<FlatResult, CompileError>)
    ensures
        match result {
            Ok(flat) => {
                &&& flatten_spec(expr@, old(names)@) == Ok::<_, CompileError>(
                    (flat@, final(names)@),
                )
                &&& is_anf(flat@)
            },
            Err(err) => flatten_spec(expr@, old(names)@) == Err::<(FlatResultView, Counts), _>(err),
        },
    decreases expr, 1nat,
{
    proof {
        lemma_sexpr_view(expr);
    }
    match expr {
        SExpr::Symbol(name) => {
            let mut vars: Vec<String> = empty_deep();
            push_deep(&mut vars, name.clone());
            assert(vars.deep_view() =~= seq![name@]);
            Ok(FlatResult::Flat(Flat::Symbol(name.clone()), empty_deep(), vars))
        },
        SExpr::FuncName(name) => {
            let mut vars: Vec<String> = empty_deep();
            push_deep(&mut vars, name.clone());
            assert(vars.deep_view() =~= seq![name@]);
            Ok(FlatResult::Flat(Flat::FuncName(name.clone()), empty_deep(), vars))
        },
        SExpr::Number(n) => Ok(FlatResult::Flat(Flat::Number(*n), empty_deep(), empty_deep())),
        SExpr::Bool(b) => Ok(FlatResult::Flat(Flat::Bool(*b), empty_deep(), empty_deep())),
        SExpr::Tuple(_) => flatten_tuple(expr, names),
        SExpr::Let(_, _) => flatten_let(expr, names),
        SExpr::If(_, _, _) => flatten_if(expr, names),
        SExpr::Cmp(_, _, _) => flatten_cmp(expr, names),
        SExpr::App(_, _) => flatten_app(expr, names),
        SExpr::Define(_, _, _) => flatten_define(expr, names),
        SExpr::Prog(_, _) => flatten_prog(expr, names),
    }
}

} // verus!

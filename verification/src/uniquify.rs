//! Uniquification: every binder gets a fresh name, and every use of a variable the name
//! of the binder it refers to.

use vstd::prelude::*;
use crate::assoc::{assoc_get, assoc_put, get, lemma_find, lemma_get_put, put};
use crate::ast::{ExprView, SExpr, lemma_sexpr_view};
use crate::error::CompileError;
use crate::names::{Counts, Name, NameSupply, bump, exhausted, fresh_name};
use crate::seqs::{empty_deep, lemma_deep_view_index, lemma_take_all, lemma_take_push, push_deep};

verus! {

/// New names by old name, in the order in which the old names were first bound.
pub type Renaming = Seq<(Name, Name)>;

/// A renamed node, with the renaming and the counts of names afterwards.
pub struct Renamed {
    pub expr: ExprView,
    pub mapping: Renaming,
    pub count: Counts,
}

/// A renamed list of nodes.
pub struct RenamedList {
    pub exprs: Seq<ExprView>,
    pub mapping: Renaming,
    pub count: Counts,
}

/// Renamed bindings.
pub struct RenamedBindings {
    pub bindings: Seq<(Name, ExprView)>,
    pub mapping: Renaming,
    pub count: Counts,
}

/// Renamed parameters.
pub struct RenamedParams {
    pub params: Seq<Name>,
    pub mapping: Renaming,
    pub count: Counts,
}

/// The prefix for which the new name of the binder `k` is drawn: `k` itself, or the
/// empty prefix where binders are made anonymous.
pub open spec fn draw_prefix(k: Name, anonymous: bool) -> Name {
    if anonymous {
        Seq::empty()
    } else {
        k
    }
}

/// The new name of the binder `k`: `k` followed by the number of the name for `k`, or,
/// where binders are made anonymous, the number of the binder alone.
pub open spec fn binder_name(k: Name, c: Counts, anonymous: bool) -> Name {
    fresh_name(draw_prefix(k, anonymous), c)
}

/// Whether the binder `k` cannot get a new name. Anonymous binders are numbered
/// without bound.
pub open spec fn out_of_names(k: Name, c: Counts, anonymous: bool) -> bool {
    !anonymous && exhausted(c, k)
}

/// Renaming of a node, given the renaming in force and the counts of names handed out.
///
/// Every binder, of a `let` or of a definition, is renamed and enters the renaming
/// before what follows it is renamed; the renaming is never undone, so a binding stays
/// in force for everything that comes later in the program. A variable takes the name
/// that its own name is bound to; a variable without a binding is an error. The callee
/// of an application, where it is a symbol, is the name of a primitive or of a
/// function and stays; so do the names of definitions.
pub open spec fn rename_spec(e: ExprView, m: Renaming, c: Counts, anonymous: bool) -> Result<
    Renamed,
    CompileError,
>
    decreases e, 0nat,
{
    match e {
        ExprView::Symbol(name) => match assoc_get(m, name) {
            Some(new_name) => Ok(Renamed { expr: ExprView::Symbol(new_name), mapping: m, count: c }),
            None => Err(CompileError::UnboundVariable),
        },
        ExprView::Number(_) => Ok(Renamed { expr: e, mapping: m, count: c }),
        ExprView::Bool(_) => Ok(Renamed { expr: e, mapping: m, count: c }),
        ExprView::FuncName(_) => Ok(Renamed { expr: e, mapping: m, count: c }),
        ExprView::Tuple(elts) => match rename_list_spec(elts, m, c, anonymous) {
            Err(err) => Err(err),
            Ok(l) => Ok(
                Renamed { expr: ExprView::Tuple(l.exprs), mapping: l.mapping, count: l.count },
            ),
        },
        ExprView::Let(bindings, body) => match rename_bindings_spec(bindings, m, c, anonymous) {
            Err(err) => Err(err),
            Ok(bs) => match rename_spec(*body, bs.mapping, bs.count, anonymous) {
                Err(err) => Err(err),
                Ok(b) => Ok(
                    Renamed {
                        expr: ExprView::Let(bs.bindings, Box::new(b.expr)),
                        mapping: b.mapping,
                        count: b.count,
                    },
                ),
            },
        },
        ExprView::If(cnd, thn, els) => match rename_spec(*cnd, m, c, anonymous) {
            Err(err) => Err(err),
            Ok(rc) => match rename_spec(*thn, rc.mapping, rc.count, anonymous) {
                Err(err) => Err(err),
                Ok(rt) => match rename_spec(*els, rt.mapping, rt.count, anonymous) {
                    Err(err) => Err(err),
                    Ok(re) => Ok(
                        Renamed {
                            expr: ExprView::If(
                                Box::new(rc.expr),
                                Box::new(rt.expr),
                                Box::new(re.expr),
                            ),
                            mapping: re.mapping,
                            count: re.count,
                        },
                    ),
                },
            },
        },
        ExprView::Cmp(cc, left, right) => match rename_spec(*left, m, c, anonymous) {
            Err(err) => Err(err),
            Ok(rl) => match rename_spec(*right, rl.mapping, rl.count, anonymous) {
                Err(err) => Err(err),
                Ok(rr) => Ok(
                    Renamed {
                        expr: ExprView::Cmp(cc, Box::new(rl.expr), Box::new(rr.expr)),
                        mapping: rr.mapping,
                        count: rr.count,
                    },
                ),
            },
        },
        ExprView::App(f, args) => match rename_callee_spec(*f, m, c, anonymous) {
            Err(err) => Err(err),
            Ok(rf) => match rename_list_spec(args, rf.mapping, rf.count, anonymous) {
                Err(err) => Err(err),
                Ok(l) => Ok(
                    Renamed {
                        expr: ExprView::App(Box::new(rf.expr), l.exprs),
                        mapping: l.mapping,
                        count: l.count,
                    },
                ),
            },
        },
        ExprView::Define(name, params, body) => match rename_params_spec(
            params,
            m,
            c,
            anonymous,
        ) {
            Err(err) => Err(err),
            Ok(ps) => match rename_spec(*body, ps.mapping, ps.count, anonymous) {
                Err(err) => Err(err),
                Ok(b) => Ok(
                    Renamed {
                        expr: ExprView::Define(name, ps.params, Box::new(b.expr)),
                        mapping: b.mapping,
                        count: b.count,
                    },
                ),
            },
        },
        ExprView::Prog(defs, body) => match rename_list_spec(defs, m, c, anonymous) {
            Err(err) => Err(err),
            Ok(l) => match rename_spec(*body, l.mapping, l.count, anonymous) {
                Err(err) => Err(err),
                Ok(b) => Ok(
                    Renamed {
                        expr: ExprView::Prog(l.exprs, Box::new(b.expr)),
                        mapping: b.mapping,
                        count: b.count,
                    },
                ),
            },
        },
    }
}

/// Renaming of a callee: a symbol stays, anything else is renamed as a node.
pub open spec fn rename_callee_spec(f: ExprView, m: Renaming, c: Counts, anonymous: bool) -> Result<
    Renamed,
    CompileError,
>
    decreases f, 1nat,
{
    match f {
        ExprView::Symbol(_) => Ok(Renamed { expr: f, mapping: m, count: c }),
        _ => rename_spec(f, m, c, anonymous),
    }
}

/// Renaming of a list of nodes from first to last.
pub open spec fn rename_list_spec(es: Seq<ExprView>, m: Renaming, c: Counts, anonymous: bool)
    -> Result<RenamedList, CompileError>
    decreases es, 0nat,
{
    if es.len() == 0 {
        Ok(RenamedList { exprs: Seq::empty(), mapping: m, count: c })
    } else {
        match rename_list_spec(es.drop_last(), m, c, anonymous) {
            Err(err) => Err(err),
            Ok(init) => match rename_spec(es.last(), init.mapping, init.count, anonymous) {
                Err(err) => Err(err),
                Ok(x) => Ok(
                    RenamedList {
                        exprs: init.exprs.push(x.expr),
                        mapping: x.mapping,
                        count: x.count,
                    },
                ),
            },
        }
    }
}

/// Renaming of the bindings of a `let` from first to last: the name of a binding is in
/// force already in its own expression.
pub open spec fn rename_bindings_spec(
    bs: Seq<(Name, ExprView)>,
    m: Renaming,
    c: Counts,
    anonymous: bool,
) -> Result<RenamedBindings, CompileError>
    decreases bs, 0nat,
{
    if bs.len() == 0 {
        Ok(RenamedBindings { bindings: Seq::empty(), mapping: m, count: c })
    } else {
        match rename_bindings_spec(bs.drop_last(), m, c, anonymous) {
            Err(err) => Err(err),
            Ok(init) => {
                if out_of_names(bs.last().0, init.count, anonymous) {
                    Err(CompileError::NamesExhausted)
                } else {
                    let new_name = binder_name(bs.last().0, init.count, anonymous);
                    match rename_spec(
                        bs.last().1,
                        assoc_put(init.mapping, bs.last().0, new_name),
                        bump(init.count, draw_prefix(bs.last().0, anonymous)),
                        anonymous,
                    ) {
                        Err(err) => Err(err),
                        Ok(x) => Ok(
                            RenamedBindings {
                                bindings: init.bindings.push((new_name, x.expr)),
                                mapping: x.mapping,
                                count: x.count,
                            },
                        ),
                    }
                }
            },
        }
    }
}

/// Renaming of the parameters of a definition from first to last.
pub open spec fn rename_params_spec(ps: Seq<Name>, m: Renaming, c: Counts, anonymous: bool) -> Result<
    RenamedParams,
    CompileError,
>
    decreases ps.len(),
{
    if ps.len() == 0 {
        Ok(RenamedParams { params: Seq::empty(), mapping: m, count: c })
    } else {
        match rename_params_spec(ps.drop_last(), m, c, anonymous) {
            Err(err) => Err(err),
            Ok(init) => {
                if out_of_names(ps.last(), init.count, anonymous) {
                    Err(CompileError::NamesExhausted)
                } else {
                    let new_name = binder_name(ps.last(), init.count, anonymous);
                    Ok(
                        RenamedParams {
                            params: init.params.push(new_name),
                            mapping: assoc_put(init.mapping, ps.last(), new_name),
                            count: bump(init.count, draw_prefix(ps.last(), anonymous)),
                        },
                    )
                }
            },
        }
    }
}

/// What [`uniquify`] computes: the renaming in which every binder keeps its name as the
/// prefix of its new name.
pub open spec fn uniquify_spec(e: ExprView, m: Renaming, c: Counts) -> Result<Renamed, CompileError> {
    rename_spec(e, m, c, false)
}

/// An error among the first `k` nodes is the error of the whole list.
proof fn lemma_rename_list_error(es: Seq<ExprView>, m: Renaming, c: Counts, k: int)
    requires
        0 <= k <= es.len(),
        rename_list_spec(es.take(k), m, c, false) is Err,
    ensures
        rename_list_spec(es, m, c, false) == rename_list_spec(es.take(k), m, c, false),
    decreases es.len(),
{
    if k == es.len() {
        lemma_take_all(es);
    } else {
        assert(es.drop_last().take(k) =~= es.take(k));
        lemma_rename_list_error(es.drop_last(), m, c, k);
    }
}

/// An error among the first `k` bindings is the error of all the bindings.
proof fn lemma_rename_bindings_error(bs: Seq<(Name, ExprView)>, m: Renaming, c: Counts, k: int)
    requires
        0 <= k <= bs.len(),
        rename_bindings_spec(bs.take(k), m, c, false) is Err,
    ensures
        rename_bindings_spec(bs, m, c, false) == rename_bindings_spec(bs.take(k), m, c, false),
    decreases bs.len(),
{
    if k == bs.len() {
        lemma_take_all(bs);
    } else {
        assert(bs.drop_last().take(k) =~= bs.take(k));
        lemma_rename_bindings_error(bs.drop_last(), m, c, k);
    }
}

/// An error among the first `k` parameters is the error of all the parameters.
proof fn lemma_rename_params_error(ps: Seq<Name>, m: Renaming, c: Counts, k: int)
    requires
        0 <= k <= ps.len(),
        rename_params_spec(ps.take(k), m, c, false) is Err,
    ensures
        rename_params_spec(ps, m, c, false) == rename_params_spec(ps.take(k), m, c, false),
    decreases ps.len(),
{
    if k == ps.len() {
        lemma_take_all(ps);
    } else {
        assert(ps.drop_last().take(k) =~= ps.take(k));
        lemma_rename_params_error(ps.drop_last(), m, c, k);
    }
}

/// Whether `result` is the renamed node that `spec` prescribes, with `mapping` and
/// `count` afterwards.
pub open spec fn renames_to(
    result: Result<SExpr, CompileError>,
    spec: Result<Renamed, CompileError>,
    mapping: Renaming,
    count: Counts,
) -> bool {
    match result {
        Ok(expr) => spec == Ok::<_, CompileError>(Renamed { expr: expr@, mapping, count }),
        Err(err) => spec == Err::<Renamed, _>(err),
    }
}

/// Renames a list of nodes from first to last.
fn uniquify_list(mapping: &mut Vec<(String, String)>, exprs: &Vec<SExpr>, names: &mut NameSupply)
    -> (result: Result<Vec<SExpr>, CompileError>)
    ensures
        match result {
            Ok(renamed) => rename_list_spec(
                exprs.deep_view(),
                old(mapping).deep_view(),
                old(names)@,
                false,
            ) == Ok::<_, CompileError>(
                RenamedList {
                    exprs: renamed.deep_view(),
                    mapping: final(mapping).deep_view(),
                    count: final(names)@,
                },
            ),
            Err(err) => rename_list_spec(
                exprs.deep_view(),
                old(mapping).deep_view(),
                old(names)@,
                false,
            ) == Err::<RenamedList, _>(err),
        },
    decreases exprs, 0nat,
{
    let mut renamed: Vec<SExpr> = empty_deep();
    let ghost m0 = mapping.deep_view();
    let ghost c0 = names@;
    let mut i: usize = 0;
    while i < exprs.len()
        invariant
            i <= exprs.len(),
            m0 == old(mapping).deep_view(),
            c0 == old(names)@,
            rename_list_spec(exprs.deep_view().take(i as int), m0, c0, false) == Ok::<
                _,
                CompileError,
            >(
                RenamedList {
                    exprs: renamed.deep_view(),
                    mapping: mapping.deep_view(),
                    count: names@,
                },
            ),
        decreases exprs.len() - i,
    {
        proof {
            lemma_take_push(exprs.deep_view(), i as int);
            lemma_deep_view_index(exprs);
        }
        match uniquify(mapping, &exprs[i], names) {
            Err(err) => {
                proof {
                    lemma_rename_list_error(exprs.deep_view(), m0, c0, i + 1);
                }
                return Err(err);
            },
            Ok(expr) => {
                push_deep(&mut renamed, expr);
            },
        }
        i = i + 1;
    }
    proof {
        lemma_take_all(exprs.deep_view());
    }
    Ok(renamed)
}

/// Renames the bindings of a `let` from first to last.
fn uniquify_bindings(
    mapping: &mut Vec<(String, String)>,
    bindings: &Vec<(String, SExpr)>,
    names: &mut NameSupply,
) -> (result: Result<Vec<(String, SExpr)>, CompileError>)
    ensures
        match result {
            Ok(renamed) => rename_bindings_spec(
                bindings.deep_view(),
                old(mapping).deep_view(),
                old(names)@,
                false,
            ) == Ok::<_, CompileError>(
                RenamedBindings {
                    bindings: renamed.deep_view(),
                    mapping: final(mapping).deep_view(),
                    count: final(names)@,
                },
            ),
            Err(err) => rename_bindings_spec(
                bindings.deep_view(),
                old(mapping).deep_view(),
                old(names)@,
                false,
            ) == Err::<RenamedBindings, _>(err),
        },
    decreases bindings, 0nat,
{
    let mut renamed: Vec<(String, SExpr)> = empty_deep();
    let ghost m0 = mapping.deep_view();
    let ghost c0 = names@;
    let mut i: usize = 0;
    while i < bindings.len()
        invariant
            i <= bindings.len(),
            m0 == old(mapping).deep_view(),
            c0 == old(names)@,
            rename_bindings_spec(bindings.deep_view().take(i as int), m0, c0, false) == Ok::<
                _,
                CompileError,
            >(
                RenamedBindings {
                    bindings: renamed.deep_view(),
                    mapping: mapping.deep_view(),
                    count: names@,
                },
            ),
        decreases bindings.len() - i,
    {
        proof {
            lemma_take_push(bindings.deep_view(), i as int);
            lemma_deep_view_index(bindings);
        }
        let binding = &bindings[i];
        let new_name = match names.fresh(binding.0.as_str()) {
            Some(name) => name,
            None => {
                proof {
                    lemma_rename_bindings_error(bindings.deep_view(), m0, c0, i + 1);
                }
                return Err(CompileError::NamesExhausted);
            },
        };
        put(mapping, binding.0.clone(), new_name.clone());
        match uniquify(mapping, &binding.1, names) {
            Err(err) => {
                proof {
                    lemma_rename_bindings_error(bindings.deep_view(), m0, c0, i + 1);
                }
                return Err(err);
            },
            Ok(expr) => {
                push_deep(&mut renamed, (new_name, expr));
            },
        }
        i = i + 1;
    }
    proof {
        lemma_take_all(bindings.deep_view());
    }
    Ok(renamed)
}

/// Renames the parameters of a definition from first to last.
fn uniquify_params(
    mapping: &mut Vec<(String, String)>,
    params: &Vec<String>,
    names: &mut NameSupply,
) -> (result: Result<Vec<String>, CompileError>)
    ensures
        match result {
            Ok(renamed) => rename_params_spec(
                params.deep_view(),
                old(mapping).deep_view(),
                old(names)@,
                false,
            ) == Ok::<_, CompileError>(
                RenamedParams {
                    params: renamed.deep_view(),
                    mapping: final(mapping).deep_view(),
                    count: final(names)@,
                },
            ),
            Err(err) => rename_params_spec(
                params.deep_view(),
                old(mapping).deep_view(),
                old(names)@,
                false,
            ) == Err::<RenamedParams, _>(err),
        },
{
    let mut renamed: Vec<String> = empty_deep();
    let ghost m0 = mapping.deep_view();
    let ghost c0 = names@;
    let mut i: usize = 0;
    while i < params.len()
        invariant
            i <= params.len(),
            m0 == old(mapping).deep_view(),
            c0 == old(names)@,
            rename_params_spec(params.deep_view().take(i as int), m0, c0, false) == Ok::<
                _,
                CompileError,
            >(
                RenamedParams {
                    params: renamed.deep_view(),
                    mapping: mapping.deep_view(),
                    count: names@,
                },
            ),
        decreases params.len() - i,
    {
        proof {
            lemma_take_push(params.deep_view(), i as int);
            lemma_deep_view_index(params);
        }
        let new_name = match names.fresh(params[i].as_str()) {
            Some(name) => name,
            None => {
                proof {
                    lemma_rename_params_error(params.deep_view(), m0, c0, i + 1);
                }
                return Err(CompileError::NamesExhausted);
            },
        };
        put(mapping, params[i].clone(), new_name.clone());
        push_deep(&mut renamed, new_name);
        i = i + 1;
    }
    proof {
        lemma_take_all(params.deep_view());
    }
    Ok(renamed)
}

/// Renames a callee.
fn uniquify_callee(mapping: &mut Vec<(String, String)>, f: &SExpr, names: &mut NameSupply) -> (result:
    Result<SExpr, CompileError>)
    ensures
        renames_to(
            result,
            rename_callee_spec(f@, old(mapping).deep_view(), old(names)@, false),
            final(mapping).deep_view(),
            final(names)@,
        ),
    decreases f, 1nat,
{
    match f {
        SExpr::Symbol(name) => Ok(SExpr::Symbol(name.clone())),
        _ => uniquify(mapping, f, names),
    }
}

/// The pass that makes every binder unique. `mapping` holds the renaming in force; it
/// comes back extended by the binders of `expr`.
pub fn uniquify(mapping: &mut Vec<(String, String)>, expr: &SExpr, names: &mut NameSupply) -> (result:
    Result<SExpr, CompileError>)
    ensures
        match result {
            Ok(renamed) => uniquify_spec(expr@, old(mapping).deep_view(), old(names)@) == Ok::<
                _,
                CompileError,
            >(
                Renamed {
                    expr: renamed@,
                    mapping: final(mapping).deep_view(),
                    count: final(names)@,
                },
            ),
            Err(err) => uniquify_spec(expr@, old(mapping).deep_view(), old(names)@) == Err::<
                Renamed,
                _,
            >(err),
        },
    decreases expr, 0nat,
{
    proof {
        lemma_sexpr_view(expr);
    }
    match expr {
        SExpr::Symbol(name) => match get(mapping, name) {
            Some(new_name) => Ok(SExpr::Symbol(new_name.clone())),
            None => Err(CompileError::UnboundVariable),
        },
        SExpr::Number(n) => Ok(SExpr::Number(*n)),
        SExpr::Bool(b) => Ok(SExpr::Bool(*b)),
        SExpr::FuncName(name) => Ok(SExpr::FuncName(name.clone())),
        SExpr::Tuple(elts) => {
            let new_elts = uniquify_list(mapping, elts, names)?;
            let renamed = SExpr::Tuple(new_elts);
            proof {
                lemma_sexpr_view(&renamed);
            }
            Ok(renamed)
        },
        SExpr::Let(bindings, body) => {
            let new_bindings = uniquify_bindings(mapping, bindings, names)?;
            let new_body = uniquify(mapping, body, names)?;
            let renamed = SExpr::Let(new_bindings, Box::new(new_body));
            proof {
                lemma_sexpr_view(&renamed);
            }
            Ok(renamed)
        },
        SExpr::If(cnd, thn, els) => {
            let new_cnd = uniquify(mapping, cnd, names)?;
            let new_thn = uniquify(mapping, thn, names)?;
            let new_els = uniquify(mapping, els, names)?;
            Ok(SExpr::If(Box::new(new_cnd), Box::new(new_thn), Box::new(new_els)))
        },
        SExpr::Cmp(cc, left, right) => {
            let new_left = uniquify(mapping, left, names)?;
            let new_right = uniquify(mapping, right, names)?;
            Ok(SExpr::Cmp(*cc, Box::new(new_left), Box::new(new_right)))
        },
        SExpr::App(f, args) => {
            let new_f = uniquify_callee(mapping, f, names)?;
            let new_args = uniquify_list(mapping, args, names)?;
            let renamed = SExpr::App(Box::new(new_f), new_args);
            proof {
                lemma_sexpr_view(&renamed);
            }
            Ok(renamed)
        },
        SExpr::Define(name, params, body) => {
            let new_params = uniquify_params(mapping, params, names)?;
            let new_body = uniquify(mapping, body, names)?;
            Ok(SExpr::Define(name.clone(), new_params, Box::new(new_body)))
        },
        SExpr::Prog(defs, body) => {
            let new_defs = uniquify_list(mapping, defs, names)?;
            let new_body = uniquify(mapping, body, names)?;
            let renamed = SExpr::Prog(new_defs, Box::new(new_body));
            proof {
                lemma_sexpr_view(&renamed);
            }
            Ok(renamed)
        },
    }
}

/// Whether `new_name` can become the new name of `k` without capturing a variable: no
/// other name is bound to it.
pub open spec fn fresh_for(m: Renaming, k: Name, new_name: Name) -> bool {
    forall|x: Name| x != k ==> assoc_get(m, x) != Some(new_name)
}

/// Whether uniquifying `e` captures no variable: the new name of every binder differs
/// from the new names that are in force for other variables when the binder is reached.
pub open spec fn capture_free(e: ExprView, m: Renaming, c: Counts) -> bool
    decreases e, 0nat,
{
    match e {
        ExprView::Tuple(elts) => capture_free_list(elts, m, c),
        ExprView::Let(bindings, body) => {
            &&& capture_free_bindings(bindings, m, c)
            &&& rename_bindings_spec(bindings, m, c, false) matches Ok(bs) ==> capture_free(
                *body,
                bs.mapping,
                bs.count,
            )
        },
        ExprView::If(cnd, thn, els) => {
            &&& capture_free(*cnd, m, c)
            &&& rename_spec(*cnd, m, c, false) matches Ok(rc) ==> {
                &&& capture_free(*thn, rc.mapping, rc.count)
                &&& rename_spec(*thn, rc.mapping, rc.count, false) matches Ok(rt) ==> capture_free(
                    *els,
                    rt.mapping,
                    rt.count,
                )
            }
        },
        ExprView::Cmp(_, left, right) => {
            &&& capture_free(*left, m, c)
            &&& rename_spec(*left, m, c, false) matches Ok(rl) ==> capture_free(
                *right,
                rl.mapping,
                rl.count,
            )
        },
        ExprView::App(f, args) => {
            &&& capture_free_callee(*f, m, c)
            &&& rename_callee_spec(*f, m, c, false) matches Ok(rf) ==> capture_free_list(
                args,
                rf.mapping,
                rf.count,
            )
        },
        ExprView::Define(_, params, body) => {
            &&& capture_free_params(params, m, c)
            &&& rename_params_spec(params, m, c, false) matches Ok(ps) ==> capture_free(
                *body,
                ps.mapping,
                ps.count,
            )
        },
        ExprView::Prog(defs, body) => {
            &&& capture_free_list(defs, m, c)
            &&& rename_list_spec(defs, m, c, false) matches Ok(l) ==> capture_free(
                *body,
                l.mapping,
                l.count,
            )
        },
        _ => true,
    }
}

/// Whether uniquifying a callee captures no variable.
pub open spec fn capture_free_callee(f: ExprView, m: Renaming, c: Counts) -> bool
    decreases f, 1nat,
{
    match f {
        ExprView::Symbol(_) => true,
        _ => capture_free(f, m, c),
    }
}

/// Whether uniquifying a list of nodes captures no variable.
pub open spec fn capture_free_list(es: Seq<ExprView>, m: Renaming, c: Counts) -> bool
    decreases es, 0nat,
{
    if es.len() == 0 {
        true
    } else {
        &&& capture_free_list(es.drop_last(), m, c)
        &&& rename_list_spec(es.drop_last(), m, c, false) matches Ok(init) ==> capture_free(
            es.last(),
            init.mapping,
            init.count,
        )
    }
}

/// Whether uniquifying the bindings of a `let` captures no variable.
pub open spec fn capture_free_bindings(bs: Seq<(Name, ExprView)>, m: Renaming, c: Counts) -> bool
    decreases bs, 0nat,
{
    if bs.len() == 0 {
        true
    } else {
        &&& capture_free_bindings(bs.drop_last(), m, c)
        &&& rename_bindings_spec(bs.drop_last(), m, c, false) matches Ok(init) ==> {
            let new_name = fresh_name(bs.last().0, init.count);
            &&& fresh_for(init.mapping, bs.last().0, new_name)
            &&& capture_free(
                bs.last().1,
                assoc_put(init.mapping, bs.last().0, new_name),
                bump(init.count, bs.last().0),
            )
        }
    }
}

/// Whether uniquifying the parameters of a definition captures no variable.
pub open spec fn capture_free_params(ps: Seq<Name>, m: Renaming, c: Counts) -> bool
    decreases ps.len(),
{
    if ps.len() == 0 {
        true
    } else {
        &&& capture_free_params(ps.drop_last(), m, c)
        &&& rename_params_spec(ps.drop_last(), m, c, false) matches Ok(init) ==> fresh_for(
            init.mapping,
            ps.last(),
            fresh_name(ps.last(), init.count),
        )
    }
}

/// The binding structure of a program under the scoping of this pass: the program with
/// every binder named by its number alone, and every variable by the number of the
/// binder it refers to. A variable refers to the binder of its name that was met last
/// before it, whether or not the `let` or the definition of that binder has ended: the
/// scope is the pass's, not the lexical one.
pub open spec fn binding_structure(e: ExprView) -> Result<ExprView, CompileError> {
    match rename_spec(e, Seq::empty(), Seq::empty(), true) {
        Ok(r) => Ok(r.expr),
        Err(err) => Err(err),
    }
}

/// Whether two programs are the same up to the names of their binders, under the
/// scoping of this pass: they have the same binding structure. This is not lexical
/// alpha-equivalence: in `(let ((x 1)) (+ (let ((x 2)) x) x))` the last `x` refers to
/// the inner binder here, as it does for the pass.
pub open spec fn alpha_equivalent(a: ExprView, b: ExprView) -> bool {
    binding_structure(a) is Ok && binding_structure(a) == binding_structure(b)
}

/// Whether three renamings go together: `m` renames a program, `before` makes the
/// binders of the program anonymous, `after` those of the renamed program. They bind
/// the same variables, and a variable has the same number under its old name before and
/// under its new name after.
spec fn related(m: Renaming, before: Renaming, after: Renaming) -> bool {
    forall|x: Name|
        match #[trigger] assoc_get(m, x) {
            Some(f) => assoc_get(before, x) is Some && assoc_get(after, f) == assoc_get(before, x),
            None => assoc_get(before, x) is None,
        }
}

/// Binding one more variable keeps the renamings together, if the new name is fresh.
proof fn lemma_related_put(
    m: Renaming,
    before: Renaming,
    after: Renaming,
    k: Name,
    new_name: Name,
    number: Name,
)
    requires
        related(m, before, after),
        fresh_for(m, k, new_name),
    ensures
        related(
            assoc_put(m, k, new_name),
            assoc_put(before, k, number),
            assoc_put(after, new_name, number),
        ),
{
    let m1 = assoc_put(m, k, new_name);
    let before1 = assoc_put(before, k, number);
    let after1 = assoc_put(after, new_name, number);
    assert forall|x: Name|
        match #[trigger] assoc_get(m1, x) {
            Some(f) => assoc_get(before1, x) is Some && assoc_get(after1, f) == assoc_get(
                before1,
                x,
            ),
            None => assoc_get(before1, x) is None,
        } by {
        lemma_get_put(m, k, new_name, x);
        lemma_get_put(before, k, number, x);
        assert(assoc_get(m, x) is Some ==> assoc_get(before, x) is Some);
        match assoc_get(m1, x) {
            Some(f) => {
                lemma_get_put(after, new_name, number, f);
            },
            None => {},
        }
    }
}

/// What the three runs over a node have in common.
spec fn runs_agree(
    r: Result<Renamed, CompileError>,
    a: Result<Renamed, CompileError>,
    b: Result<Renamed, CompileError>,
) -> bool {
    &&& r is Ok
    &&& a is Ok
    &&& b is Ok
    &&& a->Ok_0.expr == b->Ok_0.expr
    &&& a->Ok_0.count == b->Ok_0.count
    &&& related(r->Ok_0.mapping, a->Ok_0.mapping, b->Ok_0.mapping)
}

/// Uniquifying a node without capture keeps its binding structure.
proof fn lemma_rename_node(e: ExprView, m: Renaming, c: Counts, before: Renaming, after: Renaming, n: Counts)
    requires
        related(m, before, after),
        capture_free(e, m, c),
        rename_spec(e, m, c, false) is Ok,
    ensures
        runs_agree(
            rename_spec(e, m, c, false),
            rename_spec(e, before, n, true),
            rename_spec(rename_spec(e, m, c, false)->Ok_0.expr, after, n, true),
        ),
    decreases e, 0nat,
{
    match e {
        ExprView::Symbol(name) => {
            assert(assoc_get(m, name) is Some);
        },
        ExprView::Tuple(elts) => {
            lemma_rename_list(elts, m, c, before, after, n);
        },
        ExprView::Let(bindings, body) => {
            lemma_rename_bindings(bindings, m, c, before, after, n);
            let bs = rename_bindings_spec(bindings, m, c, false)->Ok_0;
            let ba = rename_bindings_spec(bindings, before, n, true)->Ok_0;
            let bb = rename_bindings_spec(bs.bindings, after, n, true)->Ok_0;
            lemma_rename_node(*body, bs.mapping, bs.count, ba.mapping, bb.mapping, ba.count);
        },
        ExprView::If(cnd, thn, els) => {
            lemma_rename_node(*cnd, m, c, before, after, n);
            let rc = rename_spec(*cnd, m, c, false)->Ok_0;
            let ca = rename_spec(*cnd, before, n, true)->Ok_0;
            let cb = rename_spec(rc.expr, after, n, true)->Ok_0;
            lemma_rename_node(*thn, rc.mapping, rc.count, ca.mapping, cb.mapping, ca.count);
            let rt = rename_spec(*thn, rc.mapping, rc.count, false)->Ok_0;
            let ta = rename_spec(*thn, ca.mapping, ca.count, true)->Ok_0;
            let tb = rename_spec(rt.expr, cb.mapping, cb.count, true)->Ok_0;
            lemma_rename_node(*els, rt.mapping, rt.count, ta.mapping, tb.mapping, ta.count);
        },
        ExprView::Cmp(_, left, right) => {
            lemma_rename_node(*left, m, c, before, after, n);
            let rl = rename_spec(*left, m, c, false)->Ok_0;
            let la = rename_spec(*left, before, n, true)->Ok_0;
            let lb = rename_spec(rl.expr, after, n, true)->Ok_0;
            lemma_rename_node(*right, rl.mapping, rl.count, la.mapping, lb.mapping, la.count);
        },
        ExprView::App(f, args) => {
            lemma_rename_callee(*f, m, c, before, after, n);
            let rf = rename_callee_spec(*f, m, c, false)->Ok_0;
            let fa = rename_callee_spec(*f, before, n, true)->Ok_0;
            let fb = rename_callee_spec(rf.expr, after, n, true)->Ok_0;
            lemma_rename_list(args, rf.mapping, rf.count, fa.mapping, fb.mapping, fa.count);
        },
        ExprView::Define(_, params, body) => {
            lemma_rename_params(params, m, c, before, after, n);
            let ps = rename_params_spec(params, m, c, false)->Ok_0;
            let pa = rename_params_spec(params, before, n, true)->Ok_0;
            let pb = rename_params_spec(ps.params, after, n, true)->Ok_0;
            lemma_rename_node(*body, ps.mapping, ps.count, pa.mapping, pb.mapping, pa.count);
        },
        ExprView::Prog(defs, body) => {
            lemma_rename_list(defs, m, c, before, after, n);
            let l = rename_list_spec(defs, m, c, false)->Ok_0;
            let la = rename_list_spec(defs, before, n, true)->Ok_0;
            let lb = rename_list_spec(l.exprs, after, n, true)->Ok_0;
            lemma_rename_node(*body, l.mapping, l.count, la.mapping, lb.mapping, la.count);
        },
        _ => {},
    }
}

/// Uniquifying a callee without capture keeps its binding structure.
proof fn lemma_rename_callee(f: ExprView, m: Renaming, c: Counts, before: Renaming, after: Renaming, n: Counts)
    requires
        related(m, before, after),
        capture_free_callee(f, m, c),
        rename_callee_spec(f, m, c, false) is Ok,
    ensures
        runs_agree(
            rename_callee_spec(f, m, c, false),
            rename_callee_spec(f, before, n, true),
            rename_callee_spec(rename_callee_spec(f, m, c, false)->Ok_0.expr, after, n, true),
        ),
    decreases f, 1nat,
{
    match f {
        ExprView::Symbol(_) => {},
        _ => {
            lemma_rename_node(f, m, c, before, after, n);
            lemma_renamed_shape(f, m, c);
        },
    }
}

/// Uniquifying a node that is no symbol gives a node that is none.
proof fn lemma_renamed_shape(e: ExprView, m: Renaming, c: Counts)
    requires
        rename_spec(e, m, c, false) is Ok,
        !(e is Symbol),
    ensures
        !(rename_spec(e, m, c, false)->Ok_0.expr is Symbol),
{
}

/// What the three runs over a list have in common.
spec fn list_runs_agree(
    r: Result<RenamedList, CompileError>,
    a: Result<RenamedList, CompileError>,
    b: Result<RenamedList, CompileError>,
) -> bool {
    &&& r is Ok
    &&& a is Ok
    &&& b is Ok
    &&& a->Ok_0.exprs == b->Ok_0.exprs
    &&& a->Ok_0.count == b->Ok_0.count
    &&& related(r->Ok_0.mapping, a->Ok_0.mapping, b->Ok_0.mapping)
}

/// Uniquifying a list of nodes without capture keeps their binding structure.
proof fn lemma_rename_list(es: Seq<ExprView>, m: Renaming, c: Counts, before: Renaming, after: Renaming, n: Counts)
    requires
        related(m, before, after),
        capture_free_list(es, m, c),
        rename_list_spec(es, m, c, false) is Ok,
    ensures
        list_runs_agree(
            rename_list_spec(es, m, c, false),
            rename_list_spec(es, before, n, true),
            rename_list_spec(rename_list_spec(es, m, c, false)->Ok_0.exprs, after, n, true),
        ),
    decreases es, 0nat,
{
    if es.len() > 0 {
        lemma_rename_list(es.drop_last(), m, c, before, after, n);
        let init = rename_list_spec(es.drop_last(), m, c, false)->Ok_0;
        let ia = rename_list_spec(es.drop_last(), before, n, true)->Ok_0;
        let ib = rename_list_spec(init.exprs, after, n, true)->Ok_0;
        lemma_rename_node(es.last(), init.mapping, init.count, ia.mapping, ib.mapping, ia.count);
        let x = rename_spec(es.last(), init.mapping, init.count, false)->Ok_0;
        let out = init.exprs.push(x.expr);
        assert(out.drop_last() =~= init.exprs);
        assert(out.last() == x.expr);
    }
}

/// What the three runs over bindings have in common.
spec fn bindings_runs_agree(
    r: Result<RenamedBindings, CompileError>,
    a: Result<RenamedBindings, CompileError>,
    b: Result<RenamedBindings, CompileError>,
) -> bool {
    &&& r is Ok
    &&& a is Ok
    &&& b is Ok
    &&& a->Ok_0.bindings == b->Ok_0.bindings
    &&& a->Ok_0.count == b->Ok_0.count
    &&& related(r->Ok_0.mapping, a->Ok_0.mapping, b->Ok_0.mapping)
}

/// Uniquifying bindings without capture keeps their binding structure.
proof fn lemma_rename_bindings(
    bs: Seq<(Name, ExprView)>,
    m: Renaming,
    c: Counts,
    before: Renaming,
    after: Renaming,
    n: Counts,
)
    requires
        related(m, before, after),
        capture_free_bindings(bs, m, c),
        rename_bindings_spec(bs, m, c, false) is Ok,
    ensures
        bindings_runs_agree(
            rename_bindings_spec(bs, m, c, false),
            rename_bindings_spec(bs, before, n, true),
            rename_bindings_spec(
                rename_bindings_spec(bs, m, c, false)->Ok_0.bindings,
                after,
                n,
                true,
            ),
        ),
    decreases bs, 0nat,
{
    if bs.len() > 0 {
        lemma_rename_bindings(bs.drop_last(), m, c, before, after, n);
        let init = rename_bindings_spec(bs.drop_last(), m, c, false)->Ok_0;
        let ia = rename_bindings_spec(bs.drop_last(), before, n, true)->Ok_0;
        let ib = rename_bindings_spec(init.bindings, after, n, true)->Ok_0;
        let k = bs.last().0;
        let new_name = fresh_name(k, init.count);
        let number = binder_name(k, ia.count, true);
        assert(binder_name(new_name, ib.count, true) == number);
        lemma_related_put(init.mapping, ia.mapping, ib.mapping, k, new_name, number);
        lemma_rename_node(
            bs.last().1,
            assoc_put(init.mapping, k, new_name),
            bump(init.count, k),
            assoc_put(ia.mapping, k, number),
            assoc_put(ib.mapping, new_name, number),
            bump(ia.count, Seq::empty()),
        );
        let x = rename_spec(
            bs.last().1,
            assoc_put(init.mapping, k, new_name),
            bump(init.count, k),
            false,
        )->Ok_0;
        let out = init.bindings.push((new_name, x.expr));
        assert(out.drop_last() =~= init.bindings);
        assert(out.last() == (new_name, x.expr));
    }
}

/// What the three runs over parameters have in common.
spec fn params_runs_agree(
    r: Result<RenamedParams, CompileError>,
    a: Result<RenamedParams, CompileError>,
    b: Result<RenamedParams, CompileError>,
) -> bool {
    &&& r is Ok
    &&& a is Ok
    &&& b is Ok
    &&& a->Ok_0.params == b->Ok_0.params
    &&& a->Ok_0.count == b->Ok_0.count
    &&& related(r->Ok_0.mapping, a->Ok_0.mapping, b->Ok_0.mapping)
}

/// Uniquifying parameters without capture keeps their binding structure.
proof fn lemma_rename_params(ps: Seq<Name>, m: Renaming, c: Counts, before: Renaming, after: Renaming, n: Counts)
    requires
        related(m, before, after),
        capture_free_params(ps, m, c),
        rename_params_spec(ps, m, c, false) is Ok,
    ensures
        params_runs_agree(
            rename_params_spec(ps, m, c, false),
            rename_params_spec(ps, before, n, true),
            rename_params_spec(rename_params_spec(ps, m, c, false)->Ok_0.params, after, n, true),
        ),
    decreases ps.len(),
{
    if ps.len() > 0 {
        lemma_rename_params(ps.drop_last(), m, c, before, after, n);
        let init = rename_params_spec(ps.drop_last(), m, c, false)->Ok_0;
        let ia = rename_params_spec(ps.drop_last(), before, n, true)->Ok_0;
        let ib = rename_params_spec(init.params, after, n, true)->Ok_0;
        let k = ps.last();
        let new_name = fresh_name(k, init.count);
        let number = binder_name(k, ia.count, true);
        assert(binder_name(new_name, ib.count, true) == number);
        lemma_related_put(init.mapping, ia.mapping, ib.mapping, k, new_name, number);
        let out = init.params.push(new_name);
        assert(out.drop_last() =~= init.params);
        assert(out.last() == new_name);
    }
}

/// No name is bound in the empty renaming.
proof fn lemma_related_empty()
    ensures
        related(Seq::empty(), Seq::empty(), Seq::empty()),
{
    assert forall|x: Name|
        match #[trigger] assoc_get(Seq::<(Name, Name)>::empty(), x) {
            Some(f) => false,
            None => assoc_get(Seq::<(Name, Name)>::empty(), x) is None,
        } by {
        lemma_find(Seq::<(Name, Name)>::empty(), x);
    }
}

/// Uniquifying a program from scratch, where it captures no variable, gives a program
/// that is the same up to the names of its binders, under the scoping of this pass (a
/// binding stays in force after its `let` has ended), not the lexical one.
pub proof fn lemma_uniquify_alpha_equivalent(e: ExprView)
    requires
        uniquify_spec(e, Seq::empty(), Seq::empty()) is Ok,
        capture_free(e, Seq::empty(), Seq::empty()),
    ensures
        alpha_equivalent(e, uniquify_spec(e, Seq::empty(), Seq::empty())->Ok_0.expr),
{
    lemma_related_empty();
    lemma_rename_node(e, Seq::empty(), Seq::empty(), Seq::empty(), Seq::empty(), Seq::empty());
}

/// Uniquifying is idempotent up to the names of binders: a second run from scratch over
/// the result of a first run, where the second run captures no variable, gives a
/// program with the binding structure of the first result. The binding structure is
/// that of the scoping of this pass, not of lexical scoping.
pub proof fn lemma_uniquify_idempotent(e: ExprView)
    requires
        uniquify_spec(e, Seq::empty(), Seq::empty()) is Ok,
        uniquify_spec(uniquify_spec(e, Seq::empty(), Seq::empty())->Ok_0.expr, Seq::empty(), Seq::empty()) is Ok,
        capture_free(uniquify_spec(e, Seq::empty(), Seq::empty())->Ok_0.expr, Seq::empty(), Seq::empty()),
    ensures
        alpha_equivalent(
            uniquify_spec(e, Seq::empty(), Seq::empty())->Ok_0.expr,
            uniquify_spec(uniquify_spec(e, Seq::empty(), Seq::empty())->Ok_0.expr, Seq::empty(), Seq::empty())->Ok_0.expr,
        ),
{
    lemma_uniquify_alpha_equivalent(uniquify_spec(e, Seq::empty(), Seq::empty())->Ok_0.expr);
}

} // verus!

//! Programs whose binders do not end in a digit: uniquifying them captures no variable,
//! in the first run and in a second run over the result of the first.

use vstd::prelude::*;
use crate::assoc::{assoc_get, assoc_put, lemma_find, lemma_get_put};
use crate::ast::ExprView;
use crate::names::{
    Counts, Name, bump, count_of, decimal, digit_char, exhausted, fresh_name, lemma_count_bump,
    lemma_count_empty,
};
use crate::uniquify::{
    Renaming, alpha_equivalent, capture_free, capture_free_bindings, capture_free_callee,
    capture_free_list, capture_free_params, fresh_for, lemma_uniquify_alpha_equivalent,
    rename_bindings_spec, rename_callee_spec, rename_list_spec, rename_params_spec, rename_spec,
    uniquify_spec,
};

verus! {

/// Whether a character is a decimal digit.
pub open spec fn is_digit(c: char) -> bool {
    c == '0' || c == '1' || c == '2' || c == '3' || c == '4' || c == '5' || c == '6' || c == '7'
        || c == '8' || c == '9'
}

/// Whether every character is a decimal digit.
pub open spec fn digits_only(s: Seq<char>) -> bool {
    forall|i: int| 0 <= i < s.len() ==> is_digit(#[trigger] s[i])
}

/// Whether a name does not end in a digit.
pub open spec fn plain(k: Name) -> bool {
    k.len() == 0 || !is_digit(k.last())
}

/// Whether no binder of a program, of a `let` or of a definition, ends in a digit.
pub open spec fn binders_plain(e: ExprView) -> bool
    decreases e,
{
    match e {
        ExprView::Tuple(elts) => forall|i: int|
            0 <= i < elts.len() ==> binders_plain(#[trigger] elts[i]),
        ExprView::Let(bindings, body) => {
            &&& forall|i: int|
                0 <= i < bindings.len() ==> plain((#[trigger] bindings[i]).0) && binders_plain(
                    bindings[i].1,
                )
            &&& binders_plain(*body)
        },
        ExprView::If(cnd, thn, els) => binders_plain(*cnd) && binders_plain(*thn) && binders_plain(
            *els,
        ),
        ExprView::Cmp(_, left, right) => binders_plain(*left) && binders_plain(*right),
        ExprView::App(f, args) => {
            &&& binders_plain(*f)
            &&& forall|i: int| 0 <= i < args.len() ==> binders_plain(#[trigger] args[i])
        },
        ExprView::Define(_, params, body) => {
            &&& forall|i: int| 0 <= i < params.len() ==> plain(#[trigger] params[i])
            &&& binders_plain(*body)
        },
        ExprView::Prog(defs, body) => {
            &&& forall|i: int| 0 <= i < defs.len() ==> binders_plain(#[trigger] defs[i])
            &&& binders_plain(*body)
        },
        _ => true,
    }
}

/// A decimal numeral holds digits only, and at least one.
pub proof fn lemma_decimal_digits(n: nat)
    ensures
        digits_only(decimal(n)),
        decimal(n).len() >= 1,
    decreases n,
{
    if n >= 10 {
        lemma_decimal_digits(n / 10);
        let init = decimal(n / 10);
        let out = init.push(digit_char((n % 10) as int));
        assert forall|i: int| 0 <= i < out.len() implies is_digit(#[trigger] out[i]) by {
            if i < init.len() {
                assert(out[i] == init[i]);
            }
        }
    }
}

/// A name that does not end in a digit, followed by digits, can be taken apart in one
/// way only.
pub proof fn lemma_split(k1: Name, d1: Seq<char>, k2: Name, d2: Seq<char>)
    requires
        plain(k1),
        plain(k2),
        digits_only(d1),
        digits_only(d2),
        k1 + d1 == k2 + d2,
    ensures
        k1 == k2,
        d1 == d2,
{
    let a = k1 + d1;
    let b = k2 + d2;
    assert(a.len() == b.len());
    if k1.len() < k2.len() {
        let i = k2.len() - 1;
        assert(b[i] == k2[i]);
        assert(a[i] == d1[i - k1.len()]);
    } else if k2.len() < k1.len() {
        let i = k1.len() - 1;
        assert(a[i] == k1[i]);
        assert(b[i] == d2[i - k2.len()]);
    } else {
        assert forall|i: int| 0 <= i < k1.len() implies k1[i] == k2[i] by {
            assert(a[i] == k1[i]);
            assert(b[i] == k2[i]);
        }
        assert(k1 =~= k2);
        assert forall|i: int| 0 <= i < d1.len() implies d1[i] == d2[i] by {
            assert(a[i + k1.len()] == d1[i]);
            assert(b[i + k2.len()] == d2[i]);
        }
        assert(d1 =~= d2);
    }
}

/// Texts that are the same after the same text was put behind them are the same.
pub proof fn lemma_same_suffix(a: Seq<char>, b: Seq<char>, d: Seq<char>)
    requires
        a + d == b + d,
    ensures
        a == b,
{
    let x = a + d;
    let y = b + d;
    assert(x.len() == y.len());
    assert forall|i: int| 0 <= i < a.len() implies a[i] == b[i] by {
        assert(x[i] == a[i]);
        assert(y[i] == b[i]);
    }
    assert(a =~= b);
}

/// Whether `f` is `x` followed by the numeral of `n`.
spec fn suffixed(x: Name, n: nat, f: Name) -> bool {
    f == x + decimal(n)
}

/// Whether `y` is the plain name `x` followed by the numeral of `n`, one of the numbers
/// that were handed out for `x`.
spec fn handed_out(x: Name, n: nat, y: Name, s1: Counts) -> bool {
    plain(x) && y == x + decimal(n) && 1 <= n <= count_of(s1, x)
}

/// Whether the states of a first and of a second run go together. The first run binds
/// plain names, each to itself followed by a number; the second binds those new names,
/// each to itself followed by `1`, and nothing else; and the second run has handed out
/// names only for names that the first run has handed out.
spec fn paired(m1: Renaming, m2: Renaming, s1: Counts, s2: Counts) -> bool {
    &&& forall|x: Name|
        (#[trigger] assoc_get(m1, x)) matches Some(f) ==> plain(x) && (exists|n: nat|
            #[trigger] suffixed(x, n, f)) && assoc_get(m2, f) == Some(f + decimal(1))
    &&& forall|y: Name| (#[trigger] assoc_get(m2, y)) matches Some(g) ==> g == y + decimal(1)
    &&& forall|y: Name|
        (#[trigger] count_of(s2, y)) > 0 ==> exists|x: Name, n: nat|
            #[trigger] handed_out(x, n, y, s1)
}

/// A new binder with a plain name captures nothing in either run, the second run names
/// it by its first name followed by `1`, and the states go together afterwards.
proof fn lemma_paired_put(m1: Renaming, m2: Renaming, s1: Counts, s2: Counts, k: Name)
    requires
        paired(m1, m2, s1, s2),
        plain(k),
    ensures
        !exhausted(s2, fresh_name(k, s1)),
        fresh_for(m1, k, fresh_name(k, s1)),
        fresh_for(m2, fresh_name(k, s1), fresh_name(fresh_name(k, s1), s2)),
        paired(
            assoc_put(m1, k, fresh_name(k, s1)),
            assoc_put(m2, fresh_name(k, s1), fresh_name(fresh_name(k, s1), s2)),
            bump(s1, k),
            bump(s2, fresh_name(k, s1)),
        ),
{
    let number = count_of(s1, k) + 1;
    let d = decimal(number);
    let f = fresh_name(k, s1);
    let g = fresh_name(f, s2);
    let m1n = assoc_put(m1, k, f);
    let m2n = assoc_put(m2, f, g);
    let s1n = bump(s1, k);
    let s2n = bump(s2, f);
    lemma_decimal_digits(number);
    assert(f == k + d);
    // the second run has handed out no name for the new name yet
    assert(count_of(s2, f) == 0) by {
        if count_of(s2, f) > 0 {
            let (x, n) = choose|x: Name, n: nat| #[trigger] handed_out(x, n, f, s1);
            lemma_decimal_digits(n);
            lemma_split(x, decimal(n), k, d);
            lemma_decimal_injective(n, number);
        }
    }
    assert(g == f + decimal(1));
    assert forall|x: Name| x != k implies assoc_get(m1, x) != Some(f) by {
        if assoc_get(m1, x) == Some(f) {
            let n = choose|n: nat| #[trigger] suffixed(x, n, f);
            lemma_decimal_digits(n);
            lemma_split(x, decimal(n), k, d);
        }
    }
    assert forall|y: Name| y != f implies assoc_get(m2, y) != Some(g) by {
        if assoc_get(m2, y) == Some(g) {
            lemma_same_suffix(y, f, decimal(1));
        }
    }
    assert forall|x: Name|
        (#[trigger] assoc_get(m1n, x)) matches Some(fx) ==> plain(x) && (exists|n: nat|
            #[trigger] suffixed(x, n, fx)) && assoc_get(m2n, fx) == Some(fx + decimal(1)) by {
        lemma_get_put(m1, k, f, x);
        match assoc_get(m1n, x) {
            Some(fx) => {
                if x == k {
                    lemma_get_put(m2, f, g, f);
                    assert(suffixed(x, number, fx));
                } else {
                    assert(assoc_get(m1, x) == Some(fx));
                    let n = choose|n: nat| #[trigger] suffixed(x, n, fx);
                    lemma_decimal_digits(n);
                    if fx == f {
                        lemma_split(x, decimal(n), k, d);
                    }
                    lemma_get_put(m2, f, g, fx);
                    assert(suffixed(x, n, fx));
                }
            },
            None => {},
        }
    }
    assert forall|y: Name| (#[trigger] assoc_get(m2n, y)) matches Some(gy) ==> gy == y + decimal(
        1,
    ) by {
        lemma_get_put(m2, f, g, y);
    }
    assert forall|y: Name| (#[trigger] count_of(s2n, y)) > 0 implies exists|x: Name, n: nat|
        #[trigger] handed_out(x, n, y, s1n) by {
        lemma_count_bump(s2, f, y);
        if y == f {
            lemma_count_bump(s1, k, k);
            assert(handed_out(k, number, y, s1n));
        } else {
            assert(count_of(s2, y) > 0);
            let (x, n) = choose|x: Name, n: nat| #[trigger] handed_out(x, n, y, s1);
            lemma_count_bump(s1, k, x);
            assert(handed_out(x, n, y, s1n));
        }
    }
}

/// What a first and a second run over a node have in common.
spec fn node_runs(e: ExprView, m1: Renaming, m2: Renaming, s1: Counts, s2: Counts) -> bool {
    let r1 = rename_spec(e, m1, s1, false);
    let r2 = rename_spec(r1->Ok_0.expr, m2, s2, false);
    &&& r2 is Ok
    &&& paired(r1->Ok_0.mapping, r2->Ok_0.mapping, r1->Ok_0.count, r2->Ok_0.count)
    &&& capture_free(e, m1, s1)
    &&& capture_free(r1->Ok_0.expr, m2, s2)
}

/// Uniquifying a node with plain binders captures nothing, and neither does
/// uniquifying the result.
proof fn lemma_plain_node(e: ExprView, m1: Renaming, m2: Renaming, s1: Counts, s2: Counts)
    requires
        paired(m1, m2, s1, s2),
        binders_plain(e),
        rename_spec(e, m1, s1, false) is Ok,
    ensures
        node_runs(e, m1, m2, s1, s2),
    decreases e, 0nat,
{
    match e {
        ExprView::Symbol(name) => {
            assert(assoc_get(m1, name) is Some);
        },
        ExprView::Tuple(elts) => {
            lemma_plain_list(elts, m1, m2, s1, s2);
        },
        ExprView::Let(bindings, body) => {
            lemma_plain_bindings(bindings, m1, m2, s1, s2);
            let b1 = rename_bindings_spec(bindings, m1, s1, false)->Ok_0;
            let b2 = rename_bindings_spec(b1.bindings, m2, s2, false)->Ok_0;
            lemma_plain_node(*body, b1.mapping, b2.mapping, b1.count, b2.count);
        },
        ExprView::If(cnd, thn, els) => {
            lemma_plain_node(*cnd, m1, m2, s1, s2);
            let c1 = rename_spec(*cnd, m1, s1, false)->Ok_0;
            let c2 = rename_spec(c1.expr, m2, s2, false)->Ok_0;
            lemma_plain_node(*thn, c1.mapping, c2.mapping, c1.count, c2.count);
            let t1 = rename_spec(*thn, c1.mapping, c1.count, false)->Ok_0;
            let t2 = rename_spec(t1.expr, c2.mapping, c2.count, false)->Ok_0;
            lemma_plain_node(*els, t1.mapping, t2.mapping, t1.count, t2.count);
        },
        ExprView::Cmp(_, left, right) => {
            lemma_plain_node(*left, m1, m2, s1, s2);
            let l1 = rename_spec(*left, m1, s1, false)->Ok_0;
            let l2 = rename_spec(l1.expr, m2, s2, false)->Ok_0;
            lemma_plain_node(*right, l1.mapping, l2.mapping, l1.count, l2.count);
        },
        ExprView::App(f, args) => {
            lemma_plain_callee(*f, m1, m2, s1, s2);
            let f1 = rename_callee_spec(*f, m1, s1, false)->Ok_0;
            let f2 = rename_callee_spec(f1.expr, m2, s2, false)->Ok_0;
            lemma_plain_list(args, f1.mapping, f2.mapping, f1.count, f2.count);
        },
        ExprView::Define(_, params, body) => {
            lemma_plain_params(params, m1, m2, s1, s2);
            let p1 = rename_params_spec(params, m1, s1, false)->Ok_0;
            let p2 = rename_params_spec(p1.params, m2, s2, false)->Ok_0;
            lemma_plain_node(*body, p1.mapping, p2.mapping, p1.count, p2.count);
        },
        ExprView::Prog(defs, body) => {
            lemma_plain_list(defs, m1, m2, s1, s2);
            let l1 = rename_list_spec(defs, m1, s1, false)->Ok_0;
            let l2 = rename_list_spec(l1.exprs, m2, s2, false)->Ok_0;
            lemma_plain_node(*body, l1.mapping, l2.mapping, l1.count, l2.count);
        },
        _ => {},
    }
}

/// What a first and a second run over a callee have in common.
spec fn callee_runs(f: ExprView, m1: Renaming, m2: Renaming, s1: Counts, s2: Counts) -> bool {
    let r1 = rename_callee_spec(f, m1, s1, false);
    let r2 = rename_callee_spec(r1->Ok_0.expr, m2, s2, false);
    &&& r2 is Ok
    &&& paired(r1->Ok_0.mapping, r2->Ok_0.mapping, r1->Ok_0.count, r2->Ok_0.count)
    &&& capture_free_callee(f, m1, s1)
    &&& capture_free_callee(r1->Ok_0.expr, m2, s2)
}

/// The two runs over a callee.
proof fn lemma_plain_callee(f: ExprView, m1: Renaming, m2: Renaming, s1: Counts, s2: Counts)
    requires
        paired(m1, m2, s1, s2),
        binders_plain(f),
        rename_callee_spec(f, m1, s1, false) is Ok,
    ensures
        callee_runs(f, m1, m2, s1, s2),
    decreases f, 1nat,
{
    match f {
        ExprView::Symbol(_) => {},
        _ => {
            lemma_plain_node(f, m1, m2, s1, s2);
            assert(!(rename_spec(f, m1, s1, false)->Ok_0.expr is Symbol));
        },
    }
}

/// What a first and a second run over a list have in common.
spec fn list_runs(es: Seq<ExprView>, m1: Renaming, m2: Renaming, s1: Counts, s2: Counts) -> bool {
    let r1 = rename_list_spec(es, m1, s1, false);
    let r2 = rename_list_spec(r1->Ok_0.exprs, m2, s2, false);
    &&& r2 is Ok
    &&& paired(r1->Ok_0.mapping, r2->Ok_0.mapping, r1->Ok_0.count, r2->Ok_0.count)
    &&& capture_free_list(es, m1, s1)
    &&& capture_free_list(r1->Ok_0.exprs, m2, s2)
}

/// The two runs over a list of nodes.
proof fn lemma_plain_list(es: Seq<ExprView>, m1: Renaming, m2: Renaming, s1: Counts, s2: Counts)
    requires
        paired(m1, m2, s1, s2),
        forall|i: int| 0 <= i < es.len() ==> binders_plain(#[trigger] es[i]),
        rename_list_spec(es, m1, s1, false) is Ok,
    ensures
        list_runs(es, m1, m2, s1, s2),
    decreases es, 0nat,
{
    if es.len() > 0 {
        let rest = es.drop_last();
        assert forall|i: int| 0 <= i < rest.len() implies binders_plain(#[trigger] rest[i]) by {
            assert(rest[i] == es[i]);
        }
        assert(es.last() == es[es.len() - 1]);
        lemma_plain_list(rest, m1, m2, s1, s2);
        let i1 = rename_list_spec(rest, m1, s1, false)->Ok_0;
        let i2 = rename_list_spec(i1.exprs, m2, s2, false)->Ok_0;
        lemma_plain_node(es.last(), i1.mapping, i2.mapping, i1.count, i2.count);
        let x = rename_spec(es.last(), i1.mapping, i1.count, false)->Ok_0;
        let out = i1.exprs.push(x.expr);
        assert(out.drop_last() =~= i1.exprs);
        assert(out.last() == x.expr);
    }
}

/// What a first and a second run over bindings have in common.
spec fn bindings_runs(
    bs: Seq<(Name, ExprView)>,
    m1: Renaming,
    m2: Renaming,
    s1: Counts,
    s2: Counts,
) -> bool {
    let r1 = rename_bindings_spec(bs, m1, s1, false);
    let r2 = rename_bindings_spec(r1->Ok_0.bindings, m2, s2, false);
    &&& r2 is Ok
    &&& paired(r1->Ok_0.mapping, r2->Ok_0.mapping, r1->Ok_0.count, r2->Ok_0.count)
    &&& capture_free_bindings(bs, m1, s1)
    &&& capture_free_bindings(r1->Ok_0.bindings, m2, s2)
}

/// The two runs over the bindings of a `let`.
proof fn lemma_plain_bindings(
    bs: Seq<(Name, ExprView)>,
    m1: Renaming,
    m2: Renaming,
    s1: Counts,
    s2: Counts,
)
    requires
        paired(m1, m2, s1, s2),
        forall|i: int|
            0 <= i < bs.len() ==> plain((#[trigger] bs[i]).0) && binders_plain(bs[i].1),
        rename_bindings_spec(bs, m1, s1, false) is Ok,
    ensures
        bindings_runs(bs, m1, m2, s1, s2),
    decreases bs, 0nat,
{
    if bs.len() > 0 {
        let rest = bs.drop_last();
        assert forall|i: int| 0 <= i < rest.len() implies plain((#[trigger] rest[i]).0)
            && binders_plain(rest[i].1) by {
            assert(rest[i] == bs[i]);
        }
        assert(bs.last() == bs[bs.len() - 1]);
        lemma_plain_bindings(rest, m1, m2, s1, s2);
        let i1 = rename_bindings_spec(rest, m1, s1, false)->Ok_0;
        let i2 = rename_bindings_spec(i1.bindings, m2, s2, false)->Ok_0;
        let k = bs.last().0;
        let f = fresh_name(k, i1.count);
        let g = fresh_name(f, i2.count);
        lemma_paired_put(i1.mapping, i2.mapping, i1.count, i2.count, k);
        lemma_plain_node(
            bs.last().1,
            assoc_put(i1.mapping, k, f),
            assoc_put(i2.mapping, f, g),
            bump(i1.count, k),
            bump(i2.count, f),
        );
        let x = rename_spec(bs.last().1, assoc_put(i1.mapping, k, f), bump(i1.count, k), false)->Ok_0;
        let out = i1.bindings.push((f, x.expr));
        assert(out.drop_last() =~= i1.bindings);
        assert(out.last() == (f, x.expr));
    }
}

/// What a first and a second run over parameters have in common.
spec fn params_runs(ps: Seq<Name>, m1: Renaming, m2: Renaming, s1: Counts, s2: Counts) -> bool {
    let r1 = rename_params_spec(ps, m1, s1, false);
    let r2 = rename_params_spec(r1->Ok_0.params, m2, s2, false);
    &&& r2 is Ok
    &&& paired(r1->Ok_0.mapping, r2->Ok_0.mapping, r1->Ok_0.count, r2->Ok_0.count)
    &&& capture_free_params(ps, m1, s1)
    &&& capture_free_params(r1->Ok_0.params, m2, s2)
}

/// The two runs over the parameters of a definition.
proof fn lemma_plain_params(ps: Seq<Name>, m1: Renaming, m2: Renaming, s1: Counts, s2: Counts)
    requires
        paired(m1, m2, s1, s2),
        forall|i: int| 0 <= i < ps.len() ==> plain(#[trigger] ps[i]),
        rename_params_spec(ps, m1, s1, false) is Ok,
    ensures
        params_runs(ps, m1, m2, s1, s2),
    decreases ps.len(),
{
    if ps.len() > 0 {
        let rest = ps.drop_last();
        assert forall|i: int| 0 <= i < rest.len() implies plain(#[trigger] rest[i]) by {
            assert(rest[i] == ps[i]);
        }
        assert(ps.last() == ps[ps.len() - 1]);
        lemma_plain_params(rest, m1, m2, s1, s2);
        let i1 = rename_params_spec(rest, m1, s1, false)->Ok_0;
        let i2 = rename_params_spec(i1.params, m2, s2, false)->Ok_0;
        let k = ps.last();
        let f = fresh_name(k, i1.count);
        lemma_paired_put(i1.mapping, i2.mapping, i1.count, i2.count, k);
        let out = i1.params.push(f);
        assert(out.drop_last() =~= i1.params);
        assert(out.last() == f);
    }
}

/// Nothing is bound and nothing handed out at the start.
proof fn lemma_paired_empty()
    ensures
        paired(Seq::empty(), Seq::empty(), Seq::empty(), Seq::empty()),
{
    assert forall|x: Name| (#[trigger] assoc_get(Seq::<(Name, Name)>::empty(), x)) is None by {
        lemma_find(Seq::<(Name, Name)>::empty(), x);
    }
    assert forall|y: Name| (#[trigger] count_of(Seq::empty(), y)) == 0 by {
        lemma_count_empty(y);
    }
}

/// Uniquifying is idempotent up to the names of binders: where no binder of a program
/// ends in a digit, the first run gives a program with the binding structure of the
/// input, a second run from scratch over that program succeeds, and its result has the
/// same binding structure again. The binding structure is that of the scoping of the
/// pass, in which a binding stays in force after its `let` has ended.
pub proof fn lemma_uniquify_idempotent_plain(e: ExprView)
    requires
        uniquify_spec(e, Seq::empty(), Seq::empty()) is Ok,
        binders_plain(e),
    ensures
        ({
            let first = uniquify_spec(e, Seq::empty(), Seq::empty())->Ok_0.expr;
            let second = uniquify_spec(first, Seq::empty(), Seq::empty());
            &&& second is Ok
            &&& alpha_equivalent(e, first)
            &&& alpha_equivalent(first, second->Ok_0.expr)
        }),
{
    lemma_paired_empty();
    lemma_plain_node(e, Seq::empty(), Seq::empty(), Seq::empty(), Seq::empty());
    lemma_uniquify_alpha_equivalent(e);
    lemma_uniquify_alpha_equivalent(uniquify_spec(e, Seq::empty(), Seq::empty())->Ok_0.expr);
}

/// The names of the binders of a program, in the order in which uniquifying meets them.
pub open spec fn binder_names(e: ExprView) -> Seq<Name>
    decreases e, 0nat,
{
    match e {
        ExprView::Tuple(elts) => list_binder_names(elts),
        ExprView::Let(bindings, body) => bindings_binder_names(bindings) + binder_names(*body),
        ExprView::If(cnd, thn, els) => binder_names(*cnd) + binder_names(*thn) + binder_names(
            *els,
        ),
        ExprView::Cmp(_, left, right) => binder_names(*left) + binder_names(*right),
        ExprView::App(f, args) => binder_names(*f) + list_binder_names(args),
        ExprView::Define(_, params, body) => params + binder_names(*body),
        ExprView::Prog(defs, body) => list_binder_names(defs) + binder_names(*body),
        _ => Seq::empty(),
    }
}

/// The names of the binders of a list of nodes.
pub open spec fn list_binder_names(es: Seq<ExprView>) -> Seq<Name>
    decreases es, 0nat,
{
    if es.len() == 0 {
        Seq::empty()
    } else {
        list_binder_names(es.drop_last()) + binder_names(es.last())
    }
}

/// The names of the binders of the bindings of a `let`: each bound name, then the
/// binders of its value.
pub open spec fn bindings_binder_names(bs: Seq<(Name, ExprView)>) -> Seq<Name>
    decreases bs, 0nat,
{
    if bs.len() == 0 {
        Seq::empty()
    } else {
        bindings_binder_names(bs.drop_last()).push(bs.last().0) + binder_names(bs.last().1)
    }
}

/// Different digits are written differently.
proof fn lemma_digit_injective(a: int, b: int)
    requires
        0 <= a <= 9,
        0 <= b <= 9,
        digit_char(a) == digit_char(b),
    ensures
        a == b,
{
}

/// Different numbers have different numerals.
pub proof fn lemma_decimal_injective(a: nat, b: nat)
    requires
        decimal(a) == decimal(b),
    ensures
        a == b,
    decreases a,
{
    lemma_decimal_digits(a / 10);
    lemma_decimal_digits(b / 10);
    if a >= 10 && b >= 10 {
        let da = decimal(a / 10).push(digit_char((a % 10) as int));
        let db = decimal(b / 10).push(digit_char((b % 10) as int));
        assert(decimal(a) == da);
        assert(decimal(b) == db);
        assert(da.drop_last() =~= decimal(a / 10));
        assert(db.drop_last() =~= decimal(b / 10));
        assert(da.last() == digit_char((a % 10) as int));
        assert(db.last() == digit_char((b % 10) as int));
        lemma_decimal_injective(a / 10, b / 10);
        lemma_digit_injective((a % 10) as int, (b % 10) as int);
        assert(a == 10 * (a / 10) + a % 10);
        assert(b == 10 * (b / 10) + b % 10);
    } else if a < 10 && b < 10 {
        assert(decimal(a) == seq![digit_char(a as int)]);
        assert(decimal(b) == seq![digit_char(b as int)]);
        assert(decimal(a)[0] == digit_char(a as int));
        assert(decimal(b)[0] == digit_char(b as int));
        lemma_digit_injective(a as int, b as int);
    } else if a < 10 {
        assert(decimal(a).len() == 1);
        assert(decimal(b).len() == decimal(b / 10).len() + 1);
    } else {
        assert(decimal(b).len() == 1);
        assert(decimal(a).len() == decimal(a / 10).len() + 1);
    }
}

/// Whether `name` is the plain name `x` followed by the numeral of `n`.
spec fn stamped(x: Name, n: nat, name: Name) -> bool {
    plain(x) && name == x + decimal(n)
}

/// Whether a name carries a number that was handed out between two states of the
/// supply.
spec fn numbered(name: Name, lo: Counts, hi: Counts) -> bool {
    exists|x: Name, n: nat| #[trigger] stamped(x, n, name) && count_of(lo, x) < n <= count_of(hi, x)
}

/// Whether no count is lower in the later state.
spec fn grown(lo: Counts, hi: Counts) -> bool {
    forall|x: Name| count_of(lo, x) <= #[trigger] count_of(hi, x)
}

/// Whether the names are pairwise different and all carry numbers handed out between
/// the two states.
spec fn distinct_numbered(s: Seq<Name>, lo: Counts, hi: Counts) -> bool {
    &&& grown(lo, hi)
    &&& s.no_duplicates()
    &&& forall|i: int| 0 <= i < s.len() ==> numbered(#[trigger] s[i], lo, hi)
}

/// Names with numbers from consecutive stretches stay pairwise different when put
/// together.
proof fn lemma_numbered_concat(a: Seq<Name>, b: Seq<Name>, lo: Counts, mid: Counts, hi: Counts)
    requires
        distinct_numbered(a, lo, mid),
        distinct_numbered(b, mid, hi),
    ensures
        distinct_numbered(a + b, lo, hi),
{
    let s = a + b;
    assert forall|x: Name| count_of(lo, x) <= #[trigger] count_of(hi, x) by {
        assert(count_of(lo, x) <= count_of(mid, x));
        assert(count_of(mid, x) <= count_of(hi, x));
    }
    assert forall|i: int| 0 <= i < s.len() implies numbered(#[trigger] s[i], lo, hi) by {
        if i < a.len() {
            assert(s[i] == a[i]);
            let (x, n) = choose|x: Name, n: nat|
                #[trigger] stamped(x, n, a[i]) && count_of(lo, x) < n <= count_of(mid, x);
            assert(count_of(mid, x) <= count_of(hi, x));
            assert(stamped(x, n, s[i]) && count_of(lo, x) < n <= count_of(hi, x));
        } else {
            assert(s[i] == b[i - a.len()]);
            let (x, n) = choose|x: Name, n: nat|
                #[trigger] stamped(x, n, b[i - a.len()]) && count_of(mid, x) < n <= count_of(
                    hi,
                    x,
                );
            assert(count_of(lo, x) <= count_of(mid, x));
            assert(stamped(x, n, s[i]) && count_of(lo, x) < n <= count_of(hi, x));
        }
    }
    assert forall|i: int, j: int| 0 <= i < s.len() && 0 <= j < s.len() && i != j implies s[i]
        != s[j] by {
        if i < a.len() && j < a.len() {
            assert(s[i] == a[i] && s[j] == a[j]);
        } else if i >= a.len() && j >= a.len() {
            assert(s[i] == b[i - a.len()] && s[j] == b[j - a.len()]);
        } else {
            let (p, q) = if i < a.len() {
                (i, j - a.len())
            } else {
                (j, i - a.len())
            };
            assert(s[i] == a[p] && s[j] == b[q] || s[j] == a[p] && s[i] == b[q]);
            let (x, n) = choose|x: Name, n: nat|
                #[trigger] stamped(x, n, a[p]) && count_of(lo, x) < n <= count_of(mid, x);
            let (y, k) = choose|y: Name, k: nat|
                #[trigger] stamped(y, k, b[q]) && count_of(mid, y) < k <= count_of(hi, y);
            if a[p] == b[q] {
                lemma_decimal_digits(n);
                lemma_decimal_digits(k);
                lemma_split(x, decimal(n), y, decimal(k));
                lemma_decimal_injective(n, k);
            }
        }
    }
}

/// No names are pairwise different.
proof fn lemma_numbered_empty(lo: Counts)
    ensures
        distinct_numbered(Seq::<Name>::empty(), lo, lo),
{
}

/// The one new name of a binder.
proof fn lemma_numbered_one(k: Name, c: Counts)
    requires
        plain(k),
    ensures
        distinct_numbered(seq![fresh_name(k, c)], c, bump(c, k)),
{
    let s = seq![fresh_name(k, c)];
    assert forall|x: Name| count_of(c, x) <= #[trigger] count_of(bump(c, k), x) by {
        lemma_count_bump(c, k, x);
    }
    lemma_count_bump(c, k, k);
    assert forall|i: int| 0 <= i < s.len() implies numbered(#[trigger] s[i], c, bump(c, k)) by {
        assert(stamped(k, count_of(c, k) + 1, s[i]));
    }
}

/// The binders of a uniquified node are pairwise different.
proof fn lemma_unique_node(e: ExprView, m: Renaming, c: Counts)
    requires
        binders_plain(e),
        rename_spec(e, m, c, false) is Ok,
    ensures
        distinct_numbered(
            binder_names(rename_spec(e, m, c, false)->Ok_0.expr),
            c,
            rename_spec(e, m, c, false)->Ok_0.count,
        ),
    decreases e, 0nat,
{
    lemma_numbered_empty(c);
    match e {
        ExprView::Tuple(elts) => {
            lemma_unique_list(elts, m, c);
        },
        ExprView::Let(bindings, body) => {
            lemma_unique_bindings(bindings, m, c);
            let bs = rename_bindings_spec(bindings, m, c, false)->Ok_0;
            lemma_unique_node(*body, bs.mapping, bs.count);
            let b = rename_spec(*body, bs.mapping, bs.count, false)->Ok_0;
            lemma_numbered_concat(
                bindings_binder_names(bs.bindings),
                binder_names(b.expr),
                c,
                bs.count,
                b.count,
            );
        },
        ExprView::If(cnd, thn, els) => {
            lemma_unique_node(*cnd, m, c);
            let rc = rename_spec(*cnd, m, c, false)->Ok_0;
            lemma_unique_node(*thn, rc.mapping, rc.count);
            let rt = rename_spec(*thn, rc.mapping, rc.count, false)->Ok_0;
            lemma_unique_node(*els, rt.mapping, rt.count);
            let re = rename_spec(*els, rt.mapping, rt.count, false)->Ok_0;
            lemma_numbered_concat(
                binder_names(rc.expr),
                binder_names(rt.expr),
                c,
                rc.count,
                rt.count,
            );
            lemma_numbered_concat(
                binder_names(rc.expr) + binder_names(rt.expr),
                binder_names(re.expr),
                c,
                rt.count,
                re.count,
            );
        },
        ExprView::Cmp(_, left, right) => {
            lemma_unique_node(*left, m, c);
            let rl = rename_spec(*left, m, c, false)->Ok_0;
            lemma_unique_node(*right, rl.mapping, rl.count);
            let rr = rename_spec(*right, rl.mapping, rl.count, false)->Ok_0;
            lemma_numbered_concat(
                binder_names(rl.expr),
                binder_names(rr.expr),
                c,
                rl.count,
                rr.count,
            );
        },
        ExprView::App(f, args) => {
            lemma_unique_callee(*f, m, c);
            let rf = rename_callee_spec(*f, m, c, false)->Ok_0;
            lemma_unique_list(args, rf.mapping, rf.count);
            let l = rename_list_spec(args, rf.mapping, rf.count, false)->Ok_0;
            lemma_numbered_concat(
                binder_names(rf.expr),
                list_binder_names(l.exprs),
                c,
                rf.count,
                l.count,
            );
        },
        ExprView::Define(_, params, body) => {
            lemma_unique_params(params, m, c);
            let ps = rename_params_spec(params, m, c, false)->Ok_0;
            lemma_unique_node(*body, ps.mapping, ps.count);
            let b = rename_spec(*body, ps.mapping, ps.count, false)->Ok_0;
            lemma_numbered_concat(ps.params, binder_names(b.expr), c, ps.count, b.count);
        },
        ExprView::Prog(defs, body) => {
            lemma_unique_list(defs, m, c);
            let l = rename_list_spec(defs, m, c, false)->Ok_0;
            lemma_unique_node(*body, l.mapping, l.count);
            let b = rename_spec(*body, l.mapping, l.count, false)->Ok_0;
            lemma_numbered_concat(
                list_binder_names(l.exprs),
                binder_names(b.expr),
                c,
                l.count,
                b.count,
            );
        },
        _ => {},
    }
}

/// The binders of a uniquified callee are pairwise different.
proof fn lemma_unique_callee(f: ExprView, m: Renaming, c: Counts)
    requires
        binders_plain(f),
        rename_callee_spec(f, m, c, false) is Ok,
    ensures
        distinct_numbered(
            binder_names(rename_callee_spec(f, m, c, false)->Ok_0.expr),
            c,
            rename_callee_spec(f, m, c, false)->Ok_0.count,
        ),
    decreases f, 1nat,
{
    lemma_numbered_empty(c);
    match f {
        ExprView::Symbol(_) => {},
        _ => {
            lemma_unique_node(f, m, c);
        },
    }
}

/// The binders of a uniquified list of nodes are pairwise different.
proof fn lemma_unique_list(es: Seq<ExprView>, m: Renaming, c: Counts)
    requires
        forall|i: int| 0 <= i < es.len() ==> binders_plain(#[trigger] es[i]),
        rename_list_spec(es, m, c, false) is Ok,
    ensures
        distinct_numbered(
            list_binder_names(rename_list_spec(es, m, c, false)->Ok_0.exprs),
            c,
            rename_list_spec(es, m, c, false)->Ok_0.count,
        ),
    decreases es, 0nat,
{
    lemma_numbered_empty(c);
    if es.len() > 0 {
        let rest = es.drop_last();
        assert forall|i: int| 0 <= i < rest.len() implies binders_plain(#[trigger] rest[i]) by {
            assert(rest[i] == es[i]);
        }
        assert(es.last() == es[es.len() - 1]);
        lemma_unique_list(rest, m, c);
        let init = rename_list_spec(rest, m, c, false)->Ok_0;
        lemma_unique_node(es.last(), init.mapping, init.count);
        let x = rename_spec(es.last(), init.mapping, init.count, false)->Ok_0;
        let out = init.exprs.push(x.expr);
        assert(out.drop_last() =~= init.exprs);
        assert(out.last() == x.expr);
        lemma_numbered_concat(
            list_binder_names(init.exprs),
            binder_names(x.expr),
            c,
            init.count,
            x.count,
        );
    }
}

/// The binders of uniquified bindings are pairwise different.
proof fn lemma_unique_bindings(bs: Seq<(Name, ExprView)>, m: Renaming, c: Counts)
    requires
        forall|i: int|
            0 <= i < bs.len() ==> plain((#[trigger] bs[i]).0) && binders_plain(bs[i].1),
        rename_bindings_spec(bs, m, c, false) is Ok,
    ensures
        distinct_numbered(
            bindings_binder_names(rename_bindings_spec(bs, m, c, false)->Ok_0.bindings),
            c,
            rename_bindings_spec(bs, m, c, false)->Ok_0.count,
        ),
    decreases bs, 0nat,
{
    lemma_numbered_empty(c);
    if bs.len() > 0 {
        let rest = bs.drop_last();
        assert forall|i: int| 0 <= i < rest.len() implies plain((#[trigger] rest[i]).0)
            && binders_plain(rest[i].1) by {
            assert(rest[i] == bs[i]);
        }
        assert(bs.last() == bs[bs.len() - 1]);
        lemma_unique_bindings(rest, m, c);
        let init = rename_bindings_spec(rest, m, c, false)->Ok_0;
        let k = bs.last().0;
        let f = fresh_name(k, init.count);
        let next = bump(init.count, k);
        lemma_unique_node(bs.last().1, assoc_put(init.mapping, k, f), next);
        let x = rename_spec(bs.last().1, assoc_put(init.mapping, k, f), next, false)->Ok_0;
        let out = init.bindings.push((f, x.expr));
        assert(out.drop_last() =~= init.bindings);
        assert(out.last() == (f, x.expr));
        lemma_numbered_one(k, init.count);
        let before = bindings_binder_names(init.bindings);
        lemma_numbered_concat(before, seq![f], c, init.count, next);
        assert(before + seq![f] =~= before.push(f));
        lemma_numbered_concat(before.push(f), binder_names(x.expr), c, next, x.count);
    }
}

/// The new names of uniquified parameters are pairwise different.
proof fn lemma_unique_params(ps: Seq<Name>, m: Renaming, c: Counts)
    requires
        forall|i: int| 0 <= i < ps.len() ==> plain(#[trigger] ps[i]),
        rename_params_spec(ps, m, c, false) is Ok,
    ensures
        distinct_numbered(
            rename_params_spec(ps, m, c, false)->Ok_0.params,
            c,
            rename_params_spec(ps, m, c, false)->Ok_0.count,
        ),
    decreases ps.len(),
{
    lemma_numbered_empty(c);
    if ps.len() > 0 {
        let rest = ps.drop_last();
        assert forall|i: int| 0 <= i < rest.len() implies plain(#[trigger] rest[i]) by {
            assert(rest[i] == ps[i]);
        }
        assert(ps.last() == ps[ps.len() - 1]);
        lemma_unique_params(rest, m, c);
        let init = rename_params_spec(rest, m, c, false)->Ok_0;
        let f = fresh_name(ps.last(), init.count);
        lemma_numbered_one(ps.last(), init.count);
        lemma_numbered_concat(init.params, seq![f], c, init.count, bump(init.count, ps.last()));
        assert(init.params + seq![f] =~= init.params.push(f));
    }
}

/// After uniquifying, no two binders share a name, where no binder of the program ends
/// in a digit.
pub proof fn lemma_uniquify_binders_distinct(e: ExprView, m: Renaming, c: Counts)
    requires
        binders_plain(e),
        uniquify_spec(e, m, c) is Ok,
    ensures
        binder_names(uniquify_spec(e, m, c)->Ok_0.expr).no_duplicates(),
{
    lemma_unique_node(e, m, c);
}

} // verus!

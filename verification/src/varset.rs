//! Lists of names used as sets: membership, and the set operations that keep the order
//! in which names were first added.

use vstd::prelude::*;
use crate::names::Name;
use crate::seqs::{empty_deep, lemma_deep_view_index, lemma_take_all, lemma_take_push, push_deep};

verus! {

/// `s` with `x` added at the end, unless `s` holds it already.
pub open spec fn names_insert(s: Seq<Name>, x: Name) -> Seq<Name> {
    if s.contains(x) {
        s
    } else {
        s.push(x)
    }
}

/// `a` followed by the names of `b` that it lacks, each once, in the order of `b`.
pub open spec fn names_union(a: Seq<Name>, b: Seq<Name>) -> Seq<Name>
    decreases b.len(),
{
    if b.len() == 0 {
        a
    } else {
        names_insert(names_union(a, b.drop_last()), b.last())
    }
}

/// The names of `a` that do not occur in `b`, in their order.
pub open spec fn names_minus(a: Seq<Name>, b: Seq<Name>) -> Seq<Name> {
    a.filter(|x: Name| !b.contains(x))
}

/// Whether every name of `a` occurs in `b`.
pub open spec fn names_subset(a: Seq<Name>, b: Seq<Name>) -> bool {
    forall|x: Name| a.contains(x) ==> b.contains(x)
}

/// What an insertion holds.
pub proof fn lemma_insert_contains(s: Seq<Name>, x: Name, y: Name)
    ensures
        names_insert(s, x).contains(y) <==> (s.contains(y) || y == x),
{
    if !s.contains(x) {
        let t = s.push(x);
        if t.contains(y) {
            let i = choose|i: int| 0 <= i < t.len() && t[i] == y;
            if i < s.len() {
                assert(s[i] == y);
            }
        }
        if s.contains(y) {
            let i = choose|i: int| 0 <= i < s.len() && s[i] == y;
            assert(t[i] == y);
        }
        if y == x {
            assert(t[s.len() as int] == y);
        }
    }
}

/// What a union holds.
pub proof fn lemma_union_contains(a: Seq<Name>, b: Seq<Name>, y: Name)
    ensures
        names_union(a, b).contains(y) <==> (a.contains(y) || b.contains(y)),
    decreases b.len(),
{
    if b.len() > 0 {
        lemma_union_contains(a, b.drop_last(), y);
        lemma_insert_contains(names_union(a, b.drop_last()), b.last(), y);
        if b.contains(y) {
            let i = choose|i: int| 0 <= i < b.len() && b[i] == y;
            if i < b.len() - 1 {
                assert(b.drop_last()[i] == y);
            }
        }
        if b.drop_last().contains(y) {
            let i = choose|i: int| 0 <= i < b.drop_last().len() && b.drop_last()[i] == y;
            assert(b[i] == y);
        }
        assert(b[b.len() - 1] == b.last());
    }
}

/// What a difference holds.
pub proof fn lemma_minus_contains(a: Seq<Name>, b: Seq<Name>, y: Name)
    ensures
        names_minus(a, b).contains(y) <==> (a.contains(y) && !b.contains(y)),
    decreases a.len(),
{
    reveal(Seq::filter);
    if a.len() > 0 {
        lemma_minus_contains(a.drop_last(), b, y);
        let init = names_minus(a.drop_last(), b);
        if a.contains(y) {
            let i = choose|i: int| 0 <= i < a.len() && a[i] == y;
            if i < a.len() - 1 {
                assert(a.drop_last()[i] == y);
            }
        }
        if a.drop_last().contains(y) {
            let i = choose|i: int| 0 <= i < a.drop_last().len() && a.drop_last()[i] == y;
            assert(a[i] == y);
        }
        assert(a[a.len() - 1] == a.last());
        if !b.contains(a.last()) {
            let t = init.push(a.last());
            assert(names_minus(a, b) == t);
            if t.contains(y) {
                let i = choose|i: int| 0 <= i < t.len() && t[i] == y;
                if i < init.len() {
                    assert(init[i] == y);
                }
            }
            if init.contains(y) {
                let i = choose|i: int| 0 <= i < init.len() && init[i] == y;
                assert(t[i] == y);
            }
            assert(t[init.len() as int] == a.last());
        } else {
            assert(names_minus(a, b) == init);
        }
    }
}

/// An insertion into a list without repetitions has none.
pub proof fn lemma_insert_no_duplicates(s: Seq<Name>, x: Name)
    requires
        s.no_duplicates(),
    ensures
        names_insert(s, x).no_duplicates(),
{
}

/// A union with a list without repetitions has none.
pub proof fn lemma_union_no_duplicates(a: Seq<Name>, b: Seq<Name>)
    requires
        a.no_duplicates(),
    ensures
        names_union(a, b).no_duplicates(),
    decreases b.len(),
{
    if b.len() > 0 {
        lemma_union_no_duplicates(a, b.drop_last());
        lemma_insert_no_duplicates(names_union(a, b.drop_last()), b.last());
    }
}

/// A difference from a list without repetitions has none.
pub proof fn lemma_minus_no_duplicates(a: Seq<Name>, b: Seq<Name>)
    requires
        a.no_duplicates(),
    ensures
        names_minus(a, b).no_duplicates(),
    decreases a.len(),
{
    reveal(Seq::filter);
    if a.len() > 0 {
        assert(a.drop_last().no_duplicates());
        lemma_minus_no_duplicates(a.drop_last(), b);
        let init = names_minus(a.drop_last(), b);
        if !b.contains(a.last()) {
            lemma_minus_contains(a.drop_last(), b, a.last());
            if a.drop_last().contains(a.last()) {
                let i = choose|i: int| 0 <= i < a.drop_last().len() && a.drop_last()[i] == a.last();
                assert(a[i] == a[a.len() - 1]);
            }
            assert(!init.contains(a.last()));
        }
    }
}

/// Whether `name` occurs in `names`.
pub fn contains_name(names: &Vec<String>, name: &String) -> (found: bool)
    ensures
        found == names.deep_view().contains(name@),
{
    let mut i: usize = 0;
    while i < names.len()
        invariant
            i <= names.len(),
            forall|j: int| 0 <= j < i ==> names.deep_view()[j] != name@,
        decreases names.len() - i,
    {
        proof {
            lemma_deep_view_index(names);
        }
        if names[i] == *name {
            assert(names.deep_view()[i as int] == name@);
            return true;
        }
        i = i + 1;
    }
    false
}

/// Adds `name` unless it is there.
pub fn insert_name(names: &mut Vec<String>, name: String)
    ensures
        final(names).deep_view() == names_insert(old(names).deep_view(), name@),
{
    if !contains_name(names, &name) {
        push_deep(names, name);
    }
}

/// The union of two lists of names.
pub fn union_names(a: &Vec<String>, b: &Vec<String>) -> (out: Vec<String>)
    ensures
        out.deep_view() == names_union(a.deep_view(), b.deep_view()),
{
    let mut out: Vec<String> = a.clone();
    let mut i: usize = 0;
    while i < b.len()
        invariant
            i <= b.len(),
            out.deep_view() == names_union(a.deep_view(), b.deep_view().take(i as int)),
        decreases b.len() - i,
    {
        proof {
            lemma_take_push(b.deep_view(), i as int);
            lemma_deep_view_index(b);
        }
        insert_name(&mut out, b[i].clone());
        i = i + 1;
    }
    proof {
        lemma_take_all(b.deep_view());
    }
    out
}

/// The names of `a` that do not occur in `b`.
pub fn minus_names(a: &Vec<String>, b: &Vec<String>) -> (out: Vec<String>)
    ensures
        out.deep_view() == names_minus(a.deep_view(), b.deep_view()),
{
    let mut out: Vec<String> = empty_deep();
    let mut i: usize = 0;
    proof {
        reveal(Seq::filter);
    }
    while i < a.len()
        invariant
            i <= a.len(),
            out.deep_view() == names_minus(a.deep_view().take(i as int), b.deep_view()),
        decreases a.len() - i,
    {
        proof {
            reveal(Seq::filter);
            lemma_take_push(a.deep_view(), i as int);
            lemma_deep_view_index(a);
        }
        if !contains_name(b, &a[i]) {
            push_deep(&mut out, a[i].clone());
        }
        i = i + 1;
    }
    proof {
        lemma_take_all(a.deep_view());
    }
    out
}

} // verus!

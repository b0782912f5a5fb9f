//! Association lists keyed by names: maps that remember the order in which their keys
//! were first bound.

use vstd::prelude::*;
use crate::names::Name;
use crate::seqs::{lemma_deep_view_index, push_deep};

verus! {

/// The index of the first entry of `m` with key `k`, or the length of `m` if there is
/// none.
pub open spec fn assoc_find<V>(m: Seq<(Name, V)>, k: Name) -> int
    decreases m.len(),
{
    if m.len() == 0 {
        0
    } else {
        let i = assoc_find(m.drop_last(), k);
        if i < m.len() - 1 {
            i
        } else if m.last().0 == k {
            m.len() - 1
        } else {
            m.len() as int
        }
    }
}

/// Whether `m` binds `k`.
pub open spec fn assoc_has<V>(m: Seq<(Name, V)>, k: Name) -> bool {
    assoc_find(m, k) < m.len()
}

/// The value that `m` binds `k` to.
pub open spec fn assoc_get<V>(m: Seq<(Name, V)>, k: Name) -> Option<V> {
    let i = assoc_find(m, k);
    if i < m.len() {
        Some(m[i].1)
    } else {
        None
    }
}

/// `m` with `k` bound to `v`: a key that is bound keeps its place, a new key goes to the
/// end.
pub open spec fn assoc_put<V>(m: Seq<(Name, V)>, k: Name, v: V) -> Seq<(Name, V)> {
    let i = assoc_find(m, k);
    if i < m.len() {
        m.update(i, (k, v))
    } else {
        m.push((k, v))
    }
}

/// Whether no key occurs twice.
pub open spec fn keys_unique<V>(m: Seq<(Name, V)>) -> bool {
    forall|i: int, j: int| 0 <= i < m.len() && 0 <= j < m.len() && i != j ==> m[i].0 != m[j].0
}

/// Where a key is found: at the first entry that has it.
pub proof fn lemma_find<V>(m: Seq<(Name, V)>, k: Name)
    ensures
        0 <= assoc_find(m, k) <= m.len(),
        assoc_find(m, k) < m.len() ==> m[assoc_find(m, k)].0 == k,
        forall|j: int| 0 <= j < assoc_find(m, k) ==> (#[trigger] m[j]).0 != k,
    decreases m.len(),
{
    if m.len() > 0 {
        lemma_find(m.drop_last(), k);
        let i = assoc_find(m.drop_last(), k);
        assert forall|j: int| 0 <= j < assoc_find(m, k) implies (#[trigger] m[j]).0 != k by {
            if j < m.len() - 1 {
                assert(m[j] == m.drop_last()[j]);
            }
        }
        if i < m.len() - 1 {
            assert(m[i] == m.drop_last()[i]);
        }
    }
}

/// An index with the key, below which no entry has it, is where the key is found.
pub proof fn lemma_find_is<V>(m: Seq<(Name, V)>, k: Name, i: int)
    requires
        0 <= i <= m.len(),
        i < m.len() ==> m[i].0 == k,
        forall|j: int| 0 <= j < i ==> (#[trigger] m[j]).0 != k,
    ensures
        assoc_find(m, k) == i,
{
    lemma_find(m, k);
    let f = assoc_find(m, k);
    if f < i {
        assert(m[f].0 == k);
    } else if i < f {
        assert(m[i].0 == k);
    }
}

/// Reading after writing: the written key has the new value, every other key what it
/// had.
pub proof fn lemma_get_put<V>(m: Seq<(Name, V)>, k: Name, v: V, other: Name)
    ensures
        assoc_get(assoc_put(m, k, v), other) == if other == k {
            Some(v)
        } else {
            assoc_get(m, other)
        },
        assoc_has(assoc_put(m, k, v), other) == (other == k || assoc_has(m, other)),
{
    lemma_find(m, k);
    lemma_find(m, other);
    let i = assoc_find(m, k);
    let o = assoc_find(m, other);
    let p = assoc_put(m, k, v);
    if other == k {
        assert forall|j: int| 0 <= j < i implies (#[trigger] p[j]).0 != k by {
            assert(p[j] == m[j]);
        }
        lemma_find_is(p, k, i);
    } else if o < m.len() {
        assert forall|j: int| 0 <= j < o implies (#[trigger] p[j]).0 != other by {
            if j == i {
            } else {
                assert(p[j] == m[j]);
            }
        }
        assert(p[o] == m[o]);
        lemma_find_is(p, other, o);
    } else {
        assert forall|j: int| 0 <= j < p.len() implies (#[trigger] p[j]).0 != other by {
            if j == i {
            } else {
                assert(p[j] == m[j]);
            }
        }
        lemma_find_is(p, other, p.len() as int);
    }
}

/// Writing keeps the keys unique.
pub proof fn lemma_put_unique<V>(m: Seq<(Name, V)>, k: Name, v: V)
    requires
        keys_unique(m),
    ensures
        keys_unique(assoc_put(m, k, v)),
{
    lemma_find(m, k);
    let i = assoc_find(m, k);
    let p = assoc_put(m, k, v);
    assert forall|a: int, b: int| 0 <= a < p.len() && 0 <= b < p.len() && a != b implies p[a].0
        != p[b].0 by {
        if i < m.len() {
            assert(p[a].0 == m[a].0);
            assert(p[b].0 == m[b].0);
        } else {
            if a < m.len() {
                assert(p[a] == m[a]);
            }
            if b < m.len() {
                assert(p[b] == m[b]);
            }
        }
    }
}

/// With unique keys, every entry is what its key is bound to.
pub proof fn lemma_get_entry<V>(m: Seq<(Name, V)>, i: int)
    requires
        keys_unique(m),
        0 <= i < m.len(),
    ensures
        assoc_find(m, m[i].0) == i,
        assoc_get(m, m[i].0) == Some(m[i].1),
{
    lemma_find(m, m[i].0);
    let f = assoc_find(m, m[i].0);
    if f < i {
        assert(m[f].0 == m[i].0);
    }
}

/// The index of the first entry with key `k`, or the length of the list.
pub fn find_key<V: DeepView>(m: &Vec<(String, V)>, k: &String) -> (i: usize)
    ensures
        i == assoc_find(m.deep_view(), k@),
        i <= m.len(),
{
    let mut i: usize = 0;
    while i < m.len()
        invariant
            i <= m.len(),
            forall|j: int| 0 <= j < i ==> (#[trigger] m.deep_view()[j]).0 != k@,
        decreases m.len() - i,
    {
        proof {
            lemma_deep_view_index(m);
        }
        if m[i].0 == *k {
            proof {
                lemma_find_is(m.deep_view(), k@, i as int);
            }
            return i;
        }
        i = i + 1;
    }
    proof {
        lemma_find_is(m.deep_view(), k@, i as int);
    }
    i
}

/// The value that `k` is bound to.
pub fn get<'a, V: DeepView>(m: &'a Vec<(String, V)>, k: &String) -> (value: Option<&'a V>)
    ensures
        match value {
            Some(v) => assoc_get(m.deep_view(), k@) == Some(v.deep_view()),
            None => assoc_get(m.deep_view(), k@) == None::<V::V>,
        },
{
    let i = find_key(m, k);
    proof {
        lemma_deep_view_index(m);
    }
    if i < m.len() {
        Some(&m[i].1)
    } else {
        None
    }
}

/// Binds `k` to `v`.
pub fn put<V: DeepView>(m: &mut Vec<(String, V)>, k: String, v: V)
    ensures
        final(m).deep_view() == assoc_put(old(m).deep_view(), k@, v.deep_view()),
{
    let i = find_key(m, &k);
    proof {
        lemma_deep_view_index(m);
    }
    if i < m.len() {
        m.set(i, (k, v));
        assert(m.deep_view() =~= assoc_put(old(m).deep_view(), k@, v.deep_view()));
    } else {
        push_deep(m, (k, v));
    }
}

} // verus!

//! Vectors seen through the deep views of their elements.

use vstd::prelude::*;

verus! {

/// An empty vector; its deep view is the empty sequence.
pub fn empty_deep<T: DeepView>() -> (v: Vec<T>)
    ensures
        v.deep_view() == Seq::<T::V>::empty(),
        v@.len() == 0,
{
    let v: Vec<T> = Vec::new();
    assert(v.deep_view() =~= Seq::<T::V>::empty());
    v
}

/// Appends one element.
pub fn push_deep<T: DeepView>(v: &mut Vec<T>, x: T)
    ensures
        final(v).deep_view() == old(v).deep_view().push(x.deep_view()),
        final(v)@ == old(v)@.push(x),
{
    v.push(x);
    assert(v.deep_view() =~= old(v).deep_view().push(x.deep_view()));
}

/// Moves every element of `other` to the end of `v`.
pub fn append_deep<T: DeepView>(v: &mut Vec<T>, other: &mut Vec<T>)
    ensures
        final(v).deep_view() == old(v).deep_view() + old(other).deep_view(),
        final(v)@ == old(v)@ + old(other)@,
        final(other).deep_view() == Seq::<T::V>::empty(),
        final(other)@.len() == 0,
{
    v.append(other);
    assert(v.deep_view() =~= old(v).deep_view() + old(other).deep_view());
    assert(other.deep_view() =~= Seq::<T::V>::empty());
}

/// The deep view of a vector has the vector's length, and its elements are the deep
/// views of the vector's elements.
pub proof fn lemma_deep_view_index<T: DeepView>(v: &Vec<T>)
    ensures
        v.deep_view().len() == v@.len(),
        forall|i: int| 0 <= i < v@.len() ==> #[trigger] v.deep_view()[i] == v@[i].deep_view(),
{
}

/// The deep view of a prefix, extended by one element.
pub proof fn lemma_take_push<A>(s: Seq<A>, i: int)
    requires
        0 <= i < s.len(),
    ensures
        s.take(i + 1) == s.take(i).push(s[i]),
        s.take(i + 1).drop_last() == s.take(i),
        s.take(i + 1).last() == s[i],
{
    assert(s.take(i + 1) =~= s.take(i).push(s[i]));
    assert(s.take(i + 1).drop_last() =~= s.take(i));
}

/// A prefix that takes everything is the sequence itself.
pub proof fn lemma_take_all<A>(s: Seq<A>)
    ensures
        s.take(s.len() as int) == s,
        s.take(0) == Seq::<A>::empty(),
{
    assert(s.take(s.len() as int) =~= s);
    assert(s.take(0) =~= Seq::<A>::empty());
}

/// What a sequence holds after one more element was appended.
pub proof fn lemma_push_contains<A>(s: Seq<A>, x: A, e: A)
    ensures
        s.push(x).contains(e) <==> (s.contains(e) || e == x),
{
    let t = s.push(x);
    if t.contains(e) {
        let i = choose|i: int| 0 <= i < t.len() && t[i] == e;
        if i < s.len() {
            assert(s[i] == e);
        }
    }
    if s.contains(e) {
        let i = choose|i: int| 0 <= i < s.len() && s[i] == e;
        assert(t[i] == e);
    }
    if e == x {
        assert(t[s.len() as int] == e);
    }
}

/// What a sequence holds that lost its last element.
pub proof fn lemma_drop_last_contains<A>(s: Seq<A>, e: A)
    requires
        s.len() > 0,
    ensures
        s.contains(e) <==> (s.drop_last().contains(e) || e == s.last()),
{
    assert(s =~= s.drop_last().push(s.last()));
    lemma_push_contains(s.drop_last(), s.last(), e);
}

/// The vector in reverse order.
pub fn reverse_deep<T: DeepView>(v: Vec<T>) -> (out: Vec<T>)
    ensures
        out.deep_view() == v.deep_view().reverse(),
{
    let ghost orig = v@;
    let ghost goal = v.deep_view().reverse();
    let mut v = v;
    let mut out: Vec<T> = Vec::new();
    while v.len() > 0
        invariant
            v@.len() + out@.len() == orig.len(),
            v@ == orig.take(v@.len() as int),
            forall|j: int| 0 <= j < out@.len() ==> out@[j] == orig[orig.len() - 1 - j],
            goal.len() == orig.len(),
            forall|j: int| 0 <= j < orig.len() ==> goal[j] == orig[orig.len() - 1 - j].deep_view(),
        decreases v.len(),
    {
        let x = v.pop().unwrap();
        out.push(x);
    }
    assert(out.deep_view() =~= goal);
    out
}

} // verus!

//! Stable ordering by insertion: each element goes after every earlier one
//! that may stand before it, so elements that rank alike keep their order.
use vstd::prelude::*;

verus! {

/// `before` is total and transitive.
pub open spec fn total_preorder<T>(before: spec_fn(T, T) -> bool) -> bool {
    &&& forall|a: T, b: T| #[trigger] before(a, b) || before(b, a)
    &&& forall|a: T, b: T, c: T| #[trigger] before(a, b) && #[trigger] before(b, c) ==> before(a, c)
}

/// Every element of `s` may stand before every later one.
pub open spec fn ordered<T>(s: Seq<T>, before: spec_fn(T, T) -> bool) -> bool {
    forall|i: int, j: int| 0 <= i < j < s.len() ==> before(#[trigger] s[i], #[trigger] s[j])
}

/// Where `x` goes into `r`: the index of the first element that may not stand
/// before `x`, or `r.len()`.
pub open spec fn slot<T>(r: Seq<T>, x: T, before: spec_fn(T, T) -> bool) -> nat
    decreases r.len(),
{
    if r.len() == 0 || !before(r[0], x) {
        0
    } else {
        1 + slot(r.drop_first(), x, before)
    }
}

/// `s` in stable order under `before`.
pub open spec fn insertion_order<T>(s: Seq<T>, before: spec_fn(T, T) -> bool) -> Seq<T>
    decreases s.len(),
{
    if s.len() == 0 {
        s
    } else {
        let r = insertion_order(s.drop_last(), before);
        r.insert(slot(r, s.last(), before) as int, s.last())
    }
}

/// The slot of `x` is `i` when the first `i` elements may stand before `x`
/// and the next may not.
pub proof fn lemma_slot<T>(r: Seq<T>, x: T, before: spec_fn(T, T) -> bool, i: int)
    requires
        0 <= i <= r.len(),
        forall|j: int| 0 <= j < i ==> before(#[trigger] r[j], x),
        i == r.len() || !before(r[i], x),
    ensures
        slot(r, x, before) == i,
    decreases r.len(),
{
    if r.len() > 0 && i > 0 {
        assert forall|j: int| 0 <= j < i - 1 implies before(#[trigger] r.drop_first()[j], x) by {
            assert(r.drop_first()[j] == r[j + 1]);
        }
        lemma_slot(r.drop_first(), x, before, i - 1);
    }
}

proof fn lemma_slot_bounds<T>(r: Seq<T>, x: T, before: spec_fn(T, T) -> bool)
    ensures
        slot(r, x, before) <= r.len(),
        forall|k: int| 0 <= k < slot(r, x, before) ==> before(#[trigger] r[k], x),
        slot(r, x, before) < r.len() ==> !before(r[slot(r, x, before) as int], x),
    decreases r.len(),
{
    if r.len() > 0 && before(r[0], x) {
        let t = r.drop_first();
        lemma_slot_bounds(t, x, before);
        assert forall|k: int| 0 <= k < slot(r, x, before) implies before(#[trigger] r[k], x) by {
            if k > 0 {
                assert(r[k] == t[k - 1]);
            }
        }
        if slot(r, x, before) < r.len() {
            assert(r[slot(r, x, before) as int] == t[slot(t, x, before) as int]);
        }
    }
}

/// Insertion order is a reordering of `s` in which every element may stand
/// before every later one.
pub proof fn lemma_insertion_order<T>(s: Seq<T>, before: spec_fn(T, T) -> bool)
    requires
        total_preorder(before),
    ensures
        insertion_order(s, before).to_multiset() == s.to_multiset(),
        insertion_order(s, before).len() == s.len(),
        ordered(insertion_order(s, before), before),
    decreases s.len(),
{
    broadcast use vstd::seq_lib::group_to_multiset_ensures;

    if s.len() > 0 {
        let r = insertion_order(s.drop_last(), before);
        let x = s.last();
        let p = slot(r, x, before) as int;
        lemma_insertion_order(s.drop_last(), before);
        lemma_slot_bounds(r, x, before);
        vstd::seq_lib::to_multiset_insert(r, p, x);
        vstd::seq_lib::to_multiset_build(s.drop_last(), x);
        assert(s.drop_last().push(x) =~= s);
        let next = r.insert(p, x);
        assert forall|a: int, b: int| 0 <= a < b < next.len() implies before(
            #[trigger] next[a],
            #[trigger] next[b],
        ) by {
            if b < p {
                assert(next[a] == r[a] && next[b] == r[b]);
            } else if b == p {
                assert(next[a] == r[a]);
            } else if a < p {
                assert(next[a] == r[a] && next[b] == r[b - 1]);
            } else if a == p {
                assert(next[b] == r[b - 1]);
                assert(before(x, r[p]) || before(r[p], x));
                if b - 1 > p {
                    assert(before(r[p], r[b - 1]));
                }
            } else {
                assert(next[a] == r[a - 1] && next[b] == r[b - 1]);
            }
        }
    }
}

} // verus!

//! Stable sorting, specified once and shared by the entry orderings. The
//! sort is pinned down as a spec-level insertion sort: an element is placed
//! after everything that compares less-or-equal, so equal-keyed elements
//! keep their prior relative order.

use vstd::prelude::*;
use vstd::multiset::Multiset;
use vstd::seq_lib::group_to_multiset_ensures;
use vstd::seq_lib::lemma_multiset_commutative;
use vstd::seq_lib::to_multiset_insert;

verus! {

/// `le` relates every pair one way or the other.
pub open spec fn total_le<T>(le: spec_fn(T, T) -> bool) -> bool {
    forall|a: T, b: T| #[trigger] le(a, b) || #[trigger] le(b, a)
}

/// `le` is transitive.
pub open spec fn trans_le<T>(le: spec_fn(T, T) -> bool) -> bool {
    forall|a: T, b: T, c: T| #[trigger] le(a, b) && #[trigger] le(b, c) ==> le(a, c)
}

/// Every element is `le` every later one.
pub open spec fn ordered_by<T>(le: spec_fn(T, T) -> bool, s: Seq<T>) -> bool {
    forall|i: int, j: int| 0 <= i < j < s.len() ==> le(#[trigger] s[i], #[trigger] s[j])
}

/// Places `x` after every prefix element that is `le` it: the insertion
/// step of a stable insertion sort.
pub open spec fn stable_insert<T>(le: spec_fn(T, T) -> bool, x: T, s: Seq<T>) -> Seq<T>
    decreases s.len(),
{
    if s.len() == 0 {
        seq![x]
    } else if le(s[0], x) {
        seq![s[0]] + stable_insert(le, x, s.drop_first())
    } else {
        seq![x] + s
    }
}

/// The stable sort of `s` under `le`: elements are inserted left to right,
/// each after all its `le`-equals.
pub open spec fn stable_sort<T>(le: spec_fn(T, T) -> bool, s: Seq<T>) -> Seq<T>
    decreases s.len(),
{
    if s.len() == 0 {
        Seq::empty()
    } else {
        stable_insert(le, s.last(), stable_sort(le, s.drop_last()))
    }
}

/// Inserting into an ordered sequence keeps it ordered and adds exactly the
/// new element.
pub proof fn lemma_stable_insert_props<T>(le: spec_fn(T, T) -> bool, x: T, s: Seq<T>)
    requires
        total_le(le),
        trans_le(le),
        ordered_by(le, s),
    ensures
        stable_insert(le, x, s).len() == s.len() + 1,
        ordered_by(le, stable_insert(le, x, s)),
        stable_insert(le, x, s).to_multiset() == s.to_multiset().insert(x),
    decreases s.len(),
{
    broadcast use group_to_multiset_ensures;

    let r = stable_insert(le, x, s);
    if s.len() == 0 {
        assert(seq![x] =~= Seq::<T>::empty().push(x));
        assert(Seq::<T>::empty().to_multiset() =~= Multiset::<T>::empty());
        assert(r.to_multiset() =~= s.to_multiset().insert(x));
    } else if le(s[0], x) {
        let s1 = s.drop_first();
        assert(ordered_by(le, s1)) by {
            assert(forall|i: int, j: int|
                0 <= i < j < s1.len() ==> le(#[trigger] s1[i], #[trigger] s1[j])) by {
                assert(forall|i: int, j: int| 0 <= i < j < s1.len() ==> s1[i] == s[i + 1] && s1[j]
                    == s[j + 1]);
            }
        }
        lemma_stable_insert_props(le, x, s1);
        let rr = stable_insert(le, x, s1);
        assert(r == seq![s[0]] + rr);
        // the head is `le` everything that follows
        assert(forall|j: int| 0 <= j < rr.len() ==> le(s[0], #[trigger] rr[j])) by {
            assert(forall|j: int|
                0 <= j < rr.len() ==> rr.to_multiset().count(#[trigger] rr[j]) > 0);
            assert(forall|j: int|
                0 <= j < rr.len() ==> rr[j] == x || s1.to_multiset().count(#[trigger] rr[j]) > 0);
            assert(forall|j: int| 0 <= j < rr.len() ==> rr[j] == x || s1.contains(#[trigger] rr[j]));
            assert(forall|k: int| 0 <= k < s1.len() ==> le(s[0], #[trigger] s1[k])) by {
                assert(forall|k: int| 0 <= k < s1.len() ==> #[trigger] s1[k] == s[k + 1]);
            }
        }
        assert(ordered_by(le, r)) by {
            assert(forall|i: int, j: int|
                0 <= i < j < r.len() ==> le(#[trigger] r[i], #[trigger] r[j])) by {
                assert(forall|j: int| 1 <= j < r.len() ==> #[trigger] r[j] == rr[j - 1]);
                assert(r[0] == s[0]);
            }
        }
        // multiset bookkeeping
        lemma_multiset_commutative(seq![s[0]], rr);
        lemma_multiset_commutative(seq![s[0]], s1);
        assert(s =~= seq![s[0]] + s1);
        assert(seq![s[0]].to_multiset() =~= Multiset::<T>::empty().insert(s[0])) by {
            assert(seq![s[0]] =~= Seq::<T>::empty().push(s[0]));
            assert(Seq::<T>::empty().to_multiset() =~= Multiset::<T>::empty());
        }
        assert(r.to_multiset() =~= s.to_multiset().insert(x));
    } else {
        assert(r == seq![x] + s);
        assert(le(x, s[0]));
        assert(forall|k: int| 0 <= k < s.len() ==> le(x, #[trigger] s[k]));
        assert(ordered_by(le, r)) by {
            assert(forall|j: int| 1 <= j < r.len() ==> #[trigger] r[j] == s[j - 1]);
            assert(r[0] == x);
        }
        lemma_multiset_commutative(seq![x], s);
        assert(seq![x].to_multiset() =~= Multiset::<T>::empty().insert(x)) by {
            assert(seq![x] =~= Seq::<T>::empty().push(x));
            assert(Seq::<T>::empty().to_multiset() =~= Multiset::<T>::empty());
        }
        assert(r.to_multiset() =~= s.to_multiset().insert(x));
    }
}

/// The stable sort is ordered and is a permutation of its input.
pub proof fn lemma_stable_sort_props<T>(le: spec_fn(T, T) -> bool, s: Seq<T>)
    requires
        total_le(le),
        trans_le(le),
    ensures
        stable_sort(le, s).len() == s.len(),
        ordered_by(le, stable_sort(le, s)),
        stable_sort(le, s).to_multiset() == s.to_multiset(),
    decreases s.len(),
{
    broadcast use group_to_multiset_ensures;

    if s.len() > 0 {
        let s0 = s.drop_last();
        lemma_stable_sort_props(le, s0);
        lemma_stable_insert_props(le, s.last(), stable_sort(le, s0));
        assert(s =~= s0.push(s.last()));
    }
}

/// Where the insertion step puts the new element: right before the first
/// prefix element that is not `le` it.
pub proof fn lemma_stable_insert_position<T>(le: spec_fn(T, T) -> bool, x: T, s: Seq<T>, p: int)
    requires
        0 <= p <= s.len(),
        forall|k: int| 0 <= k < p ==> le(#[trigger] s[k], x),
        p == s.len() || !le(s[p], x),
    ensures
        stable_insert(le, x, s) == s.insert(p, x),
    decreases p,
{
    if p == 0 {
        if s.len() == 0 {
            assert(stable_insert(le, x, s) =~= s.insert(0, x));
        } else {
            assert(stable_insert(le, x, s) =~= s.insert(0, x));
        }
    } else {
        let s1 = s.drop_first();
        assert(le(s[0], x));
        lemma_stable_insert_position(le, x, s1, p - 1);
        assert(seq![s[0]] + s1.insert(p - 1, x) =~= s.insert(p, x));
    }
}

} // verus!

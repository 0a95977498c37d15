//! Stable sorting, as contracts speak of it.
//!
//! [`sorted_by`] says what sorting a sequence by an order gives: the items
//! are put in one by one, each behind the last item that does not come after
//! it. Items that the order takes for equal thus keep the order in which
//! they came.

use vstd::prelude::*;

verus! {

/// Where `x` goes into `sorted`: behind the last item that comes before `x`
/// or is equal to it.
pub open spec fn insert_place<T>(sorted: Seq<T>, x: T, le: spec_fn(T, T) -> bool) -> int
    decreases sorted.len(),
{
    if sorted.len() == 0 {
        0
    } else if le(sorted.last(), x) {
        sorted.len() as int
    } else {
        insert_place(sorted.drop_last(), x, le)
    }
}

/// `s`, sorted by `le`, with equal items in the order in which `s` has them.
pub open spec fn sorted_by<T>(s: Seq<T>, le: spec_fn(T, T) -> bool) -> Seq<T>
    decreases s.len(),
{
    if s.len() == 0 {
        Seq::empty()
    } else {
        let rest = sorted_by(s.drop_last(), le);
        rest.insert(insert_place(rest, s.last(), le), s.last())
    }
}

/// Whether any two items compare one way or the other.
pub open spec fn total<T>(le: spec_fn(T, T) -> bool) -> bool {
    forall|a: T, b: T| #[trigger] le(a, b) || le(b, a)
}

/// Whether the order is transitive.
pub open spec fn transitive<T>(le: spec_fn(T, T) -> bool) -> bool {
    forall|a: T, b: T, c: T| #[trigger] le(a, b) && #[trigger] le(b, c) ==> le(a, c)
}

/// Whether no item of `s` stands before one that comes before it.
pub open spec fn ordered<T>(s: Seq<T>, le: spec_fn(T, T) -> bool) -> bool {
    forall|i: int, j: int| 0 <= i < j < s.len() ==> le(#[trigger] s[i], #[trigger] s[j])
}

/// The place of an item lies inside the sequence, behind an item that does
/// not come after it and before all that do.
pub proof fn lemma_insert_place<T>(sorted: Seq<T>, x: T, le: spec_fn(T, T) -> bool)
    ensures
        0 <= insert_place(sorted, x, le) <= sorted.len(),
        insert_place(sorted, x, le) > 0 ==> le(sorted[insert_place(sorted, x, le) - 1], x),
        forall|m: int|
            insert_place(sorted, x, le) <= m < sorted.len() ==> !le(#[trigger] sorted[m], x),
    decreases sorted.len(),
{
    if sorted.len() > 0 && !le(sorted.last(), x) {
        lemma_insert_place(sorted.drop_last(), x, le);
        let p = insert_place(sorted, x, le);
        assert forall|m: int| p <= m < sorted.len() implies !le(#[trigger] sorted[m], x) by {
            if m < sorted.len() - 1 {
                assert(sorted.drop_last()[m] == sorted[m]);
            }
        }
    }
}

/// Sorting keeps the length.
pub proof fn lemma_sorted_len<T>(s: Seq<T>, le: spec_fn(T, T) -> bool)
    ensures
        sorted_by(s, le).len() == s.len(),
    decreases s.len(),
{
    if s.len() > 0 {
        lemma_sorted_len(s.drop_last(), le);
        lemma_insert_place(sorted_by(s.drop_last(), le), s.last(), le);
    }
}

/// Sorting rearranges: the result holds the items of `s`, each as often as
/// `s` does.
pub proof fn lemma_sorted_rearranges<T>(s: Seq<T>, le: spec_fn(T, T) -> bool)
    ensures
        sorted_by(s, le).to_multiset() == s.to_multiset(),
    decreases s.len(),
{
    broadcast use vstd::seq_lib::to_multiset_build, vstd::seq_lib::to_multiset_insert;

    if s.len() > 0 {
        let rest = sorted_by(s.drop_last(), le);
        lemma_sorted_rearranges(s.drop_last(), le);
        lemma_insert_place(rest, s.last(), le);
        assert(s =~= s.drop_last().push(s.last()));
        assert(s.to_multiset() == s.drop_last().to_multiset().insert(s.last()));
    } else {
        assert(sorted_by(s, le) =~= s);
    }
}

/// Under an order that is total and transitive, the result of sorting is in
/// order.
pub proof fn lemma_sorted_ordered<T>(s: Seq<T>, le: spec_fn(T, T) -> bool)
    requires
        total(le),
        transitive(le),
    ensures
        ordered(sorted_by(s, le), le),
    decreases s.len(),
{
    if s.len() > 0 {
        let rest = sorted_by(s.drop_last(), le);
        let x = s.last();
        let p = insert_place(rest, x, le);
        lemma_sorted_ordered(s.drop_last(), le);
        lemma_insert_place(rest, x, le);
        let out = rest.insert(p, x);
        assert forall|i: int, j: int| 0 <= i < j < out.len() implies le(
            #[trigger] out[i],
            #[trigger] out[j],
        ) by {
            if j < p {
                assert(out[i] == rest[i] && out[j] == rest[j]);
            } else if j == p {
                assert(out[i] == rest[i]);
                assert(le(rest[p - 1], x));
                if i < p - 1 {
                    assert(le(rest[i], rest[p - 1]));
                }
            } else if i < p {
                assert(out[i] == rest[i] && out[j] == rest[j - 1]);
                if i < j - 1 {
                    assert(le(rest[i], rest[j - 1]));
                } else {
                    assert(le(rest[i], x));
                    assert(!le(rest[j - 1], x));
                    assert(le(x, rest[j - 1]) || le(rest[j - 1], x));
                }
            } else if i == p {
                assert(out[j] == rest[j - 1]);
                assert(!le(rest[j - 1], x));
                assert(le(x, rest[j - 1]) || le(rest[j - 1], x));
            } else {
                assert(out[i] == rest[i - 1] && out[j] == rest[j - 1]);
            }
        }
    }
}

} // verus!

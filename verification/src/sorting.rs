//! What a stable sort promises, and the step that keeps the promise when an
//! item is inserted into a sorted list.

use vstd::prelude::*;

verus! {

/// `le` is a total preorder: reflexive, transitive and total.
pub open spec fn total_preorder<A>(le: spec_fn(A, A) -> bool) -> bool {
    &&& forall|a: A| #[trigger] le(a, a)
    &&& forall|a: A, b: A, c: A| #[trigger] le(a, b) && #[trigger] le(b, c) ==> le(a, c)
    &&& forall|a: A, b: A| #[trigger] le(a, b) || le(b, a)
}

/// Every item is `le` every later item.
pub open spec fn sorted_by<A>(s: Seq<A>, le: spec_fn(A, A) -> bool) -> bool {
    forall|i: int, j: int| 0 <= i < j < s.len() ==> le(#[trigger] s[i], #[trigger] s[j])
}

/// The items that rank equal to `y`.
pub open spec fn same_rank<A>(le: spec_fn(A, A) -> bool, y: A) -> spec_fn(A) -> bool {
    |e: A| le(e, y) && le(y, e)
}

/// `out` is `input` stably sorted by `le`: sorted, and for every rank the
/// items of that rank appear in the order they had in `input`. (Together
/// these fix `out` entirely.)
pub open spec fn stable_sort_of<A>(out: Seq<A>, input: Seq<A>, le: spec_fn(A, A) -> bool) -> bool {
    &&& sorted_by(out, le)
    &&& forall|y: A| #[trigger] out.filter(same_rank(le, y)) == input.filter(same_rank(le, y))
}

proof fn lemma_filter_none<A>(s: Seq<A>, p: spec_fn(A) -> bool)
    requires
        forall|i: int| 0 <= i < s.len() ==> !p(#[trigger] s[i]),
    ensures
        s.filter(p) == Seq::<A>::empty(),
    decreases s.len(),
{
    reveal_with_fuel(Seq::filter, 1);
    if s.len() > 0 {
        lemma_filter_none(s.drop_last(), p);
        assert(!p(s[s.len() - 1]));
    }
    assert(s.filter(p) =~= Seq::<A>::empty());
}

/// Inserting `x` after every item that is `le` it, into a sorted list,
/// keeps the list sorted and appends `x` to the items of its rank.
pub proof fn lemma_insert_sorted<A>(s: Seq<A>, x: A, k: int, le: spec_fn(A, A) -> bool)
    requires
        total_preorder(le),
        sorted_by(s, le),
        0 <= k <= s.len(),
        forall|i: int| 0 <= i < k ==> le(#[trigger] s[i], x),
        forall|i: int| k <= i < s.len() ==> !le(#[trigger] s[i], x),
    ensures
        sorted_by(s.take(k).push(x) + s.skip(k), le),
        forall|y: A| #[trigger] (s.take(k).push(x) + s.skip(k)).filter(same_rank(le, y)) == s.push(x).filter(
            same_rank(le, y),
        ),
{
    let r = s.take(k).push(x) + s.skip(k);
    assert forall|i: int, j: int| 0 <= i < j < r.len() implies le(#[trigger] r[i], #[trigger] r[j]) by {
        if j < k {
            assert(r[i] == s[i] && r[j] == s[j]);
        } else if j == k {
            assert(r[i] == s[i]);
        } else if i < k {
            assert(r[i] == s[i] && r[j] == s[j - 1]);
        } else if i == k {
            assert(r[j] == s[j - 1]);
            assert(!le(s[j - 1], x));
        } else {
            assert(r[i] == s[i - 1] && r[j] == s[j - 1]);
        }
    }
    assert forall|y: A| #[trigger] r.filter(same_rank(le, y)) == s.push(x).filter(same_rank(le, y)) by {
        let p = same_rank(le, y);
        assert(s =~= s.take(k) + s.skip(k));
        Seq::filter_distributes_over_add(s.take(k).push(x), s.skip(k), p);
        Seq::filter_distributes_over_add(s.take(k), s.skip(k), p);
        s.take(k).lemma_filter_push(x, p);
        s.lemma_filter_push(x, p);
        if p(x) {
            assert forall|i: int| 0 <= i < s.skip(k).len() implies !p(#[trigger] s.skip(k)[i]) by {
                assert(s.skip(k)[i] == s[k + i]);
                if p(s[k + i]) {
                    assert(le(s[k + i], y) && le(y, x));
                }
            }
            lemma_filter_none(s.skip(k), p);
            assert(r.filter(p) =~= s.push(x).filter(p));
        } else {
            assert(r.filter(p) =~= s.push(x).filter(p));
        }
    }
}

/// Stable sorting of a list extended by one item.
pub proof fn lemma_stable_sort_step<A>(out: Seq<A>, input: Seq<A>, x: A, k: int, le: spec_fn(A, A) -> bool)
    requires
        total_preorder(le),
        stable_sort_of(out, input, le),
        0 <= k <= out.len(),
        forall|i: int| 0 <= i < k ==> le(#[trigger] out[i], x),
        forall|i: int| k <= i < out.len() ==> !le(#[trigger] out[i], x),
    ensures
        stable_sort_of(out.take(k).push(x) + out.skip(k), input.push(x), le),
{
    lemma_insert_sorted(out, x, k, le);
    assert forall|y: A| #[trigger] (out.take(k).push(x) + out.skip(k)).filter(same_rank(le, y))
        == input.push(x).filter(same_rank(le, y)) by {
        out.lemma_filter_push(x, same_rank(le, y));
        input.lemma_filter_push(x, same_rank(le, y));
        assert((out.take(k).push(x) + out.skip(k)).filter(same_rank(le, y)) == out.push(x).filter(same_rank(le, y)));
    }
}

proof fn lemma_filter_keeps_count<A>(s: Seq<A>, p: spec_fn(A) -> bool, x: A)
    requires
        p(x),
    ensures
        s.filter(p).to_multiset().count(x) == s.to_multiset().count(x),
    decreases s.len(),
{
    broadcast use vstd::seq_lib::group_to_multiset_ensures;
    broadcast use vstd::multiset::group_multiset_axioms;

    reveal_with_fuel(Seq::filter, 1);
    if s.len() == 0 {
        assert(s.filter(p) =~= Seq::<A>::empty());
    } else {
        let init = s.drop_last();
        lemma_filter_keeps_count(init, p, x);
        assert(s =~= init.push(s.last()));
        if p(s.last()) {
            assert(s.filter(p) == init.filter(p).push(s.last()));
        } else {
            assert(s.filter(p) == init.filter(p));
        }
    }
}

/// A stable sort loses and adds nothing: its output holds the same items as
/// its input, as often.
pub proof fn law_stable_sort_is_permutation<A>(out: Seq<A>, input: Seq<A>, le: spec_fn(A, A) -> bool)
    requires
        total_preorder(le),
        stable_sort_of(out, input, le),
    ensures
        out.to_multiset() == input.to_multiset(),
        out.len() == input.len(),
{
    broadcast use vstd::seq_lib::group_to_multiset_ensures;

    assert forall|x: A| out.to_multiset().count(x) == input.to_multiset().count(x) by {
        assert(le(x, x));
        assert(same_rank(le, x)(x));
        lemma_filter_keeps_count(out, same_rank(le, x), x);
        lemma_filter_keeps_count(input, same_rank(le, x), x);
        assert(out.filter(same_rank(le, x)) == input.filter(same_rank(le, x)));
    }
    assert(out.to_multiset() =~= input.to_multiset());
    assert(out.to_multiset().len() == out.len());
    assert(input.to_multiset().len() == input.len());
}

} // verus!

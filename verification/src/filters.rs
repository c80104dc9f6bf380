//! Facts about filtered sequences that the proofs of this crate share.

use vstd::prelude::*;

verus! {

/// Filtering a one-element sequence keeps the element or nothing.
pub proof fn lemma_filter_one<A>(x: A, pred: spec_fn(A) -> bool)
    ensures
        seq![x].filter(pred) == if pred(x) {
            seq![x]
        } else {
            Seq::<A>::empty()
        },
{
    reveal_with_fuel(Seq::filter, 2);
}

/// A sequence none of whose elements passes the filter is filtered to nothing.
pub proof fn lemma_filter_none<A>(s: Seq<A>, pred: spec_fn(A) -> bool)
    requires
        forall|k: int| 0 <= k < s.len() ==> !pred(s[k]),
    ensures
        s.filter(pred) == Seq::<A>::empty(),
{
    s.lemma_all_neg_filter_empty(pred);
}

/// A sequence all of whose elements pass the filter is kept whole.
pub proof fn lemma_filter_all<A>(s: Seq<A>, pred: spec_fn(A) -> bool)
    requires
        forall|k: int| 0 <= k < s.len() ==> pred(s[k]),
    ensures
        s.filter(pred) == s,
    decreases s.len(),
{
    reveal(Seq::filter);
    if s.len() > 0 {
        lemma_filter_all(s.drop_last(), pred);
    }
}

/// Two filters that agree on every element of a sequence keep the same
/// elements of it.
pub proof fn lemma_filter_same<A>(s: Seq<A>, p: spec_fn(A) -> bool, q: spec_fn(A) -> bool)
    requires
        forall|k: int| 0 <= k < s.len() ==> p(s[k]) == q(s[k]),
    ensures
        s.filter(p) == s.filter(q),
    decreases s.len(),
{
    reveal(Seq::filter);
    if s.len() > 0 {
        lemma_filter_same(s.drop_last(), p, q);
    }
}

/// Filtering what a first filter kept is filtering once by both.
pub proof fn lemma_filter_twice<A>(
    s: Seq<A>,
    p: spec_fn(A) -> bool,
    q: spec_fn(A) -> bool,
    both: spec_fn(A) -> bool,
)
    requires
        forall|k: int| 0 <= k < s.len() ==> both(s[k]) == (p(s[k]) && q(s[k])),
    ensures
        s.filter(p).filter(q) == s.filter(both),
    decreases s.len(),
{
    reveal(Seq::filter);
    if s.len() > 0 {
        lemma_filter_twice(s.drop_last(), p, q, both);
        if p(s.last()) {
            s.drop_last().filter(p).lemma_filter_push(s.last(), q);
        }
    }
}

/// Where exactly one element passes the filter, it alone is kept.
pub proof fn lemma_filter_only<A>(s: Seq<A>, i: int, pred: spec_fn(A) -> bool)
    requires
        0 <= i < s.len(),
        pred(s[i]),
        forall|k: int| 0 <= k < s.len() && k != i ==> !pred(s[k]),
    ensures
        s.filter(pred) == seq![s[i]],
{
    let a = s.subrange(0, i);
    let c = s.subrange(i + 1, s.len() as int);
    assert(s =~= a + seq![s[i]] + c);
    Seq::filter_distributes_over_add(a + seq![s[i]], c, pred);
    Seq::filter_distributes_over_add(a, seq![s[i]], pred);
    lemma_filter_none(a, pred);
    lemma_filter_none(c, pred);
    lemma_filter_one(s[i], pred);
}

/// Where two elements pass the filter, at least two are kept.
pub proof fn lemma_filter_two<A>(s: Seq<A>, i: int, j: int, pred: spec_fn(A) -> bool)
    requires
        0 <= i < j < s.len(),
        pred(s[i]),
        pred(s[j]),
    ensures
        s.filter(pred).len() >= 2,
{
    let a = s.take(i);
    let b = s.subrange(i + 1, j);
    let c = s.skip(j + 1);
    assert(s =~= a + seq![s[i]] + b + seq![s[j]] + c);
    Seq::filter_distributes_over_add(a + seq![s[i]] + b + seq![s[j]], c, pred);
    Seq::filter_distributes_over_add(a + seq![s[i]] + b, seq![s[j]], pred);
    Seq::filter_distributes_over_add(a + seq![s[i]], b, pred);
    Seq::filter_distributes_over_add(a, seq![s[i]], pred);
    lemma_filter_one(s[i], pred);
    lemma_filter_one(s[j], pred);
}

/// An element is in the multiset of a sequence as often as the sequence
/// holds it.
pub proof fn lemma_count_by_filter<A>(s: Seq<A>, x: A, only: spec_fn(A) -> bool)
    requires
        forall|k: int| 0 <= k < s.len() ==> only(s[k]) == (s[k] == x),
    ensures
        s.to_multiset().count(x) == s.filter(only).len(),
    decreases s.len(),
{
    broadcast use vstd::seq_lib::group_to_multiset_ensures;
    broadcast use vstd::multiset::group_multiset_axioms;

    reveal(Seq::filter);
    if s.len() > 0 {
        let front = s.drop_last();
        lemma_count_by_filter(front, x, only);
        assert(s =~= front.push(s.last()));
    } else {
        assert(s.to_multiset() =~= vstd::multiset::Multiset::<A>::empty());
    }
}

/// Where every element passes exactly one of two filters or neither, what
/// passes either is as much as what passes the one and what passes the other.
pub proof fn lemma_filter_len_split<A>(
    s: Seq<A>,
    either: spec_fn(A) -> bool,
    p: spec_fn(A) -> bool,
    q: spec_fn(A) -> bool,
)
    requires
        forall|k: int| 0 <= k < s.len() ==> either(s[k]) == (p(s[k]) || q(s[k])),
        forall|k: int| 0 <= k < s.len() ==> !(p(s[k]) && q(s[k])),
    ensures
        s.filter(either).len() == s.filter(p).len() + s.filter(q).len(),
    decreases s.len(),
{
    reveal(Seq::filter);
    if s.len() > 0 {
        lemma_filter_len_split(s.drop_last(), either, p, q);
    }
}

/// Filtering a sequence and forgetting the order is filtering the multiset of
/// its elements.
pub proof fn lemma_filter_multiset<A>(s: Seq<A>, pred: spec_fn(A) -> bool)
    ensures
        s.filter(pred).to_multiset() == s.to_multiset().filter(pred),
    decreases s.len(),
{
    broadcast use vstd::seq_lib::group_to_multiset_ensures;
    broadcast use vstd::multiset::group_multiset_axioms;

    reveal(Seq::filter);
    if s.len() > 0 {
        let front = s.drop_last();
        lemma_filter_multiset(front, pred);
        assert(s =~= front.push(s.last()));
        assert(s.to_multiset().filter(pred) =~= if pred(s.last()) {
            front.to_multiset().filter(pred).insert(s.last())
        } else {
            front.to_multiset().filter(pred)
        });
    }
}

} // verus!

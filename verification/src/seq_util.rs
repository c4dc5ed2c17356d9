//! Facts about sequences that several components use.

use vstd::prelude::*;

verus! {

/// Filtering one element more either appends that element or changes
/// nothing.
pub proof fn lemma_filter_take_step<A>(s: Seq<A>, pred: spec_fn(A) -> bool, n: int)
    requires
        0 <= n < s.len(),
    ensures
        s.take(n + 1).filter(pred) == (if pred(s[n]) {
            s.take(n).filter(pred).push(s[n])
        } else {
            s.take(n).filter(pred)
        }),
        s.take(0).filter(pred) == Seq::<A>::empty(),
{
    reveal(Seq::filter);
    assert(s.take(n + 1).drop_last() =~= s.take(n));
    assert(s.take(0).filter(pred) =~= Seq::<A>::empty());
}

/// Filtering the empty prefix gives nothing; the whole sequence is its own
/// longest prefix.
pub proof fn lemma_filter_take_ends<A>(s: Seq<A>, pred: spec_fn(A) -> bool)
    ensures
        s.take(0).filter(pred) == Seq::<A>::empty(),
        s.take(s.len() as int) == s,
{
    reveal(Seq::filter);
    assert(s.take(0).filter(pred) =~= Seq::<A>::empty());
    assert(s.take(s.len() as int) =~= s);
}

/// What a filter keeps is what was there and passes the test.
pub proof fn lemma_filter_contains_iff<A>(s: Seq<A>, pred: spec_fn(A) -> bool, x: A)
    ensures
        s.filter(pred).contains(x) <==> s.contains(x) && pred(x),
{
    let kept = s.filter(pred);
    if kept.contains(x) {
        let i = choose|i: int| 0 <= i < kept.len() && kept[i] == x;
        s.lemma_filter_pred(pred, i);
        s.lemma_filter_contains_rev(pred, x);
    }
    if s.contains(x) && pred(x) {
        let i = choose|i: int| 0 <= i < s.len() && s[i] == x;
        s.lemma_filter_contains(pred, i);
    }
}

/// The sum of a sequence of naturals.
pub open spec fn sum(s: Seq<nat>) -> nat
    decreases s.len(),
{
    if s.len() == 0 {
        0
    } else {
        sum(s.drop_last()) + s.last()
    }
}

/// One element more adds itself.
pub proof fn lemma_sum_push(s: Seq<nat>, x: nat)
    ensures
        sum(s.push(x)) == sum(s) + x,
{
    assert(s.push(x).drop_last() =~= s);
}

/// The sum of two sequences in a row is the sum of their sums.
pub proof fn lemma_sum_concat(a: Seq<nat>, b: Seq<nat>)
    ensures
        sum(a + b) == sum(a) + sum(b),
    decreases b.len(),
{
    if b.len() == 0 {
        assert(a + b =~= a);
    } else {
        assert((a + b).drop_last() =~= a + b.drop_last());
        lemma_sum_concat(a, b.drop_last());
    }
}

/// The sum of one element is the element.
pub proof fn lemma_sum_single(x: nat)
    ensures
        sum(seq![x]) == x,
{
    lemma_sum_push(Seq::<nat>::empty(), x);
    assert(Seq::<nat>::empty().push(x) =~= seq![x]);
}

/// The sum splits at any position into the part before, the element there
/// and the part after.
pub proof fn lemma_sum_split(s: Seq<nat>, k: int)
    requires
        0 <= k < s.len(),
    ensures
        sum(s) == sum(s.take(k)) + s[k] + sum(s.skip(k + 1)),
{
    assert(s =~= s.take(k) + seq![s[k]] + s.skip(k + 1));
    lemma_sum_concat(s.take(k) + seq![s[k]], s.skip(k + 1));
    lemma_sum_concat(s.take(k), seq![s[k]]);
    lemma_sum_single(s[k]);
}

/// One element less takes itself away.
pub proof fn lemma_sum_remove(s: Seq<nat>, k: int)
    requires
        0 <= k < s.len(),
    ensures
        sum(s.remove(k)) + s[k] == sum(s),
{
    lemma_sum_split(s, k);
    assert(s.remove(k) =~= s.take(k) + s.skip(k + 1));
    lemma_sum_concat(s.take(k), s.skip(k + 1));
}

/// An element that changes changes the sum by the difference.
pub proof fn lemma_sum_update(s: Seq<nat>, k: int, x: nat)
    requires
        0 <= k < s.len(),
    ensures
        sum(s.update(k, x)) + s[k] == sum(s) + x,
{
    lemma_sum_split(s, k);
    let t = s.update(k, x);
    lemma_sum_split(t, k);
    assert(t.take(k) =~= s.take(k));
    assert(t.skip(k + 1) =~= s.skip(k + 1));
}

/// One element more, anywhere, adds itself.
pub proof fn lemma_sum_insert(s: Seq<nat>, k: int, x: nat)
    requires
        0 <= k <= s.len(),
    ensures
        sum(s.insert(k, x)) == sum(s) + x,
{
    let t = s.insert(k, x);
    lemma_sum_split(t, k);
    assert(t.take(k) =~= s.take(k));
    assert(t.skip(k + 1) =~= s.skip(k));
    assert(s =~= s.take(k) + s.skip(k));
    lemma_sum_concat(s.take(k), s.skip(k));
}

/// No element is above the sum.
pub proof fn lemma_sum_bounds(s: Seq<nat>, k: int)
    requires
        0 <= k < s.len(),
    ensures
        s[k] <= sum(s),
{
    lemma_sum_split(s, k);
}

} // verus!

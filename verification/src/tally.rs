//! Counting over sequences: the sum of a weight over the items.

use vstd::prelude::*;

verus! {

/// The sum of `weight` over the items of `items`.
pub open spec fn tally<T>(items: Seq<T>, weight: spec_fn(T) -> nat) -> nat
    decreases items.len(),
{
    if items.len() == 0 {
        0
    } else {
        tally(items.drop_last(), weight) + weight(items.last())
    }
}

/// Taking one more item adds its weight.
pub proof fn lemma_tally_step<T>(items: Seq<T>, weight: spec_fn(T) -> nat, i: int)
    requires
        0 <= i < items.len(),
    ensures
        tally(items.take(i + 1), weight) == tally(items.take(i), weight) + weight(items[i]),
{
    assert(items.take(i + 1).drop_last() =~= items.take(i));
}

/// Nothing taken weighs nothing; everything taken weighs as the whole.
pub proof fn lemma_tally_ends<T>(items: Seq<T>, weight: spec_fn(T) -> nat)
    ensures
        tally(items.take(0), weight) == 0,
        tally(items.take(items.len() as int), weight) == tally(items, weight),
{
    assert(items.take(items.len() as int) =~= items);
}

/// The weight taken grows with the number of items taken.
pub proof fn lemma_tally_monotone<T>(items: Seq<T>, weight: spec_fn(T) -> nat, i: int, j: int)
    requires
        0 <= i <= j <= items.len(),
    ensures
        tally(items.take(i), weight) <= tally(items.take(j), weight),
    decreases j - i,
{
    if i < j {
        lemma_tally_monotone(items, weight, i, j - 1);
        lemma_tally_step(items, weight, j - 1);
    }
}

/// Replacing one item changes the sum by the difference of the weights.
pub proof fn lemma_tally_update<T>(items: Seq<T>, weight: spec_fn(T) -> nat, i: int, item: T)
    requires
        0 <= i < items.len(),
    ensures
        tally(items.update(i, item), weight) + weight(items[i]) == tally(items, weight) + weight(
            item,
        ),
    decreases items.len(),
{
    let changed = items.update(i, item);
    if i == items.len() - 1 {
        assert(changed.drop_last() =~= items.drop_last());
    } else {
        lemma_tally_update(items.drop_last(), weight, i, item);
        assert(changed.drop_last() =~= items.drop_last().update(i, item));
    }
}

/// Where no item weighs more under `small` than under `large`, the sum
/// under `small` is no more either.
pub proof fn lemma_tally_pointwise<T>(
    left: Seq<T>,
    right: Seq<T>,
    small: spec_fn(T) -> nat,
    large: spec_fn(T) -> nat,
)
    requires
        left.len() == right.len(),
        forall|i: int| 0 <= i < left.len() ==> small(#[trigger] left[i]) <= large(right[i]),
    ensures
        tally(left, small) <= tally(right, large),
    decreases left.len(),
{
    if left.len() > 0 {
        lemma_tally_pointwise(left.drop_last(), right.drop_last(), small, large);
    }
}

/// Where every item weighs at most `cap`, the sum is at most `cap` per item.
pub proof fn lemma_tally_bound<T>(items: Seq<T>, weight: spec_fn(T) -> nat, cap: nat)
    requires
        forall|i: int| 0 <= i < items.len() ==> weight(#[trigger] items[i]) <= cap,
    ensures
        tally(items, weight) <= cap * items.len(),
    decreases items.len(),
{
    if items.len() > 0 {
        lemma_tally_bound(items.drop_last(), weight, cap);
        assert(cap * items.len() == cap * (items.len() - 1) + cap) by (nonlinear_arith);
    }
}

/// A sum is zero exactly when every item weighs nothing.
pub proof fn lemma_tally_zero<T>(items: Seq<T>, weight: spec_fn(T) -> nat)
    ensures
        tally(items, weight) == 0 <==> (forall|i: int|
            0 <= i < items.len() ==> weight(#[trigger] items[i]) == 0),
    decreases items.len(),
{
    if items.len() > 0 {
        lemma_tally_zero(items.drop_last(), weight);
        if tally(items, weight) == 0 {
            assert forall|i: int| 0 <= i < items.len() implies weight(#[trigger] items[i]) == 0 by {
                if i < items.len() - 1 {
                    assert(items.drop_last()[i] == items[i]);
                }
            }
        }
    }
}

} // verus!

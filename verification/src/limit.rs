//! Passes that stop at a limit: the first items of a sequence that pass a
//! test, up to a number of them.

use vstd::prelude::*;

verus! {

/// The items of `items` that pass `test`, in order, cut off after `limit` of
/// them.
pub open spec fn first_passing<A>(items: Seq<A>, test: spec_fn(A) -> bool, limit: int) -> Seq<A> {
    let passing = items.filter(test);
    if passing.len() <= limit {
        passing
    } else {
        passing.take(limit)
    }
}

/// Going one item further adds that item if it passes the test.
pub proof fn lemma_passing_step<A>(items: Seq<A>, test: spec_fn(A) -> bool, k: int)
    requires
        0 <= k < items.len(),
    ensures
        items.take(k + 1).filter(test) == if test(items[k]) {
            items.take(k).filter(test).push(items[k])
        } else {
            items.take(k).filter(test)
        },
{
    reveal(Seq::filter);
    assert(items.take(k + 1).drop_last() =~= items.take(k));
}

/// No item passes before the first.
pub proof fn lemma_passing_start<A>(items: Seq<A>, test: spec_fn(A) -> bool)
    ensures
        items.take(0).filter(test) == Seq::<A>::empty(),
{
    reveal(Seq::filter);
    assert(items.take(0) =~= Seq::<A>::empty());
}

/// A pass that has reached the limit, or the end of the items, has found what
/// `first_passing` names.
pub proof fn lemma_passing_cut<A>(items: Seq<A>, test: spec_fn(A) -> bool, k: int, limit: int)
    requires
        0 <= k <= items.len(),
        items.take(k).filter(test).len() == limit || k == items.len(),
        items.take(k).filter(test).len() <= limit,
    ensures
        first_passing(items, test, limit) == items.take(k).filter(test),
{
    assert(items =~= items.take(k) + items.skip(k));
    Seq::filter_distributes_over_add(items.take(k), items.skip(k), test);
    let found = items.take(k).filter(test);
    let rest = items.skip(k).filter(test);
    assert(items.filter(test) == found + rest);
    if k == items.len() {
        assert(items.skip(k) =~= Seq::<A>::empty());
        items.skip(k).lemma_filter_len(test);
        assert(found + rest =~= found);
    } else {
        assert((found + rest).take(found.len() as int) =~= found);
        if rest.len() == 0 {
            assert(found + rest =~= found);
        }
    }
}

/// Where the limit is not exceeded, `first_passing` names every item that
/// passes the test.
pub proof fn lemma_first_passing_complete<A>(
    items: Seq<A>,
    test: spec_fn(A) -> bool,
    limit: int,
    k: int,
)
    requires
        items.filter(test).len() <= limit,
        0 <= k < items.len(),
        test(items[k]),
    ensures
        first_passing(items, test, limit).contains(items[k]),
{
    items.lemma_filter_contains(test, k);
}

/// Two tests that agree on every item pick the same items.
pub proof fn lemma_filter_agrees<A>(
    items: Seq<A>,
    test: spec_fn(A) -> bool,
    other: spec_fn(A) -> bool,
)
    requires
        forall|i: int| 0 <= i < items.len() ==> test(#[trigger] items[i]) == other(items[i]),
    ensures
        items.filter(test) == items.filter(other),
    decreases items.len(),
{
    reveal(Seq::filter);
    if items.len() > 0 {
        lemma_filter_agrees(items.drop_last(), test, other);
    }
}

/// Picking items from a sequence without duplicates leaves no duplicates.
pub proof fn lemma_filter_keeps_distinct<A>(items: Seq<A>, test: spec_fn(A) -> bool)
    requires
        items.no_duplicates(),
    ensures
        items.filter(test).no_duplicates(),
    decreases items.len(),
{
    reveal(Seq::filter);
    if items.len() > 0 {
        let rest = items.drop_last();
        lemma_filter_keeps_distinct(rest, test);
        if rest.filter(test).contains(items.last()) {
            rest.lemma_filter_contains_rev(test, items.last());
        }
    }
}

} // verus!

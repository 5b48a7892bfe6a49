//! Sorting by insertion, as contracts state it: each item goes behind the
//! last one that it does not come before, so that items of the same rank
//! keep their order.
use vstd::prelude::*;

verus! {

/// `sorted` with `item` put behind the last item that it does not come
/// before.
pub open spec fn insert_by<T>(sorted: Seq<T>, item: T, before: spec_fn(T, T) -> bool) -> Seq<T>
    decreases sorted.len(),
{
    if sorted.len() > 0 && before(item, sorted.last()) {
        insert_by(sorted.drop_last(), item, before).push(sorted.last())
    } else {
        sorted.push(item)
    }
}

/// `items` in the order of `before`; items of which neither comes before
/// the other keep their order.
pub open spec fn stable_sort<T>(items: Seq<T>, before: spec_fn(T, T) -> bool) -> Seq<T>
    decreases items.len(),
{
    if items.len() == 0 {
        Seq::empty()
    } else {
        insert_by(stable_sort(items.drop_last(), before), items.last(), before)
    }
}

/// No item of `items` comes before one that stands earlier.
pub open spec fn in_order<T>(items: Seq<T>, before: spec_fn(T, T) -> bool) -> bool {
    forall|i: int, j: int| 0 <= i < j < items.len() ==> !before(#[trigger] items[j], #[trigger] items[i])
}

/// `before` ranks items: of two items at most one comes before the other,
/// and an item that comes before neither of two others leaves these two in
/// no order of their own making.
pub open spec fn ranks<T>(before: spec_fn(T, T) -> bool) -> bool {
    &&& forall|a: T, b: T| #[trigger] before(a, b) ==> !before(b, a)
    &&& forall|a: T, b: T, c: T|
        !(#[trigger] before(a, b)) && !(#[trigger] before(b, c)) ==> !before(a, c)
}

/// Where an item goes: behind `at` items, the last of which it does not
/// come before, and before items all of which it comes before.
pub proof fn lemma_insert_by_at<T>(sorted: Seq<T>, item: T, before: spec_fn(T, T) -> bool, at: int)
    requires
        0 <= at <= sorted.len(),
        forall|j: int| at <= j < sorted.len() ==> before(item, #[trigger] sorted[j]),
        at > 0 ==> !before(item, sorted[at - 1]),
    ensures
        insert_by(sorted, item, before) == sorted.insert(at, item),
    decreases sorted.len(),
{
    if at == sorted.len() {
        assert(sorted.push(item) == sorted.insert(at, item));
    } else {
        let head = sorted.drop_last();
        assert(before(item, sorted[sorted.len() - 1]));
        assert forall|j: int| at <= j < head.len() implies before(item, #[trigger] head[j]) by {
            assert(head[j] == sorted[j]);
        }
        lemma_insert_by_at(head, item, before, at);
        assert(head.insert(at, item).push(sorted.last()) == sorted.insert(at, item));
    }
}

/// An item goes to one place, and all others stay in their order.
pub proof fn lemma_insert_by_place<T>(sorted: Seq<T>, item: T, before: spec_fn(T, T) -> bool) -> (at:
    int)
    ensures
        0 <= at <= sorted.len(),
        insert_by(sorted, item, before) == sorted.insert(at, item),
        forall|j: int| at <= j < sorted.len() ==> before(item, #[trigger] sorted[j]),
        at > 0 ==> !before(item, sorted[at - 1]),
    decreases sorted.len(),
{
    if sorted.len() > 0 && before(item, sorted.last()) {
        let head = sorted.drop_last();
        let at = lemma_insert_by_place(head, item, before);
        assert(head.insert(at, item).push(sorted.last()) == sorted.insert(at, item));
        assert forall|j: int| at <= j < sorted.len() implies before(item, #[trigger] sorted[j]) by {
            if j < head.len() {
                assert(head[j] == sorted[j]);
            }
        }
        if at > 0 {
            assert(head[at - 1] == sorted[at - 1]);
        }
        at
    } else {
        assert(sorted.push(item) == sorted.insert(sorted.len() as int, item));
        sorted.len() as int
    }
}

/// Putting an item into items in order leaves them in order.
pub proof fn lemma_insert_by_in_order<T>(sorted: Seq<T>, item: T, before: spec_fn(T, T) -> bool)
    requires
        ranks(before),
        in_order(sorted, before),
    ensures
        in_order(insert_by(sorted, item, before), before),
        insert_by(sorted, item, before).to_multiset() == sorted.to_multiset().insert(item),
        insert_by(sorted, item, before).len() == sorted.len() + 1,
{
    let at = lemma_insert_by_place(sorted, item, before);
    let out = sorted.insert(at, item);
    assert forall|i: int, j: int| 0 <= i < j < out.len() implies !before(
        #[trigger] out[j],
        #[trigger] out[i],
    ) by {
        if j < at {
            assert(out[i] == sorted[i] && out[j] == sorted[j]);
        } else if j == at {
            assert(out[i] == sorted[i]);
            assert(!before(item, sorted[at - 1]));
            if i < at - 1 {
                assert(!before(sorted[at - 1], sorted[i]));
            }
        } else if i < at {
            assert(out[i] == sorted[i] && out[j] == sorted[j - 1]);
        } else if i == at {
            assert(out[j] == sorted[j - 1]);
            assert(before(item, sorted[j - 1]));
        } else {
            assert(out[i] == sorted[i - 1] && out[j] == sorted[j - 1]);
        }
    }
    vstd::seq_lib::to_multiset_insert(sorted, at, item);
}

/// Sorting brings the items in order and neither adds nor loses one.
pub proof fn lemma_stable_sort<T>(items: Seq<T>, before: spec_fn(T, T) -> bool)
    requires
        ranks(before),
    ensures
        in_order(stable_sort(items, before), before),
        stable_sort(items, before).to_multiset() == items.to_multiset(),
        stable_sort(items, before).len() == items.len(),
    decreases items.len(),
{
    if items.len() > 0 {
        let head = items.drop_last();
        lemma_stable_sort(head, before);
        lemma_insert_by_in_order(stable_sort(head, before), items.last(), before);
        assert(items == head.push(items.last()));
        vstd::seq_lib::to_multiset_build(head, items.last());
    } else {
        assert(stable_sort(items, before) == items);
    }
}

} // verus!

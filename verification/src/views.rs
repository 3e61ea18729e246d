//! Views of containers, element by element.

use vstd::prelude::*;

verus! {

/// The views of the elements of `items`, in order.
pub open spec fn views<T: View>(items: Seq<T>) -> Seq<T::V> {
    items.map_values(|item: T| item@)
}

/// The view of the value in `item`, if there is one.
pub open spec fn optional<T: View>(item: Option<T>) -> Option<T::V> {
    match item {
        Some(value) => Some(value@),
        None => None,
    }
}

/// Pushing an element pushes its view.
pub proof fn lemma_views_push<T: View>(items: Seq<T>, item: T)
    ensures
        views(items.push(item)) == views(items).push(item@),
{
    assert(views(items.push(item)) =~= views(items).push(item@));
}

/// Filtering one element more adds it or leaves it out.
pub proof fn lemma_filter_push<A>(items: Seq<A>, item: A, pred: spec_fn(A) -> bool)
    ensures
        items.push(item).filter(pred) == if pred(item) {
            items.filter(pred).push(item)
        } else {
            items.filter(pred)
        },
{
    reveal(Seq::filter);
    assert(items.push(item).drop_last() =~= items);
}

/// What passes a filter was there before, and passes.
pub proof fn lemma_filter_origin<A>(items: Seq<A>, pred: spec_fn(A) -> bool, at: int)
    requires
        0 <= at < items.filter(pred).len(),
    ensures
        pred(items.filter(pred)[at]),
        items.contains(items.filter(pred)[at]),
    decreases items.len(),
{
    reveal(Seq::filter);
    let front = items.drop_last();
    if at < front.filter(pred).len() {
        lemma_filter_origin(front, pred, at);
        let i = choose|i: int| 0 <= i < front.len() && front[i] == front.filter(pred)[at];
        assert(items[i] == items.filter(pred)[at]);
    } else {
        assert(items[items.len() - 1] == items.filter(pred)[at]);
    }
}

/// The items whose mark is set, in order. The marks say on which items `pred` holds.
pub(crate) fn keep_marked<T: View>(
    items: Vec<T>,
    marks: &Vec<bool>,
    Ghost(pred): Ghost<spec_fn(T::V) -> bool>,
) -> (kept: Vec<T>)
    requires
        marks@.len() == items@.len(),
        forall|i: int| 0 <= i < items@.len() ==> marks@[i] == pred(#[trigger] items@[i]@),
    ensures
        views(kept@) == views(items@).filter(pred),
{
    let ghost all = items@;
    let mut kept: Vec<T> = Vec::new();
    let count: usize = marks.len();
    let mut at: usize = 0;
    proof {
        reveal(Seq::filter);
        assert(views(all.take(0)) =~= Seq::empty());
        assert(views(kept@) =~= views(all.take(0)).filter(pred));
    }
    for item in iter: items
        invariant
            at == iter.index(),
            iter.seq() == all,
            marks@.len() == all.len(),
            count == all.len(),
            forall|i: int| 0 <= i < all.len() ==> marks@[i] == pred(#[trigger] all[i]@),
            views(kept@) == views(all.take(at as int)).filter(pred),
    {
        proof {
            assert(item == all[at as int]);
            assert(all.take(at + 1) =~= all.take(at as int).push(item));
            lemma_views_push(all.take(at as int), item);
            lemma_filter_push(views(all.take(at as int)), item@, pred);
            lemma_views_push(kept@, item);
        }
        if marks[at] {
            kept.push(item);
        }
        at = at + 1;
    }
    proof {
        assert(all.take(all.len() as int) =~= all);
    }
    kept
}

} // verus!

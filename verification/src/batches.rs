//! Cutting work into batches of bounded size.

use crate::text::views;
use vstd::prelude::*;

verus! {

/// A list cut into batches of `size` items; only the last may be shorter.
pub open spec fn chunked<T>(items: Seq<T>, size: int) -> Seq<Seq<T>>
    decreases items.len(),
{
    if items.len() == 0 || size <= 0 {
        Seq::empty()
    } else if items.len() <= size {
        seq![items]
    } else {
        seq![items.take(size)] + chunked(items.skip(size), size)
    }
}

/// The items of all batches, one batch after the other.
pub open spec fn flattened<T>(batches: Seq<Seq<T>>) -> Seq<T>
    decreases batches.len(),
{
    if batches.len() == 0 {
        Seq::empty()
    } else {
        batches[0] + flattened(batches.drop_first())
    }
}

/// Batches hold every item once and in order, none is empty, none is larger than the bound, and
/// all but the last are full.
pub proof fn chunked_is_a_partition<T>(items: Seq<T>, size: int)
    requires
        size > 0,
    ensures
        flattened(chunked(items, size)) == items,
        forall|i: int|
            0 <= i < chunked(items, size).len() ==> 0 < (#[trigger] chunked(items, size)[i]).len()
                <= size,
        forall|i: int|
            0 <= i < chunked(items, size).len() - 1 ==> (#[trigger] chunked(items, size)[i]).len()
                == size,
    decreases items.len(),
{
    let batches = chunked(items, size);
    if items.len() == 0 {
        assert(flattened(batches) =~= items);
    } else if items.len() <= size {
        let rest = batches.drop_first();
        assert(rest =~= Seq::<Seq<T>>::empty());
        assert(flattened(rest) =~= Seq::<T>::empty());
        assert(flattened(batches) == items + flattened(rest));
        assert(flattened(batches) =~= items);
    } else {
        let rest = chunked(items.skip(size), size);
        chunked_is_a_partition(items.skip(size), size);
        assert(batches.drop_first() =~= rest);
        assert(flattened(batches) =~= items.take(size) + items.skip(size));
        assert(items.take(size) + items.skip(size) =~= items);
        assert forall|i: int| 0 <= i < batches.len() implies 0 < (#[trigger] batches[i]).len()
            <= size by {
            if i > 0 {
                assert(batches[i] == rest[i - 1]);
            }
        }
        assert forall|i: int| 0 <= i < batches.len() - 1 implies (#[trigger] batches[i]).len()
            == size by {
            if i > 0 {
                assert(batches[i] == rest[i - 1]);
            }
        }
    }
}

/// A batch that was filled and then cut off leaves the rest to be cut on its own.
pub proof fn chunked_prefix<T>(items: Seq<T>, size: int)
    requires
        0 < size <= items.len(),
    ensures
        chunked(items, size) == seq![items.take(size)] + chunked(items.skip(size), size),
{
    if items.len() == size {
        assert(items.take(size) =~= items);
        assert(items.skip(size) =~= Seq::<T>::empty());
        assert(chunked(items, size) =~= seq![items.take(size)] + chunked(items.skip(size), size));
    }
}

/// The views of batches.
pub open spec fn batch_views<T: View>(batches: Seq<Vec<T>>) -> Seq<Seq<T::V>> {
    batches.map_values(|batch: Vec<T>| views(batch@))
}

/// Cuts a list into batches of `size` items; only the last may be shorter.
pub fn cut<T: View>(items: Vec<T>, size: usize) -> (r: Vec<Vec<T>>)
    requires
        size > 0,
    ensures
        batch_views(r@) == chunked(views(items@), size as int),
{
    let ghost all = views(items@);
    let ghost bound = size as int;
    let mut rest = items;
    let mut batches: Vec<Vec<T>> = Vec::new();
    assert(batch_views(batches@) + chunked(all, bound) =~= chunked(all, bound));
    while rest.len() > size
        invariant
            size > 0,
            bound == size,
            batch_views(batches@) + chunked(views(rest@), bound) == chunked(all, bound),
        decreases rest.len(),
    {
        let ghost left = views(rest@);
        let ghost done = batch_views(batches@);
        let tail = rest.split_off(size);
        assert(views(rest@) =~= left.take(bound));
        assert(views(tail@) =~= left.skip(bound));
        batches.push(rest);
        proof {
            assert(batch_views(batches@) =~= done.push(left.take(bound)));
            assert(done + chunked(left, bound) =~= batch_views(batches@) + chunked(
                left.skip(bound),
                bound,
            ));
        }
        rest = tail;
    }
    let ghost done = batch_views(batches@);
    if rest.len() > 0 {
        let ghost last = views(rest@);
        batches.push(rest);
        assert(batch_views(batches@) =~= done + seq![last]);
    } else {
        assert(done + chunked(views(rest@), bound) =~= done);
    }
    batches
}

} // verus!

//! What holds of every run of calls on a buffer.

use vstd::prelude::*;
use crate::model::{enqueue_each, fits, front, lemma_enqueue_each, newest};
use crate::trace::{adds, repeated, replies, reply, run, Call, Reply};

verus! {

/// In every state that calls can lead to, the buffer holds no more elements than
/// it has places.
pub proof fn law_size_within_capacity<T>(contents: Seq<T>, capacity: nat, calls: Seq<Call<T>>)
    requires
        fits(contents, capacity),
    ensures
        fits(run(contents, capacity, calls), capacity),
        forall|k: int|
            0 <= k <= calls.len() ==> (#[trigger] run(contents, capacity, calls.take(k))).len()
                <= capacity,
    decreases calls.len(),
{
    if calls.len() > 0 {
        law_size_within_capacity(contents, capacity, calls.drop_last());
    }
    assert forall|k: int| 0 <= k <= calls.len() implies (#[trigger] run(
        contents,
        capacity,
        calls.take(k),
    )).len() <= capacity by {
        if k == calls.len() {
            assert(calls.take(k) == calls);
        } else {
            assert(calls.drop_last().take(k) == calls.take(k));
        }
    }
}

/// A run of `add` calls leads to what `enqueue_each` describes: the newest
/// `capacity` of the old contents followed by the added elements.
pub proof fn law_adds_keep_newest<T>(contents: Seq<T>, capacity: nat, items: Seq<T>)
    requires
        fits(contents, capacity),
    ensures
        run(contents, capacity, adds(items)) == enqueue_each(contents, capacity, items),
        run(contents, capacity, adds(items)) == newest(contents + items, capacity),
    decreases items.len(),
{
    if items.len() > 0 {
        law_adds_keep_newest(contents, capacity, items.drop_last());
        assert(adds(items).drop_last() == adds(items.drop_last()));
    }
    lemma_enqueue_each(contents, capacity, items);
}

/// Adding to an empty buffer no more elements than it has places keeps them
/// all: the size is the number of adds, and the buffer is empty only where
/// nothing was added.
pub proof fn law_size_counts_adds<T>(capacity: nat, items: Seq<T>)
    requires
        1 <= capacity,
        items.len() <= capacity,
    ensures
        run(Seq::<T>::empty(), capacity, adds(items)) == items,
        reply(run(Seq::<T>::empty(), capacity, adds(items)), Call::Size) == Reply::<T>::Count(
            items.len(),
        ),
        reply(run(Seq::<T>::empty(), capacity, adds(items)), Call::IsEmpty) == Reply::<T>::Flag(
            items.len() == 0,
        ),
{
    law_adds_keep_newest(Seq::<T>::empty(), capacity, items);
    assert(Seq::<T>::empty() + items == items);
}

/// Removing `times` times in a row hands out the elements oldest first, and
/// `None` for every call made after the last element has left.
pub proof fn law_removes_drain_in_order<T>(contents: Seq<T>, capacity: nat, times: nat)
    ensures
        run(contents, capacity, repeated(Call::Remove, times)) == contents.skip(
            if times <= contents.len() {
                times as int
            } else {
                contents.len() as int
            },
        ),
        replies(contents, capacity, repeated(Call::Remove, times)) == Seq::new(
            times,
            |i: int|
                Reply::Item(
                    if i < contents.len() {
                        Some(contents[i])
                    } else {
                        None
                    },
                ),
        ),
    decreases times,
{
    let calls = repeated(Call::<T>::Remove, times);
    if times > 0 {
        let fewer = (times - 1) as nat;
        law_removes_drain_in_order(contents, capacity, fewer);
        assert(calls.drop_last() == repeated(Call::<T>::Remove, fewer));
    }
    assert(run(contents, capacity, calls) == contents.skip(
        if times <= contents.len() {
            times as int
        } else {
            contents.len() as int
        },
    ));
    assert forall|i: int| 0 <= i < times implies #[trigger] replies(contents, capacity, calls)[i]
        == Reply::Item(
        if i < contents.len() {
            Some(contents[i])
        } else {
            None
        },
    ) by {
        law_removes_drain_in_order(contents, capacity, i as nat);
        assert(calls.take(i) == repeated(Call::<T>::Remove, i as nat));
    }
}

/// First in, first out: after adds that fit into an empty buffer, as many removes
/// hand the elements back in the order in which they were added, and leave the
/// buffer empty.
pub proof fn law_fifo_order<T>(capacity: nat, items: Seq<T>)
    requires
        1 <= capacity,
        items.len() <= capacity,
    ensures
        replies(
            run(Seq::<T>::empty(), capacity, adds(items)),
            capacity,
            repeated(Call::Remove, items.len()),
        ) == Seq::new(items.len(), |i: int| Reply::Item(Some(items[i]))),
        run(
            run(Seq::<T>::empty(), capacity, adds(items)),
            capacity,
            repeated(Call::Remove, items.len()),
        ) == Seq::<T>::empty(),
{
    law_size_counts_adds(capacity, items);
    law_removes_drain_in_order(items, capacity, items.len());
}

/// Overwriting: after one add more than the buffer has places, the first element
/// added is gone, and draining the buffer hands back all the others in the order
/// in which they were added.
pub proof fn law_overwrite_drops_oldest<T>(capacity: nat, items: Seq<T>)
    requires
        1 <= capacity,
        items.len() == capacity + 1,
    ensures
        run(Seq::<T>::empty(), capacity, adds(items)) == items.skip(1),
        replies(
            run(Seq::<T>::empty(), capacity, adds(items)),
            capacity,
            repeated(Call::Remove, capacity),
        ) == Seq::new(capacity, |i: int| Reply::Item(Some(items[i + 1]))),
        run(
            run(Seq::<T>::empty(), capacity, adds(items)),
            capacity,
            repeated(Call::Remove, capacity),
        ) == Seq::<T>::empty(),
{
    law_adds_keep_newest(Seq::<T>::empty(), capacity, items);
    assert(Seq::<T>::empty() + items == items);
    assert(newest(items, capacity) == items.skip(1));
    law_removes_drain_in_order(items.skip(1), capacity, capacity);
}

/// Peeking changes nothing: any number of peeks in a row all answer with the
/// same element, the oldest, and leave the contents, and so the size, as they
/// were.
pub proof fn law_peek_repeatable<T>(contents: Seq<T>, capacity: nat, times: nat)
    ensures
        run(contents, capacity, repeated(Call::Peek, times)) == contents,
        run(contents, capacity, repeated(Call::Peek, times)).len() == contents.len(),
        replies(contents, capacity, repeated(Call::Peek, times)) == Seq::new(
            times,
            |i: int| Reply::Item(front(contents)),
        ),
    decreases times,
{
    let calls = repeated(Call::<T>::Peek, times);
    if times > 0 {
        let fewer = (times - 1) as nat;
        law_peek_repeatable(contents, capacity, fewer);
        assert(calls.drop_last() == repeated(Call::<T>::Peek, fewer));
    }
    assert forall|i: int| 0 <= i < times implies #[trigger] replies(contents, capacity, calls)[i]
        == Reply::Item(front(contents)) by {
        law_peek_repeatable(contents, capacity, i as nat);
        assert(calls.take(i) == repeated(Call::<T>::Peek, i as nat));
    }
}

/// An empty buffer has size 0 and nothing to peek at, and stays empty however
/// often an element is asked of it: every such `remove` answers `None`.
pub proof fn law_empty_buffer<T>(capacity: nat, times: nat)
    ensures
        reply(Seq::<T>::empty(), Call::Size) == Reply::<T>::Count(0),
        reply(Seq::<T>::empty(), Call::IsEmpty) == Reply::<T>::Flag(true),
        reply(Seq::<T>::empty(), Call::Peek) == Reply::<T>::Item(None),
        replies(Seq::<T>::empty(), capacity, repeated(Call::Remove, times)) == Seq::new(
            times,
            |i: int| Reply::<T>::Item(None),
        ),
        run(Seq::<T>::empty(), capacity, repeated(Call::Remove, times)) == Seq::<T>::empty(),
{
    law_removes_drain_in_order(Seq::<T>::empty(), capacity, times);
}

/// A buffer made from a sequence is the empty buffer with as many places as the
/// sequence has elements, after one add for each of them in order: it holds the
/// sequence itself.
pub proof fn law_from_sequence<T>(items: Seq<T>)
    requires
        1 <= items.len(),
    ensures
        enqueue_each(Seq::<T>::empty(), items.len(), items) == items,
        run(Seq::<T>::empty(), items.len(), adds(items)) == items,
{
    law_adds_keep_newest(Seq::<T>::empty(), items.len(), items);
    assert(Seq::<T>::empty() + items == items);
}

} // verus!

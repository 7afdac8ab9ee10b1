//! The contents of a bounded overwrite queue as a mathematical sequence, oldest
//! element first, and what each operation does to it.

use vstd::prelude::*;

verus! {

/// What a queue of `capacity` places may hold: at least one place exists, and no
/// more elements are held than there are places.
pub open spec fn fits<T>(contents: Seq<T>, capacity: nat) -> bool {
    1 <= capacity && contents.len() <= capacity
}

/// The contents after `item` was added. While a place is free the item joins at
/// the back; once all places are taken the oldest element is given up for it.
pub open spec fn enqueue<T>(contents: Seq<T>, capacity: nat, item: T) -> Seq<T> {
    if contents.len() < capacity {
        contents.push(item)
    } else {
        contents.drop_first().push(item)
    }
}

/// The contents after the oldest element was taken out; nothing changes where
/// there is none.
pub open spec fn dequeue<T>(contents: Seq<T>) -> Seq<T> {
    if contents.len() == 0 {
        contents
    } else {
        contents.drop_first()
    }
}

/// The oldest element, the next to leave, if there is one.
pub open spec fn front<T>(contents: Seq<T>) -> Option<T> {
    if contents.len() == 0 {
        None
    } else {
        Some(contents[0])
    }
}

/// The `capacity` most recent entries of `items`, oldest first; all of `items`
/// where it has no more than that.
pub open spec fn newest<T>(items: Seq<T>, capacity: nat) -> Seq<T> {
    if items.len() <= capacity {
        items
    } else {
        items.subrange(items.len() - capacity, items.len() as int)
    }
}

/// The contents after every element of `items` was added, in ascending order of
/// index, one `enqueue` each.
pub open spec fn enqueue_each<T>(contents: Seq<T>, capacity: nat, items: Seq<T>) -> Seq<T>
    decreases items.len(),
{
    if items.len() == 0 {
        contents
    } else {
        enqueue(enqueue_each(contents, capacity, items.drop_last()), capacity, items.last())
    }
}

/// Adding to a queue that fits leaves one that fits, one element longer unless
/// it was full, and it is the newest `capacity` of what it would hold unbounded.
pub proof fn lemma_enqueue<T>(contents: Seq<T>, capacity: nat, item: T)
    requires
        fits(contents, capacity),
    ensures
        fits(enqueue(contents, capacity, item), capacity),
        enqueue(contents, capacity, item).len() == if contents.len() < capacity {
            contents.len() + 1
        } else {
            capacity
        },
        enqueue(contents, capacity, item) == newest(contents.push(item), capacity),
        enqueue(contents, capacity, item).last() == item,
{
}

/// Adding a run of elements one by one keeps the newest `capacity` of the old
/// contents followed by the run.
pub proof fn lemma_enqueue_each<T>(contents: Seq<T>, capacity: nat, items: Seq<T>)
    requires
        fits(contents, capacity),
    ensures
        fits(enqueue_each(contents, capacity, items), capacity),
        enqueue_each(contents, capacity, items) == newest(contents + items, capacity),
    decreases items.len(),
{
    if items.len() == 0 {
        assert(contents + items == contents);
    } else {
        let before = items.drop_last();
        lemma_enqueue_each(contents, capacity, before);
        lemma_enqueue(enqueue_each(contents, capacity, before), capacity, items.last());
        assert((contents + before).push(items.last()) == contents + items);
    }
}

} // verus!

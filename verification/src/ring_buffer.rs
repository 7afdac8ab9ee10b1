//! The ring buffer itself: a vector of fixed length and two cursors into it.

use vstd::arithmetic::div_mod::{lemma_mod_self_0, lemma_small_mod};
use vstd::prelude::*;
use crate::model::{dequeue, enqueue, enqueue_each, fits, front, lemma_enqueue_each, newest};

verus! {

/// A queue with a fixed number of places. Elements leave in the order in which
/// they were added; an element added while every place is taken replaces the
/// oldest one.
///
/// The view of a buffer is the sequence of the elements it holds, oldest first.
pub struct RingBuffer<T> {
    data: Vec<T>,
    front: usize,
    end: usize,
    capacity: usize,
    is_empty: bool,
}

impl<T> RingBuffer<T> {
    #[verifier::type_invariant]
    spec fn inv(self) -> bool {
        &&& 1 <= self.capacity
        &&& self.data@.len() == self.capacity
        &&& self.front < self.capacity
        &&& self.end < self.capacity
        &&& self.is_empty ==> self.front == self.end
    }

    /// The number of places, fixed when the buffer is made.
    pub closed spec fn capacity(self) -> nat {
        self.capacity as nat
    }

    /// How many places are taken, counted from `front` round to `end`.
    spec fn count(self) -> nat {
        if self.is_empty {
            0
        } else if self.end >= self.front {
            (self.end - self.front + 1) as nat
        } else {
            (self.capacity - self.front + self.end + 1) as nat
        }
    }

    /// The place of the element `i` steps behind the oldest one.
    spec fn slot(self, i: int) -> int {
        if self.front + i < self.capacity {
            self.front + i
        } else {
            self.front + i - self.capacity
        }
    }
}

impl<T> View for RingBuffer<T> {
    type V = Seq<T>;

    closed spec fn view(&self) -> Seq<T> {
        Seq::new(self.count(), |i: int| self.data@[self.slot(i)])
    }
}

impl<T> RingBuffer<T> where T: Copy + Default {
    /// An empty buffer of `capacity` places. A buffer has at least one place:
    /// `capacity` must not be 0.
    pub fn new(capacity: usize) -> (buf: Self)
        requires
            capacity >= 1,
        ensures
            buf.capacity() == capacity,
            buf@ == Seq::<T>::empty(),
            fits(buf@, buf.capacity()),
    {
        Self {
            data: vec![T::default(); capacity],
            front: 0,
            end: 0,
            capacity,
            is_empty: true,
        }
    }

    /// A buffer with as many places as `source` has elements, holding them all,
    /// the one at index 0 as the oldest: what `new` followed by one `add` for
    /// each element gives. `source` must not be empty, as a buffer has at least
    /// one place.
    pub fn new_from_slice(source: &[T]) -> (buf: Self)
        requires
            source@.len() >= 1,
        ensures
            buf.capacity() == source@.len(),
            buf@ == source@,
            buf@ == enqueue_each(Seq::<T>::empty(), source@.len(), source@),
            fits(buf@, buf.capacity()),
    {
        let mut buf = Self::new(source.len());
        for item in iter: source.iter()
            invariant
                buf.capacity() == source@.len(),
                buf@ == enqueue_each(
                    Seq::<T>::empty(),
                    source@.len(),
                    source@.take(iter.index()),
                ),
        {
            proof {
                let done = iter.index();
                assert(*item == source@[done]);
                assert(source@.take(done + 1).drop_last() == source@.take(done));
                assert(source@.take(done + 1).last() == source@[done]);
            }
            buf.add(*item);
        }
        proof {
            assert(source@.take(source@.len() as int) == source@);
            lemma_enqueue_each(Seq::<T>::empty(), source@.len(), source@);
            assert(Seq::<T>::empty() + source@ == source@);
        }
        buf
    }

    /// The number of elements held.
    pub fn size(&self) -> (n: usize)
        ensures
            n == self@.len(),
            fits(self@, self.capacity()),
    {
        proof {
            use_type_invariant(self);
        }
        if self.end > self.front {
            self.end - self.front + 1
        } else if self.end < self.front {
            self.capacity - self.front + self.end + 1
        } else if self.is_empty {
            0
        } else {
            1
        }
    }

    /// Whether no element is held.
    pub fn is_empty(&self) -> (b: bool)
        ensures
            b == (self@.len() == 0),
            fits(self@, self.capacity()),
    {
        proof {
            use_type_invariant(self);
        }
        self.is_empty
    }

    /// Adds `item` as the newest element. Where every place is taken, the oldest
    /// element is dropped to make room.
    pub fn add(&mut self, item: T)
        ensures
            final(self).capacity() == old(self).capacity(),
            final(self)@ == enqueue(old(self)@, old(self).capacity(), item),
            fits(final(self)@, final(self).capacity()),
    {
        proof {
            use_type_invariant(&*self);
        }
        if self.is_empty {
            self.is_empty = false;
            self.front = 0;
            self.end = 0;
        } else {
            self.increment_end();
            if self.front == self.end {
                self.increment_front();
            }
        }
        self.data[self.end] = item;
    }

    /// Adds the elements of `items`, in ascending order of index, as `add` would
    /// one by one. What is held afterwards is the newest `capacity` of the old
    /// contents followed by `items`.
    pub fn add_from_slice(&mut self, items: &[T])
        ensures
            final(self).capacity() == old(self).capacity(),
            final(self)@ == enqueue_each(old(self)@, old(self).capacity(), items@),
            final(self)@ == newest(old(self)@ + items@, old(self).capacity()),
            fits(final(self)@, final(self).capacity()),
    {
        proof {
            use_type_invariant(&*self);
        }
        for item in iter: items.iter()
            invariant
                self.capacity() == old(self).capacity(),
                self@ == enqueue_each(old(self)@, old(self).capacity(), items@.take(iter.index())),
        {
            proof {
                let done = iter.index();
                assert(0 <= done < items@.len());
                assert(*item == items@[done]);
                assert(items@.take(done + 1).drop_last() == items@.take(done));
                assert(items@.take(done + 1).last() == items@[done]);
            }
            self.add(*item);
        }
        proof {
            assert(items@.take(items@.len() as int) == items@);
            lemma_enqueue_each(old(self)@, old(self).capacity(), items@);
        }
    }

    /// The oldest element, which stays in the buffer; `None` where the buffer is
    /// empty.
    pub fn peek(&self) -> (item: Option<T>)
        ensures
            item == front(self@),
            fits(self@, self.capacity()),
    {
        proof {
            use_type_invariant(self);
        }
        if self.is_empty {
            None
        } else {
            Some(self.data[self.front])
        }
    }

    /// Takes the oldest element out and returns it; `None`, and no change, where
    /// the buffer is empty.
    pub fn remove(&mut self) -> (item: Option<T>)
        ensures
            final(self).capacity() == old(self).capacity(),
            item == front(old(self)@),
            final(self)@ == dequeue(old(self)@),
            fits(final(self)@, final(self).capacity()),
    {
        proof {
            use_type_invariant(&*self);
        }
        if self.is_empty {
            None
        } else {
            let temp: T = self.data[self.front];
            if self.front == self.end {
                self.is_empty = true;
            } else {
                self.increment_front();
            }
            Some(temp)
        }
    }

    fn increment_front(&mut self)
        requires
            !old(self).is_empty,
        ensures
            final(self).front == if old(self).front + 1 < old(self).capacity {
                old(self).front + 1
            } else {
                0
            },
            final(self).end == old(self).end,
            final(self).capacity == old(self).capacity,
            final(self).is_empty == old(self).is_empty,
            final(self).data == old(self).data,
    {
        proof {
            use_type_invariant(&*self);
            if self.front + 1 < self.capacity {
                lemma_small_mod((self.front + 1) as nat, self.capacity as nat);
            } else {
                lemma_mod_self_0(self.capacity as int);
            }
        }
        self.front = (self.front + 1) % self.capacity;
    }

    fn increment_end(&mut self)
        requires
            !old(self).is_empty,
        ensures
            final(self).end == if old(self).end + 1 < old(self).capacity {
                old(self).end + 1
            } else {
                0
            },
            final(self).front == old(self).front,
            final(self).capacity == old(self).capacity,
            final(self).is_empty == old(self).is_empty,
            final(self).data == old(self).data,
    {
        proof {
            use_type_invariant(&*self);
            if self.end + 1 < self.capacity {
                lemma_small_mod((self.end + 1) as nat, self.capacity as nat);
            } else {
                lemma_mod_self_0(self.capacity as int);
            }
        }
        self.end = (self.end + 1) % self.capacity;
    }
}

} // verus!

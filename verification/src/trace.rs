//! Runs of calls on a buffer: which contents they lead to and what each call
//! answers. A run is the form in which the laws of the buffer are stated.

use vstd::prelude::*;
use crate::model::{dequeue, enqueue, front};

verus! {

/// One call of the buffer's interface.
pub enum Call<T> {
    Add(T),
    Remove,
    Peek,
    Size,
    IsEmpty,
}

/// What a call hands back.
pub enum Reply<T> {
    /// `add` hands back nothing.
    Done,
    /// `remove` and `peek` hand back an element, or `None`.
    Item(Option<T>),
    /// `size` hands back a count.
    Count(nat),
    /// `is_empty` hands back a truth value.
    Flag(bool),
}

/// The contents after `call`. Only `add` and `remove` change them.
pub open spec fn step<T>(contents: Seq<T>, capacity: nat, call: Call<T>) -> Seq<T> {
    match call {
        Call::Add(item) => enqueue(contents, capacity, item),
        Call::Remove => dequeue(contents),
        Call::Peek => contents,
        Call::Size => contents,
        Call::IsEmpty => contents,
    }
}

/// What `call` answers on the given contents.
pub open spec fn reply<T>(contents: Seq<T>, call: Call<T>) -> Reply<T> {
    match call {
        Call::Add(_) => Reply::Done,
        Call::Remove => Reply::Item(front(contents)),
        Call::Peek => Reply::Item(front(contents)),
        Call::Size => Reply::Count(contents.len()),
        Call::IsEmpty => Reply::Flag(contents.len() == 0),
    }
}

/// The contents after all of `calls`, made in order.
pub open spec fn run<T>(contents: Seq<T>, capacity: nat, calls: Seq<Call<T>>) -> Seq<T>
    decreases calls.len(),
{
    if calls.len() == 0 {
        contents
    } else {
        step(run(contents, capacity, calls.drop_last()), capacity, calls.last())
    }
}

/// The answers of `calls`, made in order: each call answers on the contents that
/// the calls before it have led to.
pub open spec fn replies<T>(contents: Seq<T>, capacity: nat, calls: Seq<Call<T>>) -> Seq<Reply<T>> {
    Seq::new(calls.len(), |i: int| reply(run(contents, capacity, calls.take(i)), calls[i]))
}

/// One `add` for each element of `items`, in ascending order of index.
pub open spec fn adds<T>(items: Seq<T>) -> Seq<Call<T>> {
    Seq::new(items.len(), |i: int| Call::Add(items[i]))
}

/// The same call, `times` times in a row.
pub open spec fn repeated<T>(call: Call<T>, times: nat) -> Seq<Call<T>> {
    Seq::new(times, |i: int| call)
}

} // verus!

//! A fixed-capacity FIFO ring buffer that overwrites its oldest element when full.
//!
//! [`RingBuffer`] is the executable container. Its contracts are stated over the
//! sequence of elements it holds, oldest first, with the functions of [`model`].
//! [`trace`] describes whole runs of calls, and [`laws`] proves what holds of them.

pub mod laws;
pub mod model;
pub mod ring_buffer;
pub mod trace;

pub use crate::ring_buffer::RingBuffer;

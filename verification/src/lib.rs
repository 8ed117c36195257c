//! A growable circular (ring) byte buffer with a hard capacity ceiling.
//!
//! The buffer stages bytes between an incremental writer and an incremental
//! reader: a FIFO byte queue backed by one contiguous allocation that wraps
//! at its end, grows on demand up to `max_capacity`, and can be shrunk back
//! opportunistically once usage drops.

pub mod circular_buffer;

pub use crate::circular_buffer::CircularBuffer;

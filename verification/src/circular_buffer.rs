//! A circular byte buffer whose memory usage is strictly capped.
//!
//! The readable bytes occupy the range `[position, position + length)` of the
//! backing storage, taken modulo its size, so they may wrap past the end of
//! the allocation exactly once. The buffer grows by doubling (with a floor)
//! up to `max_capacity`, and `apply_soft_limit` shrinks it back once usage
//! drops far enough below a caller-chosen target.

use vstd::prelude::*;

verus! {

/// Smallest capacity a growth step will allocate, so that a buffer created
/// with capacity 0 does not go through many tiny reallocations.
pub const MINIMUM_NON_EMPTY_CAPACITY: usize = 8;

/// The `count` bytes of `s` that start at index `start`, wrapping past the
/// end of `s` at most once. Meaningful when `start` lies inside `s` (or is 0)
/// and `count` does not exceed `s.len()`.
pub open spec fn wrapped_window(s: Seq<u8>, start: int, count: int) -> Seq<u8> {
    Seq::new(
        count as nat,
        |i: int| s[if start + i < s.len() { start + i } else { start + i - s.len() }],
    )
}

/// A sequence of `count` zero bytes, the content of freshly allocated storage.
pub open spec fn zeros(count: nat) -> Seq<u8> {
    Seq::new(count, |i: int| 0u8)
}

/// A simple circular buffer structure whose memory usage is strictly capped.
pub struct CircularBuffer {
    buffer: Vec<u8>,
    position: usize,
    length: usize,
    max_capacity: usize,
    initial_capacity: usize,
}

impl View for CircularBuffer {
    type V = Seq<u8>;

    /// The readable bytes, in FIFO order, de-wrapped into one sequence.
    closed spec fn view(&self) -> Seq<u8> {
        wrapped_window(self.buffer@, self.position as int, self.length as int)
    }
}

impl CircularBuffer {
    /// The raw backing storage as a sequence of bytes.
    pub closed spec fn storage(self) -> Seq<u8> {
        self.buffer@
    }

    /// Index of the first readable byte inside the backing storage.
    pub closed spec fn pos(self) -> nat {
        self.position as nat
    }

    /// Size of the backing storage.
    pub closed spec fn capacity(self) -> nat {
        self.buffer@.len()
    }

    /// Hard ceiling the capacity may never exceed.
    pub closed spec fn max_cap(self) -> nat {
        self.max_capacity as nat
    }

    /// Floor used when re-growing after a shrink.
    pub closed spec fn init_cap(self) -> nat {
        self.initial_capacity as nat
    }

    /// Well-formedness: the unread byte count never exceeds the capacity,
    /// the capacity never exceeds the hard ceiling, the read position lies
    /// inside the storage, and an empty buffer is canonical (position 0).
    pub closed spec fn inv(self) -> bool {
        &&& self.length <= self.buffer@.len()
        &&& self.buffer@.len() <= self.max_capacity
        &&& self.initial_capacity <= self.max_capacity
        &&& (self.position < self.buffer@.len() || self.position == 0)
        &&& (self.length == 0 ==> self.position == 0)
    }

    /// Create a new `CircularBuffer` with initial `capacity`, and a limit
    /// capacity set to `max_capacity`. The initial capacity is clamped to
    /// `max_capacity` and the storage starts out zeroed.
    pub fn new(capacity: usize, max_capacity: usize) -> (result: Self)
        ensures
            result.inv(),
            result.capacity() == vstd::math::min(capacity as int, max_capacity as int),
            result.max_cap() == max_capacity as nat,
            result.init_cap() == result.capacity(),
            result.pos() == 0,
            result@ == Seq::<u8>::empty(),
            result.storage() == zeros(result.capacity()),
    {
        let capacity = if capacity < max_capacity {
            capacity
        } else {
            max_capacity
        };
        let buffer = zeroed_vec(capacity);

        let result = Self {
            buffer,
            position: 0,
            length: 0,
            max_capacity,
            initial_capacity: capacity,
        };
        proof {
            assert(result@ =~= Seq::<u8>::empty());
        }
        result
    }

    /// Checks whenever there is anything to read in the buffer.
    pub fn is_empty(&self) -> (empty: bool)
        ensures
            empty == (self@.len() == 0),
    {
        self.length == 0
    }

    /// Total current capacity of the buffer.
    pub fn current_capacity(&self) -> (capacity: usize)
        ensures
            capacity as nat == self.capacity(),
    {
        self.buffer.len()
    }

    /// The amount of bytes that can be read from this buffer.
    pub fn remaining(&self) -> (count: usize)
        ensures
            count as nat == self@.len(),
    {
        self.length
    }

    /// The maximum amount of bytes that can still be written to this buffer.
    ///
    /// This does *not* signify how much data can be written to it *right now*
    /// without any reallocation.
    pub fn remaining_mut(&self) -> (count: usize)
        requires
            self.inv(),
        ensures
            count as nat == self.max_cap() - self@.len(),
    {
        self.max_capacity - self.length
    }

    /// The maximum amount of bytes that can be written to this buffer right
    /// now, *without* reallocating.
    pub fn remaining_mut_without_realloc(&self) -> (count: usize)
        requires
            self.inv(),
        ensures
            count as nat == self.capacity() - self@.len(),
    {
        self.buffer.len() - self.length
    }

    /// Length of the first contiguous run of readable bytes, from the read
    /// position up to the end of the storage or of the data.
    pub closed spec fn first_span_len(self) -> nat {
        vstd::math::min(self.length as int, self.buffer@.len() - self.position) as nat
    }

    /// The first contiguous run of unread bytes. If the data wraps, only the
    /// portion up to the end of the storage is returned; the rest becomes
    /// visible once this portion has been consumed with `advance`.
    pub fn bytes(&self) -> (span: &[u8])
        requires
            self.inv(),
        ensures
            span@.len() == self.first_span_len(),
            span@ == self@.take(self.first_span_len() as int),
    {
        let cap = self.buffer.len();
        let first = if self.length < cap - self.position {
            self.length
        } else {
            cap - self.position
        };
        let span = vstd::slice::slice_subrange(self.buffer.as_slice(), self.position, self.position + first);
        proof {
            assert(span@ =~= self@.take(self.first_span_len() as int));
        }
        span
    }

    /// Commit that `count` bytes were consumed from the front of the buffer.
    /// When the buffer becomes empty, the read position resets to 0 (the
    /// canonical empty state).
    pub fn advance(&mut self, count: usize)
        requires
            old(self).inv(),
            count as nat <= old(self)@.len(),
        ensures
            final(self).inv(),
            final(self)@ == old(self)@.skip(count as int),
            final(self).storage() == old(self).storage(),
            final(self).capacity() == old(self).capacity(),
            final(self).max_cap() == old(self).max_cap(),
            final(self).init_cap() == old(self).init_cap(),
            final(self).pos() as int == (if count as nat == old(self)@.len() {
                0int
            } else if old(self).pos() + count < old(self).capacity() {
                old(self).pos() + count
            } else {
                old(self).pos() + count - old(self).capacity()
            }),
    {
        let new_length = self.length - count;
        if new_length == 0 {
            self.position = 0;
        } else {
            let ahead = self.buffer.len() - self.position;
            self.position = if count < ahead {
                self.position + count
            } else {
                count - ahead
            };
        }
        self.length = new_length;
        proof {
            assert(self@ =~= old(self)@.skip(count as int));
        }
    }

    /// Relocate the data into a new storage block of exactly `new_capacity`
    /// bytes, preserving the logical byte order. Afterwards the data starts
    /// at index 0 of the new storage (it is de-wrapped) and the rest of the
    /// storage is zeroed. Resizing to the current capacity is a no-op.
    pub fn resize_buffer(&mut self, new_capacity: usize)
        requires
            old(self).inv(),
            old(self)@.len() <= new_capacity as nat,
            new_capacity as nat <= old(self).max_cap(),
        ensures
            final(self).inv(),
            final(self)@ == old(self)@,
            final(self).capacity() == new_capacity as nat,
            final(self).max_cap() == old(self).max_cap(),
            final(self).init_cap() == old(self).init_cap(),
            new_capacity as nat == old(self).capacity() ==> *final(self) == *old(self),
            new_capacity as nat != old(self).capacity() ==> final(self).pos() == 0
                && final(self).storage() == old(self)@ + zeros((new_capacity as nat - old(self)@.len()) as nat),
    {
        if new_capacity == self.buffer.len() {
            return;
        }

        let mut new_buffer = zeroed_vec(new_capacity);

        if self.length > 0 {
            let cap = self.buffer.len();
            let ahead = cap - self.position;
            if self.length <= ahead {
                copy_bytes(&mut new_buffer, 0, &self.buffer, self.position, self.length);
            } else {
                copy_bytes(&mut new_buffer, 0, &self.buffer, self.position, ahead);
                copy_bytes(&mut new_buffer, ahead, &self.buffer, 0, self.length - ahead);
            }
        }

        self.buffer = new_buffer;
        self.position = 0;
        proof {
            assert(self@ =~= old(self)@);
            assert(self.storage() =~= old(self)@ + zeros((new_capacity as nat - old(self)@.len()) as nat));
        }
    }

    /// Capacity a growth step moves to: doubling, with a floor of
    /// `MINIMUM_NON_EMPTY_CAPACITY` and of the initial capacity, clamped to
    /// the hard ceiling.
    pub closed spec fn grow_target(self) -> nat {
        vstd::math::min(
            self.max_capacity as int,
            vstd::math::max(
                2 * self.buffer@.len() as int,
                vstd::math::max(MINIMUM_NON_EMPTY_CAPACITY as int, self.initial_capacity as int),
            ),
        ) as nat
    }

    /// Grow the storage towards the hard ceiling. Returns false (and changes
    /// nothing) only when no byte of hard capacity remains; note that it may
    /// return true without changing the capacity when the storage already
    /// sits at the hard ceiling while unread bytes remain below it.
    pub fn grow_buffer(&mut self) -> (grew: bool)
        requires
            old(self).inv(),
        ensures
            final(self).inv(),
            final(self)@ == old(self)@,
            final(self).max_cap() == old(self).max_cap(),
            final(self).init_cap() == old(self).init_cap(),
            grew == (old(self)@.len() < old(self).max_cap()),
            !grew ==> *final(self) == *old(self),
            grew ==> final(self).capacity() == old(self).grow_target(),
            grew && old(self).grow_target() == old(self).capacity() ==> *final(self) == *old(self),
            grew && old(self).grow_target() != old(self).capacity() ==> final(self).pos() == 0
                && final(self).storage() == old(self)@ + zeros(
                    (old(self).grow_target() - old(self)@.len()) as nat,
                ),
    {
        if self.remaining_mut() == 0 {
            return false;
        }

        let cap = self.buffer.len();
        let floor = if MINIMUM_NON_EMPTY_CAPACITY > self.initial_capacity {
            MINIMUM_NON_EMPTY_CAPACITY
        } else {
            self.initial_capacity
        };
        let new_capacity = if cap > self.max_capacity / 2 {
            // Doubling would overshoot the ceiling, so the clamp wins.
            self.max_capacity
        } else {
            let wanted = if cap * 2 > floor {
                cap * 2
            } else {
                floor
            };
            if wanted > self.max_capacity {
                self.max_capacity
            } else {
                wanted
            }
        };
        assert(new_capacity as nat == self.grow_target());

        self.resize_buffer(new_capacity);
        true
    }

    /// Index just past the readable data: where the next written byte lands.
    pub closed spec fn write_start(self) -> nat {
        if self.position + self.length < self.buffer@.len() {
            (self.position + self.length) as nat
        } else {
            (self.position + self.length - self.buffer@.len()) as nat
        }
    }

    /// Length of the first contiguous run of free storage, from the write
    /// start up to the end of the storage or of the free space.
    pub closed spec fn write_span_len(self) -> nat {
        vstd::math::min(
            self.buffer@.len() - self.length,
            self.buffer@.len() - self.write_start(),
        ) as nat
    }

    /// Commit that `count` bytes were written into the span last granted by
    /// `bytes_mut_impl`; they become readable behind the data already stored.
    pub fn advance_mut_impl(&mut self, count: usize)
        requires
            old(self).inv(),
            count as nat <= old(self).capacity() - old(self)@.len(),
        ensures
            final(self).inv(),
            final(self).storage() == old(self).storage(),
            final(self).capacity() == old(self).capacity(),
            final(self).pos() == old(self).pos(),
            final(self).max_cap() == old(self).max_cap(),
            final(self).init_cap() == old(self).init_cap(),
            final(self)@ == wrapped_window(
                old(self).storage(),
                old(self).pos() as int,
                old(self)@.len() + count,
            ),
            final(self)@.take(old(self)@.len() as int) == old(self)@,
            count == 0 ==> *final(self) == *old(self),
    {
        self.length = self.length + count;
        proof {
            assert(self@.take(old(self)@.len() as int) =~= old(self)@);
        }
    }

    /// Request a contiguous span of free storage to write into, growing the
    /// storage first when it is full but hard capacity remains. Returns the
    /// span as a pair `(start, count)` of indices into the storage; `count`
    /// is 0 exactly when the unread bytes already fill the hard capacity.
    pub fn bytes_mut_impl(&mut self) -> (span: (usize, usize))
        requires
            old(self).inv(),
        ensures
            final(self).inv(),
            final(self)@ == old(self)@,
            final(self).max_cap() == old(self).max_cap(),
            final(self).init_cap() == old(self).init_cap(),
            span.0 as nat + span.1 as nat <= final(self).capacity(),
            span.1 as nat <= final(self).capacity() - final(self)@.len(),
            span.0 as nat == final(self).write_start(),
            span.1 as nat == final(self).write_span_len(),
            (span.1 == 0) == (old(self)@.len() == old(self).max_cap()),
            old(self).capacity() > old(self)@.len() ==> *final(self) == *old(self),
            old(self).capacity() == old(self)@.len() && old(self)@.len() == old(self).max_cap()
                ==> *final(self) == *old(self),
            old(self).capacity() == old(self)@.len() && old(self)@.len() < old(self).max_cap()
                ==> final(self).capacity() == old(self).grow_target() && final(self).pos() == 0
                    && final(self).storage() == old(self)@ + zeros(
                        (old(self).grow_target() - old(self)@.len()) as nat,
                    ),
    {
        if self.buffer.len() - self.length == 0 {
            if !self.grow_buffer() {
                // Hard-full: the whole storage is unread data, so the write
                // start coincides with the read position and no byte is free.
                return (self.position, 0);
            }
        }

        let cap = self.buffer.len();
        let ahead = cap - self.position;
        let start = if self.length < ahead {
            self.position + self.length
        } else {
            self.length - ahead
        };
        let free = cap - self.length;
        let count = if free < cap - start {
            free
        } else {
            cap - start
        };
        (start, count)
    }

    /// How many bytes one `write` call can take right now: the contiguous
    /// free span, after the growth that a full storage would trigger.
    pub closed spec fn writable_now(self) -> nat {
        if self.buffer@.len() - self.length > 0 {
            self.write_span_len()
        } else if (self.length as nat) < self.max_capacity as nat {
            (self.grow_target() - self.length) as nat
        } else {
            0
        }
    }

    /// Copy as many bytes of `input` as fit into the writable span (growing
    /// the storage at most once) and commit them. Returns the number of
    /// bytes copied, which is 0 when the hard capacity is exhausted.
    pub fn write(&mut self, input: &[u8]) -> (count: usize)
        requires
            old(self).inv(),
        ensures
            final(self).inv(),
            final(self).max_cap() == old(self).max_cap(),
            final(self).init_cap() == old(self).init_cap(),
            count as nat == vstd::math::min(input@.len() as int, old(self).writable_now() as int),
            final(self)@ == old(self)@ + input@.take(count as int),
            (count == 0) == (input@.len() == 0 || old(self)@.len() == old(self).max_cap()),
            old(self).capacity() > old(self)@.len() ==> final(self).capacity() == old(self).capacity()
                && final(self).pos() == old(self).pos()
                && (forall|k: int|
                    0 <= k < old(self).storage().len() && !(old(self).write_start() <= k
                        < old(self).write_start() + count)
                        ==> #[trigger] final(self).storage()[k] == old(self).storage()[k])
                && (forall|k: int|
                    old(self).write_start() <= k < old(self).write_start() + count
                        ==> #[trigger] final(self).storage()[k]
                            == input@[k - old(self).write_start()]),
            old(self).capacity() == old(self)@.len() && old(self)@.len() < old(self).max_cap()
                ==> final(self).capacity() == old(self).grow_target()
                    && final(self).pos() == 0
                    && final(self).storage() == old(self)@ + input@.take(count as int) + zeros(
                        (old(self).grow_target() - old(self)@.len() - count) as nat,
                    ),
            old(self).capacity() == old(self)@.len() && old(self)@.len() == old(self).max_cap()
                ==> *final(self) == *old(self),
    {
        let span = self.bytes_mut_impl();
        let ghost mid = *self;
        let count = if input.len() < span.1 {
            input.len()
        } else {
            span.1
        };

        let mut copied: usize = 0;
        while copied < count
            invariant
                copied <= count,
                count <= span.1,
                count <= input@.len(),
                self.inv(),
                mid.inv(),
                span.0 as nat == mid.write_start(),
                span.1 as nat == mid.write_span_len(),
                span.0 + span.1 <= mid.capacity(),
                self.pos() == mid.pos(),
                self@.len() == mid@.len(),
                self.capacity() == mid.capacity(),
                self.max_cap() == mid.max_cap(),
                self.init_cap() == mid.init_cap(),
                copied == 0 ==> *self == mid,
                forall|k: int|
                    0 <= k < mid.capacity() && !(span.0 <= k < span.0 + copied)
                        ==> #[trigger] self.storage()[k] == mid.storage()[k],
                forall|k: int|
                    span.0 <= k < span.0 + copied
                        ==> #[trigger] self.storage()[k] == input@[k - span.0],
            decreases count - copied,
        {
            let ghost before = *self;
            let byte = *vstd::slice::slice_index_get(input, copied);
            self.buffer.set(span.0 + copied, byte);
            copied = copied + 1;
            proof {
                assert(self.storage() == before.storage().update(span.0 + copied - 1, input@[copied - 1]));
            }
        }

        proof {
            // The written window is disjoint from the readable window, so the
            // readable bytes are untouched.
            assert forall|i: int| 0 <= i < mid@.len() implies self@[i] == mid@[i] by {
                let cap = mid.capacity() as int;
                let start = mid.pos() as int;
                let phys = if start + i < cap {
                    start + i
                } else {
                    start + i - cap
                };
                assert(!(span.0 <= phys < span.0 + copied));
                assert(self.storage()[phys] == mid.storage()[phys]);
            }
            assert(self@ =~= mid@);
        }
        self.advance_mut_impl(count);
        proof {
            let appended = old(self)@ + input@.take(count as int);
            assert forall|i: int| 0 <= i < self@.len() implies self@[i] == appended[i] by {
                let cap = mid.capacity() as int;
                let start = mid.pos() as int;
                let unread = mid@.len() as int;
                if i >= unread {
                    let phys = if start + i < cap {
                        start + i
                    } else {
                        start + i - cap
                    };
                    assert(phys == span.0 + (i - unread));
                    assert(self.storage()[phys] == input@[i - unread]);
                }
            }
            assert(self@ =~= appended);
            if old(self).capacity() == old(self)@.len() && old(self)@.len() < old(self).max_cap() {
                assert(span.0 as nat == old(self)@.len());
                assert(self.storage() =~= old(self)@ + input@.take(count as int) + zeros(
                    (old(self).grow_target() - old(self)@.len() - count) as nat,
                ));
            }
        }
        count
    }

    /// Copy the unread bytes into the front of `output` and consume them:
    /// `min(output.len(), remaining)` bytes move, stitched across a
    /// wraparound. Returns the number of bytes copied, which is 0 when the
    /// buffer is empty (never an error).
    pub fn read(&mut self, output: &mut Vec<u8>) -> (count: usize)
        requires
            old(self).inv(),
        ensures
            final(self).inv(),
            count as nat == vstd::math::min(old(output)@.len() as int, old(self)@.len() as int),
            final(output)@ == old(self)@.take(count as int) + old(output)@.skip(count as int),
            final(output)@.len() == old(output)@.len(),
            final(self)@ == old(self)@.skip(count as int),
            final(self)@.len() == 0 ==> final(self).pos() == 0,
            final(self).storage() == old(self).storage(),
            final(self).capacity() == old(self).capacity(),
            final(self).max_cap() == old(self).max_cap(),
            final(self).init_cap() == old(self).init_cap(),
    {
        let count = if output.len() < self.length {
            output.len()
        } else {
            self.length
        };
        let cap = self.buffer.len();
        let ahead = cap - self.position;

        let mut copied: usize = 0;
        while copied < count
            invariant
                copied <= count,
                count as nat <= old(self)@.len(),
                count <= old(output)@.len(),
                *self == *old(self),
                self.inv(),
                cap == self.capacity(),
                ahead as nat == self.capacity() - self.pos(),
                output@.len() == old(output)@.len(),
                forall|k: int|
                    0 <= k < output@.len()
                        ==> #[trigger] output@[k] == (if 0 <= k < copied {
                        old(self)@[k]
                    } else {
                        old(output)@[k]
                    }),
            decreases count - copied,
        {
            let index = if copied < ahead {
                self.position + copied
            } else {
                copied - ahead
            };
            let byte = self.buffer[index];
            output.set(copied, byte);
            copied = copied + 1;
        }

        self.advance(count);
        proof {
            assert(output@ =~= old(self)@.take(count as int) + old(output)@.skip(count as int));
        }
        count
    }

    /// Snapshot of the read cursor: the read position and the unread byte
    /// count, to be handed back to `set_read_cursor` to roll a peek back.
    /// The snapshot satisfies the validity demands of `set_read_cursor` as
    /// long as the capacity has not changed in between.
    pub fn read_cursor(&self) -> (cursor: (usize, usize))
        requires
            self.inv(),
        ensures
            cursor.0 as nat == self.pos(),
            cursor.1 as nat == self@.len(),
            cursor.1 as nat <= self.capacity(),
            (cursor.0 as nat) < self.capacity() || cursor.0 == 0,
            cursor.1 == 0 ==> cursor.0 == 0,
    {
        (self.position, self.length)
    }

    /// Restore a read cursor previously obtained from `read_cursor`. The
    /// cursor must describe a valid window of the current storage, which a
    /// snapshot does as long as no resize happened in between.
    pub fn set_read_cursor(&mut self, cursor: (usize, usize))
        requires
            old(self).inv(),
            cursor.1 as nat <= old(self).capacity(),
            (cursor.0 as nat) < old(self).capacity() || cursor.0 == 0,
            cursor.1 == 0 ==> cursor.0 == 0,
        ensures
            final(self).inv(),
            final(self).pos() == cursor.0 as nat,
            final(self)@.len() == cursor.1 as nat,
            final(self)@ == wrapped_window(old(self).storage(), cursor.0 as int, cursor.1 as int),
            final(self).storage() == old(self).storage(),
            final(self).capacity() == old(self).capacity(),
            final(self).max_cap() == old(self).max_cap(),
            final(self).init_cap() == old(self).init_cap(),
    {
        self.position = cursor.0;
        self.length = cursor.1;
    }

    /// Read exactly `length` bytes into an owned vector, stitching the two
    /// contiguous spans on either side of a wraparound back together.
    pub fn read_exact_into_vec(&mut self, length: usize) -> (output: Vec<u8>)
        requires
            old(self).inv(),
            length as nat <= old(self)@.len(),
        ensures
            final(self).inv(),
            output@ == old(self)@.take(length as int),
            final(self)@ == old(self)@.skip(length as int),
            final(self)@.len() == 0 ==> final(self).pos() == 0,
            final(self).storage() == old(self).storage(),
            final(self).capacity() == old(self).capacity(),
            final(self).max_cap() == old(self).max_cap(),
            final(self).init_cap() == old(self).init_cap(),
    {
        let cap = self.buffer.len();
        let span = if self.length < cap - self.position {
            self.length
        } else {
            cap - self.position
        };
        let first_chunk = if length < span {
            length
        } else {
            span
        };

        let mut output: Vec<u8> = Vec::new();
        let mut copied: usize = 0;
        while copied < first_chunk
            invariant
                copied <= first_chunk,
                first_chunk as nat <= old(self).first_span_len(),
                first_chunk <= length,
                *self == *old(self),
                self.inv(),
                cap == self.capacity(),
                output@ == old(self)@.take(copied as int),
            decreases first_chunk - copied,
        {
            output.push(self.buffer[self.position + copied]);
            copied = copied + 1;
            proof {
                assert(output@ =~= old(self)@.take(copied as int));
            }
        }
        self.advance(first_chunk);

        let rest = length - first_chunk;
        let mut copied_rest: usize = 0;
        while copied_rest < rest
            invariant
                copied_rest <= rest,
                first_chunk + rest == length,
                length as nat <= old(self)@.len(),
                self.inv(),
                self@ == old(self)@.skip(first_chunk as int),
                rest > 0 ==> self.pos() == 0,
                rest as nat <= self@.len(),
                self.storage() == old(self).storage(),
                self.capacity() == old(self).capacity(),
                self.max_cap() == old(self).max_cap(),
                self.init_cap() == old(self).init_cap(),
                output@ == old(self)@.take(first_chunk + copied_rest),
            decreases rest - copied_rest,
        {
            proof {
                assert(self@[copied_rest as int] == self.storage()[copied_rest as int]);
            }
            output.push(self.buffer[copied_rest]);
            copied_rest = copied_rest + 1;
            proof {
                assert(output@ =~= old(self)@.take(first_chunk + copied_rest));
            }
        }
        self.advance(rest);

        proof {
            assert(final(self)@ =~= old(self)@.skip(length as int));
        }
        output
    }

    /// Capacity after `apply_soft_limit(limit)`: with the limit clamped to
    /// the hard ceiling, an empty buffer above the limit deallocates
    /// entirely; a buffer whose unread bytes fill at most half the limit,
    /// inside a storage of at least twice the limit, shrinks to the limit;
    /// anything else is left alone.
    pub closed spec fn soft_limit_target(self, limit: usize) -> nat {
        let clamped = vstd::math::min(limit as int, self.max_capacity as int);
        if self.length == 0 && self.buffer@.len() > clamped {
            0
        } else if self.length <= clamped / 2 && self.buffer@.len() >= 2 * clamped {
            clamped as nat
        } else {
            self.buffer@.len()
        }
    }

    /// Opportunistically shrink the storage towards `limit`. The hysteresis
    /// (shrink only when usage is at most half the target and the storage is
    /// at least twice the target) prevents growth/shrink oscillation under
    /// bursty load near the threshold.
    pub fn apply_soft_limit(&mut self, limit: usize)
        requires
            old(self).inv(),
        ensures
            final(self).inv(),
            final(self)@ == old(self)@,
            final(self).capacity() == old(self).soft_limit_target(limit),
            final(self).max_cap() == old(self).max_cap(),
            final(self).init_cap() == old(self).init_cap(),
            old(self).soft_limit_target(limit) == old(self).capacity() ==> *final(self) == *old(self),
            old(self).soft_limit_target(limit) != old(self).capacity() ==> final(self).pos() == 0
                && final(self).storage() == old(self)@ + zeros(
                    (old(self).soft_limit_target(limit) - old(self)@.len()) as nat,
                ),
    {
        let limit = if limit < self.max_capacity {
            limit
        } else {
            self.max_capacity
        };
        if self.length == 0 && self.buffer.len() > limit {
            self.buffer = Vec::new();
            self.position = 0;
            proof {
                assert(self@ =~= old(self)@);
                assert(self.storage() =~= old(self)@ + zeros(0));
            }
        } else if self.length <= limit / 2 && self.buffer.len() / 2 >= limit {
            self.resize_buffer(limit);
        }
    }

    /// The well-formedness that every operation establishes, spelled out:
    /// the unread byte count is bounded by the current capacity, the current
    /// capacity by the hard ceiling, the read position lies inside the
    /// storage, and an empty buffer sits at position 0. Since every method
    /// ensures `inv`, all of this holds after every call.
    pub proof fn lemma_invariant_bounds(self)
        requires
            self.inv(),
        ensures
            self@.len() <= self.capacity(),
            self.capacity() <= self.max_cap(),
            self.init_cap() <= self.max_cap(),
            self.pos() < self.capacity() || self.pos() == 0,
            self@.len() == 0 ==> self.pos() == 0,
    {
    }

    /// The readable bytes are exactly the wrapped window of the storage that
    /// the read cursor delimits.
    pub proof fn lemma_view_is_window(self)
        ensures
            self@ == wrapped_window(self.storage(), self.pos() as int, self@.len() as int),
    {
        assert(self@ =~= wrapped_window(self.storage(), self.pos() as int, self@.len() as int));
    }

    /// The first readable span runs to the end of the data or of the storage,
    /// whichever comes first.
    pub proof fn lemma_first_span_len(self)
        requires
            self.inv(),
        ensures
            self.first_span_len() as int == vstd::math::min(
                self@.len() as int,
                self.capacity() as int - self.pos() as int,
            ),
    {
    }

    /// The next written byte lands just past the readable data, modulo the
    /// capacity.
    pub proof fn lemma_write_start(self)
        requires
            self.inv(),
        ensures
            self.write_start() as int == (if self.pos() + self@.len() < self.capacity() {
                self.pos() as int + self@.len() as int
            } else {
                self.pos() as int + self@.len() as int - self.capacity() as int
            }),
    {
    }

    /// The contiguous writable span runs from the write start to the end of
    /// the free space or of the storage, whichever comes first.
    pub proof fn lemma_write_span_len(self)
        requires
            self.inv(),
        ensures
            self.write_span_len() as int == vstd::math::min(
                self.capacity() as int - self@.len() as int,
                self.capacity() as int - self.write_start() as int,
            ),
    {
    }

    /// A growth step doubles the capacity, with a floor of
    /// `MINIMUM_NON_EMPTY_CAPACITY` and of the initial capacity, clamped to
    /// the hard ceiling.
    pub proof fn lemma_grow_target(self)
        ensures
            self.grow_target() as int == vstd::math::min(
                self.max_cap() as int,
                vstd::math::max(
                    2 * self.capacity() as int,
                    vstd::math::max(MINIMUM_NON_EMPTY_CAPACITY as int, self.init_cap() as int),
                ),
            ),
    {
    }

    /// What one `write` call accepts: the contiguous writable span when free
    /// space remains, the whole free part of a grown storage when the storage
    /// is full but the hard ceiling is not reached, and nothing otherwise.
    pub proof fn lemma_writable_now(self)
        requires
            self.inv(),
        ensures
            self.writable_now() as int == (if self@.len() < self.capacity() {
                self.write_span_len() as int
            } else if self@.len() < self.max_cap() {
                self.grow_target() as int - self@.len() as int
            } else {
                0int
            }),
    {
    }

    /// The capacity `apply_soft_limit` moves to: with the limit clamped to
    /// the hard ceiling, an empty buffer above the limit deallocates, a
    /// buffer at most half full relative to the limit inside a storage of at
    /// least twice the limit shrinks to it, and anything else keeps its
    /// capacity.
    pub proof fn lemma_soft_limit_target(self, limit: usize)
        ensures
            self.soft_limit_target(limit) as int == ({
                let clamped = vstd::math::min(limit as int, self.max_cap() as int);
                if self@.len() == 0 && self.capacity() > clamped {
                    0int
                } else if self@.len() <= clamped / 2 && self.capacity() >= 2 * clamped {
                    clamped
                } else {
                    self.capacity() as int
                }
            }),
    {
    }
}

/// Round trip: `write` makes the readable bytes `prior + written` (when all
/// of `written` fits), and reading hands out prefixes and keeps suffixes; so
/// once the `prior` bytes are consumed, reading `written.len()` bytes yields
/// `written` exactly, wherever the data sat inside the storage.
pub proof fn lemma_round_trip(prior: Seq<u8>, written: Seq<u8>)
    ensures
        (prior + written).skip(prior.len() as int) == written,
        (prior + written).take(prior.len() as int) == prior,
{
    assert((prior + written).skip(prior.len() as int) =~= written);
    assert((prior + written).take(prior.len() as int) =~= prior);
}

/// Peek-then-rollback: the readable bytes are a function of the storage and
/// the read cursor alone. Restoring a snapshot of the cursor onto a buffer
/// whose storage has not changed in between (no resize happened) restores
/// exactly the readable bytes of snapshot time.
pub proof fn lemma_snapshot_restore(snapshot: CircularBuffer, restored: CircularBuffer)
    requires
        restored.storage() == snapshot.storage(),
        restored.pos() == snapshot.pos(),
        restored@.len() == snapshot@.len(),
    ensures
        restored@ == snapshot@,
{
    assert(restored@ =~= snapshot@);
}

/// Copy `count` bytes of `source`, starting at `source_start`, into
/// `destination`, starting at `destination_start`.
fn copy_bytes(
    destination: &mut Vec<u8>,
    destination_start: usize,
    source: &Vec<u8>,
    source_start: usize,
    count: usize,
)
    requires
        destination_start + count <= old(destination)@.len(),
        source_start + count <= source@.len(),
    ensures
        final(destination)@.len() == old(destination)@.len(),
        forall|i: int|
            0 <= i < old(destination)@.len() ==> final(destination)@[i] == (
            if destination_start <= i < destination_start + count {
                source@[i - destination_start + source_start]
            } else {
                old(destination)@[i]
            }),
{
    let destination_len = destination.len();
    let source_len = source.len();
    let mut copied: usize = 0;
    while copied < count
        invariant
            copied <= count,
            destination_start + count <= destination_len,
            source_start + count <= source_len,
            destination_len == old(destination)@.len(),
            source_len == source@.len(),
            destination@.len() == old(destination)@.len(),
            forall|i: int|
                0 <= i < old(destination)@.len() ==> destination@[i] == (
                if destination_start <= i < destination_start + copied {
                    source@[i - destination_start + source_start]
                } else {
                    old(destination)@[i]
                }),
        decreases count - copied,
    {
        destination.set(destination_start + copied, source[source_start + copied]);
        copied = copied + 1;
    }
}

/// A vector of `count` zero bytes.
fn zeroed_vec(count: usize) -> (result: Vec<u8>)
    ensures
        result@ == zeros(count as nat),
{
    let mut result: Vec<u8> = Vec::new();
    while result.len() < count
        invariant
            result@.len() <= count,
            result@ == zeros(result@.len()),
        decreases count - result@.len(),
    {
        result.push(0);
        proof {
            assert(result@ =~= zeros(result@.len()));
        }
    }
    proof {
        assert(result@ =~= zeros(count as nat));
    }
    result
}

} // verus!

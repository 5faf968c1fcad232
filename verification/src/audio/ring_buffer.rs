//! Single-producer single-consumer ring buffer for audio samples.
//!
//! One slot is kept free to tell a full buffer from an empty one.

use vstd::prelude::*;

verus! {

/// Slot `k` places after slot `r` in a ring of `cap` slots (`r < cap`, `k < cap`).
pub open spec fn slot(r: int, k: int, cap: int) -> int {
    if r + k < cap { r + k } else { r + k - cap }
}

/// The smaller of two integers.
pub open spec fn min_int(a: int, b: int) -> int {
    if a < b { a } else { b }
}

/// A ring buffer of samples.
pub struct RingBuffer<T> {
    buffer: Vec<T>,
    capacity: usize,
    read_pos: usize,
    write_pos: usize,
    /// Every sample that writes accepted, in order.
    written: Ghost<Seq<T>>,
    /// How many of them have been read or cleared.
    consumed: Ghost<nat>,
}

impl<T: Copy + Default> RingBuffer<T> {
    /// Number of queued samples.
    pub closed spec fn queued_len(&self) -> int {
        if self.write_pos >= self.read_pos {
            self.write_pos - self.read_pos
        } else {
            self.capacity - self.read_pos + self.write_pos
        }
    }

    /// The samples waiting to be read, oldest first.
    pub closed spec fn queued(&self) -> Seq<T> {
        Seq::new(self.queued_len() as nat, |k: int| self.buffer@[slot(self.read_pos as int, k, self.capacity as int)])
    }

    /// Every sample that the buffer's writes have accepted, oldest first.
    pub closed spec fn history(&self) -> Seq<T> {
        self.written@
    }

    /// How many of the accepted samples have left the buffer (read or cleared).
    pub closed spec fn consumed_count(&self) -> nat {
        self.consumed@
    }

    /// Most samples the buffer can hold.
    pub closed spec fn limit(&self) -> nat {
        (self.capacity - 1) as nat
    }

    /// Internal consistency of the positions and storage.
    pub closed spec fn wf(&self) -> bool {
        &&& self.capacity >= 1
        &&& self.buffer@.len() == self.capacity
        &&& self.read_pos < self.capacity
        &&& self.write_pos < self.capacity
        &&& holds_unread(self.queued(), self.written@, self.consumed@)
    }

    /// Create a buffer that holds up to `capacity` samples.
    pub fn new(capacity: usize) -> (rb: Self)
        requires
            capacity < usize::MAX,
        ensures
            rb.wf(),
            rb.queued() == Seq::<T>::empty(),
            rb.limit() == capacity,
            rb.history() == Seq::<T>::empty(),
            rb.consumed_count() == 0,
    {
        let actual_cap = capacity + 1;
        let mut buffer: Vec<T> = Vec::new();
        let mut i: usize = 0;
        while i < actual_cap
            invariant
                i <= actual_cap,
                buffer@.len() == i,
            decreases actual_cap - i,
        {
            buffer.push(T::default());
            i = i + 1;
        }
        let rb = RingBuffer {
            buffer,
            capacity: actual_cap,
            read_pos: 0,
            write_pos: 0,
            written: Ghost(Seq::empty()),
            consumed: Ghost(0),
        };
        assert(rb.queued() =~= Seq::<T>::empty());
        assert(Seq::<T>::empty().skip(0) =~= Seq::<T>::empty());
        rb
    }

    /// Number of samples available for reading.
    pub fn available_read(&self) -> (n: usize)
        requires
            self.wf(),
        ensures
            n == self.queued().len(),
            n == self.history().len() - self.consumed_count(),
    {
        let w = self.write_pos;
        let r = self.read_pos;
        if w >= r {
            w - r
        } else {
            self.capacity - r + w
        }
    }

    /// Number of samples that can be written.
    pub fn available_write(&self) -> (n: usize)
        requires
            self.wf(),
        ensures
            n == self.limit() - self.queued().len(),
    {
        self.capacity - 1 - self.available_read()
    }

    /// Write samples; as many as fit are taken from the front of `data`.
    /// Returns how many were written.
    pub fn write(&mut self, data: &[T]) -> (count: usize)
        requires
            old(self).wf(),
        ensures
            final(self).wf(),
            final(self).limit() == old(self).limit(),
            count == min_int(data@.len() as int, old(self).limit() - old(self).queued().len()),
            final(self).queued() == old(self).queued() + data@.take(count as int),
            final(self).history() == old(self).history() + data@.take(count as int),
            final(self).consumed_count() == old(self).consumed_count(),
    {
        let available = self.available_write();
        let count = if data.len() < available { data.len() } else { available };
        if count == 0 {
            assert(data@.take(0) =~= Seq::<T>::empty());
            assert(old(self).queued() + data@.take(0) =~= old(self).queued());
            assert(self.written@ + data@.take(0) =~= self.written@);
            return 0;
        }
        let ghost q = self.queued();
        let ghost len = q.len() as int;
        let ghost cap = self.capacity as int;
        let ghost r = self.read_pos as int;
        let w = self.write_pos;
        assert(w == slot(r, len, cap));
        let mut pos = w;
        let mut j: usize = 0;
        while j < count
            invariant
                self.capacity == cap,
                self.buffer@.len() == cap,
                self.written == old(self).written,
                self.consumed == old(self).consumed,
                holds_unread(q, self.written@, self.consumed@),
                self.read_pos == r,
                self.write_pos == w,
                0 <= r < cap,
                0 <= len,
                len + count < cap,
                count <= data@.len(),
                j <= count,
                pos == slot(w as int, j as int, cap),
                pos < cap,
                w == slot(r, len, cap),
                forall|k: int| 0 <= k < len ==> #[trigger] self.buffer@[slot(r, k, cap)] == q[k],
                forall|i: int| 0 <= i < j ==> #[trigger] self.buffer@[slot(r, len + i, cap)] == data@[i],
            decreases count - j,
        {
            let ghost before = self.buffer@;
            self.buffer.set(pos, data[j]);
            proof {
                assert forall|k: int| 0 <= k < len implies #[trigger] self.buffer@[slot(r, k, cap)] == q[k] by {
                    assert(slot(r, k, cap) != pos);
                    assert(self.buffer@[slot(r, k, cap)] == before[slot(r, k, cap)]);
                }
                assert forall|i: int| 0 <= i < j + 1 implies #[trigger] self.buffer@[slot(r, len + i, cap)] == data@[i] by {
                    if i < j {
                        assert(slot(r, len + i, cap) != pos);
                        assert(self.buffer@[slot(r, len + i, cap)] == before[slot(r, len + i, cap)]);
                    }
                }
            }
            pos = if pos + 1 == self.capacity { 0 } else { pos + 1 };
            j = j + 1;
        }
        self.write_pos = pos;
        proof {
            lemma_fifo(q, self.written@, self.consumed@, data@, count as nat);
        }
        self.written = Ghost(self.written@ + data@.take(count as int));
        proof {
            assert(pos == slot(r, len + count, cap));
            assert(self.queued_len() == len + count);
            let expect = q + data@.take(count as int);
            assert forall|k: int| 0 <= k < len + count implies #[trigger] self.queued()[k] == expect[k] by {
                if k >= len {
                    let i = k - len;
                    assert(self.buffer@[slot(r, len + i, cap)] == data@[i]);
                }
            }
            assert(self.queued() =~= expect);
        }
        count
    }

    /// Read samples into the front of `output`; returns how many were read.
    /// The rest of `output` is left as it was.
    pub fn read(&mut self, output: &mut [T]) -> (count: usize)
        requires
            old(self).wf(),
        ensures
            final(self).wf(),
            final(self).limit() == old(self).limit(),
            count == min_int(old(output)@.len() as int, old(self).queued().len() as int),
            final(output)@.len() == old(output)@.len(),
            final(output)@.take(count as int) == old(self).queued().take(count as int),
            final(output)@.skip(count as int) == old(output)@.skip(count as int),
            final(self).queued() == old(self).queued().skip(count as int),
            count == min_int(
                old(output)@.len() as int,
                old(self).history().len() - old(self).consumed_count(),
            ),
            final(output)@.take(count as int) == old(self).history().subrange(
                old(self).consumed_count() as int,
                old(self).consumed_count() + count,
            ),
            final(self).history() == old(self).history(),
            final(self).consumed_count() == old(self).consumed_count() + count,
    {
        let available = self.available_read();
        let count = if output.len() < available { output.len() } else { available };
        if count == 0 {
            proof {
                assert(output@.take(0) =~= self.queued().take(0));
                assert(output@.skip(0) =~= output@);
                assert(self.queued().skip(0) =~= self.queued());
                assert(self.written@.subrange(self.consumed@ as int, self.consumed@ as int)
                    =~= self.queued().take(0));
            }
            return 0;
        }
        let ghost q = self.queued();
        let ghost cap = self.capacity as int;
        let ghost r0 = self.read_pos as int;
        let ghost out0 = output@;
        let mut pos = self.read_pos;
        let mut j: usize = 0;
        while j < count
            invariant
                self.wf(),
                self.capacity == cap,
                self.written == old(self).written,
                self.consumed == old(self).consumed,
                self.read_pos == r0,
                self.queued() == q,
                0 <= r0 < cap,
                count <= q.len(),
                count <= output@.len(),
                output@.len() == out0.len(),
                q.len() < cap,
                j <= count,
                pos == slot(r0, j as int, cap),
                pos < cap,
                forall|i: int| 0 <= i < j ==> #[trigger] output@[i] == q[i],
                forall|i: int| j <= i < output@.len() ==> #[trigger] output@[i] == out0[i],
            decreases count - j,
        {
            output[j] = self.buffer[pos];
            pos = if pos + 1 == self.capacity { 0 } else { pos + 1 };
            j = j + 1;
        }
        proof {
            lemma_fifo(q, self.written@, self.consumed@, q, count as nat);
        }
        self.read_pos = pos;
        self.consumed = Ghost(self.consumed@ + count as nat);
        proof {
            assert(output@.take(count as int) =~= q.take(count as int));
            assert(output@.skip(count as int) =~= out0.skip(count as int));
            assert(self.queued() =~= q.skip(count as int));
        }
        count
    }

    /// Drop every queued sample.
    pub fn clear(&mut self)
        requires
            old(self).wf(),
        ensures
            final(self).wf(),
            final(self).limit() == old(self).limit(),
            final(self).queued() == Seq::<T>::empty(),
            final(self).history() == old(self).history(),
            final(self).consumed_count() == old(self).history().len(),
    {
        self.read_pos = self.write_pos;
        self.consumed = Ghost(self.written@.len());
        assert(self.queued() =~= Seq::<T>::empty());
        assert(self.written@.skip(self.written@.len() as int) =~= Seq::<T>::empty());
    }
}


/// The queue of a buffer after a history of calls: of all the samples its
/// writes accepted (`written`, in order), those not yet read (the first
/// `consumed` were).
pub open spec fn holds_unread<T>(queued: Seq<T>, written: Seq<T>, consumed: nat) -> bool {
    consumed <= written.len() && queued == written.skip(consumed as int)
}

/// The buffer is first in, first out across its whole history, wrap-around
/// included. Suppose the queue holds the accepted samples not yet read. A
/// write that accepts `count` samples of `data` (as `write` states: the queue
/// gains `data.take(count)`) keeps that so, with those samples added to the
/// accepted ones. A read of `count` samples (as `read` states: it returns the
/// queue's first `count` and drops them) returns exactly the accepted samples
/// `consumed .. consumed + count` and keeps that so.
pub proof fn lemma_fifo<T>(queued: Seq<T>, written: Seq<T>, consumed: nat, data: Seq<T>, count: nat)
    requires
        holds_unread(queued, written, consumed),
    ensures
        count <= data.len() ==> holds_unread(
            queued + data.take(count as int),
            written + data.take(count as int),
            consumed,
        ),
        count <= queued.len() ==> queued.take(count as int) == written.subrange(
            consumed as int,
            (consumed + count) as int,
        ) && holds_unread(queued.skip(count as int), written, consumed + count),
{
    if count <= data.len() {
        assert(queued + data.take(count as int) =~= (written + data.take(count as int)).skip(consumed as int));
    }
    if count <= queued.len() {
        assert(queued.take(count as int) =~= written.subrange(consumed as int, (consumed + count) as int));
        assert(queued.skip(count as int) =~= written.skip((consumed + count) as int));
    }
}

} // verus!

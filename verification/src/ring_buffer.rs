//! A pre-allocated single-producer / single-consumer ring buffer for audio
//! samples.
//!
//! All storage is allocated up front so writing never allocates. One slot is
//! always left empty to tell a full buffer from an empty one, so at most
//! `BUFFER_SIZE - 1` samples are held at a time.
use vstd::prelude::*;

verus! {

/// Ring buffer size: about four seconds at 16 kHz mono.
pub const BUFFER_SIZE: usize = 65536;

/// Fold a position in `[0, 2 * BUFFER_SIZE)` back into the buffer.
pub open spec fn wrap(x: int) -> int {
    if x >= BUFFER_SIZE { x - BUFFER_SIZE } else { x }
}

/// The samples held after writing `samples` to a buffer holding `held`: as
/// many as fit (one slot always stays free) are appended in order.
pub open spec fn after_write<T>(held: Seq<T>, samples: Seq<T>) -> Seq<T> {
    held + samples.take(spec_accepted(held.len() as int, samples.len() as int))
}

/// How many of `offered` samples fit beside `held` samples.
pub open spec fn spec_accepted(held: int, offered: int) -> int {
    let room = BUFFER_SIZE - 1 - held;
    if offered <= room { offered } else { room }
}

/// A lock-free-style single-producer single-consumer ring buffer.
pub struct AudioRingBuffer<T> {
    buffer: Vec<T>,
    write_pos: usize,
    read_pos: usize,
}

impl<T: Copy> View for AudioRingBuffer<T> {
    type V = Seq<T>;

    /// The samples available for reading, oldest first.
    closed spec fn view(&self) -> Seq<T> {
        Seq::new(self.spec_available(), |i: int| self.buffer@[wrap(self.read_pos + i)])
    }
}

impl<T: Copy> AudioRingBuffer<T> {
    /// Number of samples available for reading.
    closed spec fn spec_available(&self) -> nat {
        if self.write_pos >= self.read_pos {
            (self.write_pos - self.read_pos) as nat
        } else {
            (BUFFER_SIZE - self.read_pos + self.write_pos) as nat
        }
    }

    /// The buffer's positions are in range and its storage is allocated.
    pub closed spec fn wf(&self) -> bool {
        &&& self.buffer@.len() == BUFFER_SIZE
        &&& self.write_pos < BUFFER_SIZE
        &&& self.read_pos < BUFFER_SIZE
    }

    /// Create a new ring buffer with pre-allocated storage, every slot holding
    /// `fill` until written.
    pub fn new(fill: T) -> (r: Self)
        ensures
            r.wf(),
            r@ == Seq::<T>::empty(),
    {
        let mut buffer: Vec<T> = Vec::with_capacity(BUFFER_SIZE);
        let mut i: usize = 0;
        while i < BUFFER_SIZE
            invariant
                i <= BUFFER_SIZE,
                buffer@.len() == i,
            decreases BUFFER_SIZE - i,
        {
            buffer.push(fill);
            i = i + 1;
        }
        let r = AudioRingBuffer { buffer, write_pos: 0, read_pos: 0 };
        assert(r@ =~= Seq::<T>::empty());
        r
    }

    /// Returns the total capacity of the buffer.
    pub fn capacity(&self) -> (r: usize)
        ensures
            r == BUFFER_SIZE,
    {
        BUFFER_SIZE
    }

    /// Returns the number of samples available for reading.
    pub fn available(&self) -> (r: usize)
        requires
            self.wf(),
        ensures
            r == self@.len(),
            r < BUFFER_SIZE,
    {
        if self.write_pos >= self.read_pos {
            self.write_pos - self.read_pos
        } else {
            BUFFER_SIZE - self.read_pos + self.write_pos
        }
    }

    /// Write samples to the buffer. Returns how many were written: all of
    /// them if they fit, otherwise as many as fit while one slot stays free.
    pub fn write(&mut self, samples: &[T]) -> (n: usize)
        requires
            old(self).wf(),
        ensures
            final(self).wf(),
            n == spec_accepted(old(self)@.len() as int, samples@.len() as int),
            final(self)@ == after_write(old(self)@, samples@),
    {
        let write = self.write_pos;
        let read = self.read_pos;
        let available = if write >= read {
            BUFFER_SIZE - (write - read) - 1
        } else {
            read - write - 1
        };
        let to_write = if samples.len() <= available { samples.len() } else { available };
        if to_write == 0 {
            assert(samples@.take(0) =~= Seq::<T>::empty());
            assert(self@ =~= after_write(old(self)@, samples@));
            return 0;
        }
        let ghost old_buf = self.buffer@;
        let ghost held = self.spec_available();
        let mut i: usize = 0;
        while i < to_write
            invariant
                self.read_pos == read,
                self.write_pos == write,
                write < BUFFER_SIZE,
                read < BUFFER_SIZE,
                to_write <= samples@.len(),
                held + to_write <= BUFFER_SIZE - 1,
                write == wrap(read + held),
                i <= to_write,
                self.buffer@.len() == BUFFER_SIZE,
                forall|k: int|
                    0 <= k < BUFFER_SIZE ==> #[trigger] self.buffer@[k] == {
                        let off = if k >= write { k - write } else { k + BUFFER_SIZE - write };
                        if off < i { samples@[off] } else { old_buf[k] }
                    },
            decreases to_write - i,
        {
            let t = write + i;
            let idx = if t >= BUFFER_SIZE { t - BUFFER_SIZE } else { t };
            self.buffer.set(idx, samples[i]);
            i = i + 1;
        }
        let t = write + to_write;
        self.write_pos = if t >= BUFFER_SIZE { t - BUFFER_SIZE } else { t };
        let ghost expected = after_write(old(self)@, samples@);
        assert(self.spec_available() == held + to_write);
        assert forall|j: int| 0 <= j < expected.len() implies #[trigger] self@[j] == expected[j] by {
            if j < held {
                assert(self@[j] == self.buffer@[wrap(read + j)]);
            } else {
                assert(self@[j] == self.buffer@[wrap(read + j)]);
            }
        }
        assert(self@ =~= expected);
        to_write
    }

    /// Read samples into `output`. Returns how many were read: as many as
    /// `output` holds, or all that are available if fewer. Slots of `output`
    /// past that count are left unchanged.
    pub fn read(&mut self, output: &mut [T]) -> (n: usize)
        requires
            old(self).wf(),
        ensures
            final(self).wf(),
            n as int == if old(output)@.len() <= old(self)@.len() { old(output)@.len() as int } else { old(self)@.len() as int },
            final(output)@.len() == old(output)@.len(),
            final(output)@.take(n as int) == old(self)@.take(n as int),
            final(output)@.skip(n as int) == old(output)@.skip(n as int),
            final(self)@ == old(self)@.skip(n as int),
    {
        let write = self.write_pos;
        let read = self.read_pos;
        let available = if write >= read { write - read } else { BUFFER_SIZE - read + write };
        let to_read = if output.len() <= available { output.len() } else { available };
        if to_read == 0 {
            assert(self@ =~= old(self)@.skip(0));
            assert(output@.take(0) =~= old(self)@.take(0));
            assert(output@.skip(0) =~= old(output)@.skip(0));
            return 0;
        }
        let ghost held = self@;
        let mut i: usize = 0;
        while i < to_read
            invariant
                self.read_pos == read,
                self.write_pos == write,
                self.wf(),
                held == self@,
                to_read <= held.len(),
                to_read <= output@.len(),
                output@.len() == old(output)@.len(),
                i <= to_read,
                forall|j: int| 0 <= j < i ==> #[trigger] output@[j] == held[j],
                forall|j: int| i <= j < output@.len() ==> #[trigger] output@[j] == old(output)@[j],
            decreases to_read - i,
        {
            let t = read + i;
            let idx = if t >= BUFFER_SIZE { t - BUFFER_SIZE } else { t };
            output[i] = self.buffer[idx];
            i = i + 1;
        }
        let t = read + to_read;
        self.read_pos = if t >= BUFFER_SIZE { t - BUFFER_SIZE } else { t };
        assert(output@.take(to_read as int) =~= held.take(to_read as int));
        assert(output@.skip(to_read as int) =~= old(output)@.skip(to_read as int));
        assert forall|j: int| 0 <= j < held.len() - to_read implies #[trigger] self@[j] == held.skip(to_read as int)[j] by {
            assert(self@[j] == self.buffer@[wrap(self.read_pos + j)]);
            assert(held[j + to_read] == self.buffer@[wrap(read + j + to_read)]);
        }
        assert(self@ =~= held.skip(to_read as int));
        to_read
    }

    /// Read all available samples into a new vector, leaving the buffer empty.
    pub fn read_all(&mut self) -> (out: Vec<T>)
        requires
            old(self).wf(),
        ensures
            final(self).wf(),
            out@ == old(self)@,
            final(self)@ == Seq::<T>::empty(),
    {
        let n = self.available();
        let mut out: Vec<T> = Vec::with_capacity(n);
        let read = self.read_pos;
        let ghost held = self@;
        let mut i: usize = 0;
        while i < n
            invariant
                self.wf(),
                self.read_pos == read,
                held == self@,
                n == held.len(),
                i <= n,
                out@ == held.take(i as int),
            decreases n - i,
        {
            let t = read + i;
            let idx = if t >= BUFFER_SIZE { t - BUFFER_SIZE } else { t };
            out.push(self.buffer[idx]);
            assert(out@ =~= held.take(i + 1));
            i = i + 1;
        }
        self.read_pos = self.write_pos;
        assert(held.take(n as int) =~= held);
        assert(self@ =~= Seq::<T>::empty());
        out
    }

    /// Clear the buffer.
    pub fn clear(&mut self)
        requires
            old(self).wf(),
        ensures
            final(self).wf(),
            final(self)@ == Seq::<T>::empty(),
    {
        self.read_pos = self.write_pos;
        assert(self@ =~= Seq::<T>::empty());
    }
}

/// Samples come out in the order they went in: writing `first` then `second`
/// to an empty buffer and reading everything back yields `first` followed by
/// `second`, as long as they fit.
pub proof fn lemma_fifo_round_trip<T>(first: Seq<T>, second: Seq<T>)
    requires
        first.len() + second.len() <= BUFFER_SIZE - 1,
    ensures
        after_write(after_write(Seq::<T>::empty(), first), second) == first + second,
{
    assert(first.take(first.len() as int) =~= first);
    assert(Seq::<T>::empty() + first =~= first);
    assert(second.take(second.len() as int) =~= second);
}

/// The buffer never holds more than `BUFFER_SIZE - 1` samples, and a write is
/// refused only for the samples that do not fit.
pub proof fn lemma_write_keeps_room<T>(held: Seq<T>, samples: Seq<T>)
    requires
        held.len() <= BUFFER_SIZE - 1,
    ensures
        after_write(held, samples).len() <= BUFFER_SIZE - 1,
        samples.len() <= BUFFER_SIZE - 1 - held.len() ==> after_write(held, samples) == held + samples,
{
    if samples.len() <= BUFFER_SIZE - 1 - held.len() {
        assert(samples.take(samples.len() as int) =~= samples);
    }
}

} // verus!

//! A delay line over bytes: a ring of samples in which each sample written is
//! read back a fixed number of steps later.
use vstd::prelude::*;
use vstd::arithmetic::div_mod::{lemma_small_mod, lemma_mod_self_0};

verus! {

/// How a delay line feeds its output back.
pub enum DelayMode {
    /// Flat frequency feedback.
    Allpass,
    /// Basic feedback.
    Comb,
}

/// `i` brought back into `[0, s)` when it lies in `[0, 2s)`.
pub open spec fn wrap(i: int, s: int) -> int {
    if i < s {
        i
    } else {
        i - s
    }
}

/// The samples waiting in the ring, `pending[0]` next out, after one write of
/// `v` at `delay` and one step: the write lands `delay` places ahead, then the
/// ring turns by one.
pub open spec fn advanced(pending: Seq<u8>, delay: int, v: u8) -> Seq<u8> {
    let written = pending.update(delay, v);
    written.drop_first().push(written[0])
}

/// The byte that a write of `input` with `feedback` added stores (wrapping at 256).
pub open spec fn wrapped_sum(input: u8, feedback: u8) -> u8 {
    ((input as int + feedback as int) % 256) as u8
}

/// `size` zero samples.
pub open spec fn silence(size: int) -> Seq<u8> {
    Seq::new(size as nat, |i: int| 0u8)
}

/// A ring of `size` byte samples read at one index and written at another,
/// `delay` places ahead.
pub struct SimpleRingBuffer {
    buffer: Vec<u8>,
    read_index: usize,
    write_index: usize,
    size: usize,
}

impl SimpleRingBuffer {
    /// The indices lie in a ring of at least one sample.
    pub closed spec fn wf(&self) -> bool {
        &&& self.size > 0
        &&& self.buffer@.len() == self.size
        &&& self.read_index < self.size
        &&& self.write_index < self.size
    }

    /// The number of samples in the ring.
    pub closed spec fn spec_size(&self) -> int {
        self.size as int
    }

    /// How many steps after its write a sample is read.
    pub closed spec fn spec_delay(&self) -> int {
        if self.write_index >= self.read_index {
            self.write_index - self.read_index
        } else {
            self.write_index + self.size - self.read_index
        }
    }

    /// The samples of the ring in the order they will be read, next one first.
    pub closed spec fn pending(&self) -> Seq<u8> {
        Seq::new(
            self.size as nat,
            |i: int| self.buffer@[wrap(self.read_index + i, self.size as int)],
        )
    }

    /// A silent ring of `size` samples with a delay of `delay` samples.
    pub fn new(size: usize, delay: usize) -> (ring: Self)
        requires
            delay < size,
        ensures
            ring.wf(),
            ring.spec_size() == size,
            ring.spec_delay() == delay,
            ring.pending() == silence(size as int),
    {
        let ring = Self { buffer: vec![0u8; size], read_index: 0, write_index: delay, size };
        assert(ring.pending() =~= silence(size as int));
        ring
    }

    /// The sample that the next step reads.
    pub fn current_output(&self) -> (sample: u8)
        requires
            self.wf(),
        ensures
            sample == self.pending()[0],
    {
        self.buffer[self.read_index]
    }

    /// Writes `input` plus `feedback` (wrapping at 256) `delay` places ahead
    /// of the read index and moves both indices one place on; returns whether
    /// they now meet, which happens exactly when the delay is zero.
    pub fn advance(&mut self, input: u8, feedback: u8) -> (met: bool)
        requires
            old(self).wf(),
        ensures
            final(self).wf(),
            final(self).pending() == advanced(old(self).pending(), old(self).spec_delay(), wrapped_sum(input, feedback)),
            final(self).spec_delay() == old(self).spec_delay(),
            final(self).spec_size() == old(self).spec_size(),
            met == (old(self).spec_delay() == 0),
    {
        let ghost before = self.pending();
        let ghost delay = self.spec_delay();
        let to_write = input.wrapping_add(feedback);
        let write_index = self.write_index;
        self.buffer.set(write_index, to_write);
        self.increment();
        proof {
            let s = self.size as int;
            let written = before.update(delay, to_write);
            assert forall|i: int| 0 <= i < s implies #[trigger] self.pending()[i] == written.drop_first().push(written[0])[i] by {
                if i < s - 1 {
                    assert(wrap(self.read_index + i, s) == wrap(old(self).read_index + i + 1, s));
                } else {
                    assert(wrap(self.read_index + i, s) == old(self).read_index);
                }
            }
            assert(self.pending() =~= advanced(before, delay, wrapped_sum(input, feedback)));
        }
        self.read_index == self.write_index
    }

    fn increment(&mut self)
        requires
            old(self).size > 0,
            old(self).buffer@.len() == old(self).size,
            old(self).read_index < old(self).size,
            old(self).write_index < old(self).size,
        ensures
            final(self).read_index == wrap(old(self).read_index + 1, old(self).size as int),
            final(self).write_index == wrap(old(self).write_index + 1, old(self).size as int),
            final(self).size == old(self).size,
            final(self).buffer == old(self).buffer,
    {
        proof {
            lemma_wrap_step(self.read_index as int, self.size as int);
            lemma_wrap_step(self.write_index as int, self.size as int);
        }
        self.read_index = (self.read_index + 1) % self.size;
        self.write_index = (self.write_index + 1) % self.size;
    }

    /// Silences every sample of the ring.
    pub fn flush(&mut self)
        requires
            old(self).wf(),
        ensures
            final(self).wf(),
            final(self).pending() == silence(old(self).spec_size()),
            final(self).spec_delay() == old(self).spec_delay(),
            final(self).spec_size() == old(self).spec_size(),
    {
        let mut i: usize = 0;
        while i < self.size
            invariant
                self.size > 0,
                self.buffer@.len() == self.size,
                self.read_index < self.size,
                self.write_index < self.size,
                self.size == old(self).size,
                self.read_index == old(self).read_index,
                self.write_index == old(self).write_index,
                i <= self.size,
                forall|j: int| 0 <= j < i ==> #[trigger] self.buffer@[j] == 0u8,
            decreases self.size - i,
        {
            self.buffer.set(i, 0u8);
            i = i + 1;
        }
        assert(self.pending() =~= silence(self.size as int));
    }

    /// Sets the delay to `delay` samples, held below the ring size, and
    /// silences the ring.
    pub fn set_delay(&mut self, delay: usize)
        requires
            old(self).wf(),
        ensures
            final(self).wf(),
            final(self).spec_delay() == if delay < old(self).spec_size() {
                delay as int
            } else {
                old(self).spec_size() - 1
            },
            final(self).spec_size() == old(self).spec_size(),
            final(self).pending() == silence(old(self).spec_size()),
    {
        let mut delay = delay;
        if delay >= self.size {
            delay = self.size - 1;
        }
        self.read_index = 0;
        self.write_index = delay;
        self.flush();
    }
}

/// `(i + 1) % s` steps `i` on by one place round a ring of `s`.
proof fn lemma_wrap_step(i: int, s: int)
    requires
        0 <= i < s,
    ensures
        (i + 1) % s == wrap(i + 1, s),
{
    if i + 1 < s {
        lemma_small_mod((i + 1) as nat, s as nat);
    } else {
        lemma_mod_self_0(s);
    }
}

/// The samples waiting in a ring with `pending` waiting and a delay of
/// `delay`, after `values` have been written one step each, in order.
pub open spec fn after_writes(pending: Seq<u8>, delay: int, values: Seq<u8>) -> Seq<u8>
    decreases values.len(),
{
    if values.len() == 0 {
        pending
    } else {
        advanced(after_writes(pending, delay, values.drop_last()), delay, values.last())
    }
}

/// What a delay line writes is what it reads `delay` steps later: after
/// `values` have been written, the sample `i` places from the front is the one
/// written `delay - i` steps ago, for every `i` below the delay reaching back
/// no further than the first write; the ring keeps its size.
pub proof fn law_read_back_after_delay(pending: Seq<u8>, delay: int, values: Seq<u8>)
    requires
        1 <= delay < pending.len(),
    ensures
        after_writes(pending, delay, values).len() == pending.len(),
        forall|i: int|
            0 <= i < delay && values.len() - delay + i >= 0 ==> #[trigger] after_writes(pending, delay, values)[i]
                == values[values.len() - delay + i],
    decreases values.len(),
{
    if values.len() > 0 {
        let rest = values.drop_last();
        law_read_back_after_delay(pending, delay, rest);
        let prev = after_writes(pending, delay, rest);
        let n = values.len() as int;
        assert forall|i: int| 0 <= i < delay && n - delay + i >= 0 implies #[trigger] after_writes(
            pending,
            delay,
            values,
        )[i] == values[n - delay + i] by {
            if i < delay - 1 {
                assert(prev[i + 1] == rest[(n - 1) - delay + (i + 1)]);
            }
        }
    }
}

} // verus!

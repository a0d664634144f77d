//! The ring with a separately allocated slot buffer.
use crate::model::{
    lemma_advance_drops, lemma_commit_appends, lemma_drain_empties, lemma_peek_run,
    lemma_write_keeps_items, RingView,
};
use crate::protocol::{CursorView, Reservation, RingCore};
use vstd::arithmetic::power2::pow2;
use vstd::prelude::*;

verus! {

/// A single-producer / single-consumer ring of `2^bits` slots whose storage
/// is a separate heap buffer.
pub struct Ring<T> {
    core: RingCore,
    buffer: Vec<T>,
}

impl<T> View for Ring<T> {
    type V = RingView<T>;

    closed spec fn view(&self) -> RingView<T> {
        RingView { core: self.core@, slots: self.buffer@ }
    }
}

impl<T: Default> Ring<T> {
    /// An empty, open ring of `2^ring_bits` default-initialised slots.
    pub fn new(ring_bits: u8) -> (r: Ring<T>)
        requires
            ring_bits < 64,
            pow2(ring_bits as nat) <= usize::MAX,
        ensures
            r.wf(),
            r@.core == (CursorView {
                capacity: pow2(ring_bits as nat),
                head: 0,
                tail: 0,
                closed: false,
                writable: pow2(ring_bits as nat),
                readable: 0,
            }),
            r@.items() == Seq::<T>::empty(),
    {
        let core = RingCore::new(ring_bits);
        let capacity = core.capacity();
        let mut buffer: Vec<T> = Vec::new();
        let mut i: usize = 0;
        while i < capacity
            invariant
                buffer.len() == i,
                i <= capacity,
            decreases capacity - i,
        {
            buffer.push(T::default());
            i = i + 1;
        }
        let r = Ring { core, buffer };
        assert(r@.items() =~= Seq::<T>::empty());
        r
    }
}

impl<T> Ring<T> {
    pub closed spec fn wf(&self) -> bool {
        &&& self.core.wf()
        &&& self.buffer.len() == self.core@.capacity
    }

    /// Every well-formed ring satisfies the abstract invariant.
    pub proof fn lemma_wf_inv(&self)
        requires
            self.wf(),
        ensures
            self@.inv(),
    {
        self.core.lemma_wf_inv();
    }

    pub fn capacity(&self) -> (r: usize)
        requires
            self.wf(),
        ensures
            r == self@.core.capacity,
    {
        self.core.capacity()
    }

    /// Request room for `n` slots. `None` when fewer than `n` slots are free;
    /// otherwise the run of slots from the tail, cut at the physical end of
    /// the buffer.
    pub fn reserve(&mut self, n: usize) -> (r: Option<Reservation>)
        requires
            old(self).wf(),
        ensures
            final(self).wf(),
            final(self)@ == old(self)@.with_core(old(self)@.core.after_reserve(n as nat)),
            r == old(self)@.core.reservation(n as nat),
            r is Some <==> old(self)@.items().len() + n <= old(self)@.core.capacity,
            r is Some ==> n <= final(self)@.core.writable,
    {
        proof {
            self.core.lemma_wf_inv();
        }
        self.core.reserve(n)
    }

    /// Store `value` in the slot `offset` positions past the tail.
    pub fn write(&mut self, offset: usize, value: T)
        requires
            old(self).wf(),
            offset < old(self)@.core.writable,
        ensures
            final(self).wf(),
            final(self)@ == old(self)@.after_write(offset as nat, value),
            final(self)@.items() == old(self)@.items(),
    {
        proof {
            self.core.lemma_wf_inv();
            lemma_write_keeps_items(self@, offset as nat, value);
        }
        let idx = self.core.write_slot(offset);
        self.buffer.set(idx, value);
    }

    /// Publish the `n` slots past the tail.
    pub fn commit(&mut self, n: usize)
        requires
            old(self).wf(),
            n <= old(self)@.core.writable,
        ensures
            final(self).wf(),
            final(self)@ == old(self)@.with_core(old(self)@.core.after_commit(n as nat)),
            final(self)@.items() == old(self)@.items() + old(self)@.pending_writes(n as nat),
    {
        proof {
            self.core.lemma_wf_inv();
            lemma_commit_appends(self@, n as nat);
        }
        self.core.commit(n);
    }

    /// The run of readable slots from the head, cut at the physical end of the
    /// buffer, as `(start, len)`; it holds the oldest items.
    pub fn peek(&mut self) -> (r: (usize, usize))
        requires
            old(self).wf(),
        ensures
            final(self).wf(),
            final(self)@ == old(self)@.with_core(old(self)@.core.after_peek()),
            r.0 == old(self)@.core.peek_span().start,
            r.1 == old(self)@.core.peek_span().len,
            r.1 <= final(self)@.core.readable,
            r.0 + r.1 <= final(self)@.core.capacity,
            forall|i: int| 0 <= i < r.1 ==> final(self)@.slots[r.0 + i] == old(self)@.items()[i],
    {
        proof {
            self.core.lemma_wf_inv();
            lemma_peek_run(self@);
        }
        let span = self.core.peek();
        (span.start, span.len)
    }

    /// Acknowledge the `n` oldest items as processed.
    pub fn advance(&mut self, n: usize)
        requires
            old(self).wf(),
            n <= old(self)@.core.readable,
        ensures
            final(self).wf(),
            final(self)@ == old(self)@.with_core(old(self)@.core.after_advance(n as nat)),
            final(self)@.items() == old(self)@.items().skip(n as int),
    {
        proof {
            self.core.lemma_wf_inv();
            lemma_advance_drops(self@, n as nat);
        }
        self.core.advance(n);
    }

    /// The value in physical slot `index`.
    pub fn slot(&self, index: usize) -> (r: &T)
        requires
            self.wf(),
            index < self@.core.capacity,
        ensures
            *r == self@.slots[index as int],
    {
        &self.buffer[index]
    }

    pub fn is_closed(&self) -> (r: bool)
        ensures
            r == self@.core.closed,
    {
        self.core.is_closed()
    }

    pub fn is_empty(&self) -> (r: bool)
        requires
            self.wf(),
        ensures
            r == (self@.items().len() == 0),
    {
        self.core.is_empty()
    }

    /// Signal that the producer is done; committed items stay readable.
    pub fn close(&mut self)
        requires
            old(self).wf(),
        ensures
            final(self).wf(),
            final(self)@ == old(self)@.with_core(old(self)@.core.after_close()),
            final(self)@.items() == old(self)@.items(),
    {
        self.core.close();
    }
}

impl<T: Copy> Ring<T> {
    /// Append every committed item to `out`, oldest first, and consume them
    /// with a single head update. Returns how many there were.
    pub fn consume_batch(&mut self, out: &mut Vec<T>) -> (r: usize)
        requires
            old(self).wf(),
        ensures
            final(self).wf(),
            final(self)@ == old(self)@.with_core(old(self)@.core.after_drain()),
            final(self)@.items() == Seq::<T>::empty(),
            final(out)@ == old(out)@ + old(self)@.items(),
            r == old(self)@.items().len(),
    {
        proof {
            self.core.lemma_wf_inv();
            lemma_drain_empties(self@);
        }
        let avail = self.core.available();
        if avail == 0 {
            return 0;
        }
        let ghost start = out@;
        let mut k: u64 = 0;
        while k < avail
            invariant
                self.wf(),
                self@ == old(self)@,
                avail == self@.items().len(),
                self@.inv(),
                k <= avail,
                out@ == start + self@.items().take(k as int),
            decreases avail - k,
        {
            let idx = self.core.read_slot(k);
            out.push(self.buffer[idx]);
            proof {
                assert(self@.items().take(k + 1) =~= self@.items().take(k as int).push(
                    self@.items()[k as int],
                ));
            }
            k = k + 1;
        }
        proof {
            assert(self@.items().take(avail as int) =~= self@.items());
        }
        self.core.finish_drain();
        avail as usize
    }
}

} // verus!

//! A multi-producer channel built from one independent ring per producer.
use crate::model::RingView;
use crate::protocol::{CursorView, Reservation};
use crate::ring::Ring;
use vstd::arithmetic::power2::pow2;
use vstd::prelude::*;

verus! {

pub const DEFAULT_RING_BITS: u8 = 16;

pub const DEFAULT_MAX_PRODUCERS: usize = 16;

/// How a channel is built: each ring holds `2^ring_bits` slots, and there is
/// one ring for each of at most `max_producers` producers. `enable_metrics`
/// is carried for a metrics collector outside this library.
pub struct Config {
    pub ring_bits: u8,
    pub max_producers: usize,
    pub enable_metrics: bool,
}

impl Default for Config {
    fn default() -> (r: Config)
        ensures
            r.ring_bits == DEFAULT_RING_BITS,
            r.max_producers == DEFAULT_MAX_PRODUCERS,
            !r.enable_metrics,
    {
        Config {
            ring_bits: DEFAULT_RING_BITS,
            max_producers: DEFAULT_MAX_PRODUCERS,
            enable_metrics: false,
        }
    }
}

/// Why a registration failed.
#[derive(Debug, Clone, Copy, PartialEq, Eq, Structural)]
pub enum RegisterError {
    /// Every ring of the channel has already been handed out.
    TooManyProducers,
}

/// The abstract state of a channel.
pub struct ChannelView<T> {
    pub rings: Seq<RingView<T>>,
    /// How many registrations have been attempted (saturating at `u64::MAX`).
    pub registered: nat,
    pub closed: bool,
}

/// A multi-producer channel: `max_producers` rings, each written by at most
/// one registered producer and all read by one consumer.
pub struct Channel<T> {
    rings: Vec<Ring<T>>,
    producer_count: u64,
    closed: bool,
    max_producers: usize,
}

/// The right to write into one ring of a channel, and only that ring.
#[derive(Debug, PartialEq, Eq, Structural)]
pub struct Producer {
    id: usize,
}

impl<T> View for Channel<T> {
    type V = ChannelView<T>;

    closed spec fn view(&self) -> ChannelView<T> {
        ChannelView {
            rings: self.rings@.map_values(|r: Ring<T>| r@),
            registered: self.producer_count as nat,
            closed: self.closed,
        }
    }
}

/// The channel's rings with the one at `id` replaced by `r`.
pub open spec fn with_ring<T>(v: ChannelView<T>, id: int, r: RingView<T>) -> ChannelView<T> {
    ChannelView { rings: v.rings.update(id, r), ..v }
}

/// The ring index that the next registration receives, if any is left.
pub open spec fn register_result<T>(v: ChannelView<T>) -> Option<nat> {
    if v.registered < v.rings.len() {
        Some(v.registered)
    } else {
        None
    }
}

/// The channel after one registration attempt, successful or not.
pub open spec fn after_register<T>(v: ChannelView<T>) -> ChannelView<T> {
    ChannelView {
        registered: if v.registered < u64::MAX {
            v.registered + 1
        } else {
            v.registered
        },
        ..v
    }
}

/// The channel after `k` registration attempts.
pub open spec fn after_registers<T>(v: ChannelView<T>, k: nat) -> ChannelView<T>
    decreases k,
{
    if k == 0 {
        v
    } else {
        after_register(after_registers(v, (k - 1) as nat))
    }
}

/// On a channel with no registration yet, the first `max_producers` attempts
/// receive the ring indices `0, 1, ...` in turn, each exactly once, and every
/// later attempt fails.
pub proof fn lemma_registration_exhaustion<T>(v: ChannelView<T>, j: nat)
    requires
        v.registered == 0,
        j < u64::MAX,
    ensures
        after_registers(v, j).registered == j,
        after_registers(v, j).rings == v.rings,
        register_result(after_registers(v, j)) == if j < v.rings.len() {
            Some(j)
        } else {
            None::<nat>
        },
    decreases j,
{
    if j > 0 {
        lemma_registration_exhaustion(v, (j - 1) as nat);
    }
}

impl<T: Default> Channel<T> {
    /// A channel of `config.max_producers` empty, open rings of
    /// `2^config.ring_bits` slots each, with no producer registered.
    pub fn new(config: Config) -> (r: Channel<T>)
        requires
            config.ring_bits < 64,
            pow2(config.ring_bits as nat) <= usize::MAX,
        ensures
            r.wf(),
            r@.rings.len() == config.max_producers,
            r@.registered == 0,
            !r@.closed,
            forall|i: int|
                0 <= i < config.max_producers ==> (#[trigger] r@.rings[i]).core == (CursorView {
                    capacity: pow2(config.ring_bits as nat),
                    head: 0,
                    tail: 0,
                    closed: false,
                    writable: pow2(config.ring_bits as nat),
                    readable: 0,
                }) && r@.rings[i].items() == Seq::<T>::empty(),
    {
        let mut rings: Vec<Ring<T>> = Vec::new();
        let mut i: usize = 0;
        while i < config.max_producers
            invariant
                i <= config.max_producers,
                rings.len() == i,
                config.ring_bits < 64,
                pow2(config.ring_bits as nat) <= usize::MAX,
                forall|j: int|
                    0 <= j < i ==> (#[trigger] rings@[j]).wf() && rings@[j]@.core == (CursorView {
                        capacity: pow2(config.ring_bits as nat),
                        head: 0,
                        tail: 0,
                        closed: false,
                        writable: pow2(config.ring_bits as nat),
                        readable: 0,
                    }) && rings@[j]@.items() == Seq::<T>::empty(),
            decreases config.max_producers - i,
        {
            rings.push(Ring::new(config.ring_bits));
            i = i + 1;
        }
        Channel { rings, producer_count: 0, closed: false, max_producers: config.max_producers }
    }
}

impl<T> Channel<T> {
    pub closed spec fn wf(&self) -> bool {
        &&& self.rings.len() == self.max_producers
        &&& forall|i: int| 0 <= i < self.rings.len() ==> (#[trigger] self.rings@[i]).wf()
    }

    pub fn max_producers(&self) -> (r: usize)
        requires
            self.wf(),
        ensures
            r == self@.rings.len(),
    {
        self.max_producers
    }

    /// Claim the next unclaimed ring. Fails once every ring has been claimed;
    /// a failed attempt still counts, so the count never goes back.
    pub fn register(&mut self) -> (r: Result<Producer, RegisterError>)
        requires
            old(self).wf(),
        ensures
            final(self).wf(),
            final(self)@ == after_register(old(self)@),
            r is Ok <==> register_result(old(self)@) is Some,
            r matches Ok(p) ==> p.index() == register_result(old(self)@)->0,
            r is Err ==> r == Err::<Producer, RegisterError>(RegisterError::TooManyProducers),
    {
        let id = self.producer_count;
        if id < u64::MAX {
            self.producer_count = id + 1;
        }
        if id >= self.max_producers as u64 {
            return Err(RegisterError::TooManyProducers);
        }
        Ok(Producer { id: id as usize })
    }

    /// The ring at `id`, if there is one.
    pub fn get_ring(&self, id: usize) -> (r: Option<&Ring<T>>)
        requires
            self.wf(),
        ensures
            r is Some <==> id < self@.rings.len(),
            r is Some ==> r->0.wf() && r->0@ == self@.rings[id as int],
    {
        if id < self.rings.len() {
            Some(&self.rings[id])
        } else {
            None
        }
    }

    /// Consumer side: take every committed item of the ring at `id`, oldest
    /// first, appending them to `out`. `None` if there is no such ring.
    pub fn consume_batch(&mut self, id: usize, out: &mut Vec<T>) -> (r: Option<usize>)
        where
            T: Copy,
        requires
            old(self).wf(),
        ensures
            final(self).wf(),
            id >= old(self)@.rings.len() ==> r is None && final(self)@ == old(self)@ && final(out)@
                == old(out)@,
            id < old(self)@.rings.len() ==> {
                let ring = old(self)@.rings[id as int];
                &&& r == Some(ring.items().len() as usize)
                &&& final(self)@ == with_ring(old(self)@, id as int, ring.with_core(ring.core.after_drain()))
                &&& final(out)@ == old(out)@ + ring.items()
            },
    {
        if id >= self.rings.len() {
            return None;
        }
        let n = self.rings[id].consume_batch(out);
        proof {
            assert(self@.rings =~= old(self)@.rings.update(id as int, self@.rings[id as int]));
        }
        Some(n)
    }

    /// Close the channel and every ring in it; committed items stay readable.
    pub fn close(&mut self)
        requires
            old(self).wf(),
        ensures
            final(self).wf(),
            final(self)@.closed,
            final(self)@.registered == old(self)@.registered,
            final(self)@.rings.len() == old(self)@.rings.len(),
            forall|i: int|
                0 <= i < old(self)@.rings.len() ==> #[trigger] final(self)@.rings[i] == old(self)@.rings[i].with_core(old(self)@.rings[i].core.after_close()),
    {
        self.closed = true;
        let mut i: usize = 0;
        while i < self.rings.len()
            invariant
                self.wf(),
                self.closed,
                self.producer_count == old(self).producer_count,
                self.rings.len() == old(self).rings.len(),
                i <= self.rings.len(),
                forall|j: int|
                    0 <= j < i ==> #[trigger] self.rings@[j]@ == old(self).rings@[j]@.with_core(old(self).rings@[j]@.core.after_close()),
                forall|j: int| i <= j < self.rings.len() ==> #[trigger] self.rings@[j]@ == old(self).rings@[j]@,
            decreases self.rings.len() - i,
        {
            self.rings[i].close();
            i = i + 1;
        }
    }
}

impl Producer {
    /// The index of the ring this producer writes into.
    pub fn id(&self) -> (r: usize)
        ensures
            r == self.index(),
    {
        self.id
    }

    pub closed spec fn index(&self) -> int {
        self.id as int
    }

    /// `reserve` on this producer's ring.
    pub fn reserve<T>(&self, channel: &mut Channel<T>, n: usize) -> (r: Option<Reservation>)
        requires
            old(channel).wf(),
            self.index() < old(channel)@.rings.len(),
        ensures
            final(channel).wf(),
            ({
                let ring = old(channel)@.rings[self.index()];
                &&& final(channel)@ == with_ring(old(channel)@, self.index(), ring.with_core(ring.core.after_reserve(n as nat)))
                &&& r == ring.core.reservation(n as nat)
                &&& r is Some ==> n <= final(channel)@.rings[self.index()].core.writable
            }),
    {
        let r = channel.rings[self.id].reserve(n);
        proof {
            assert(channel@.rings =~= old(channel)@.rings.update(self.index(), channel@.rings[self.index()]));
        }
        r
    }

    /// `write` on this producer's ring.
    pub fn write<T>(&self, channel: &mut Channel<T>, offset: usize, value: T)
        requires
            old(channel).wf(),
            self.index() < old(channel)@.rings.len(),
            offset < old(channel)@.rings[self.index()].core.writable,
        ensures
            final(channel).wf(),
            ({
                let ring = old(channel)@.rings[self.index()];
                &&& final(channel)@ == with_ring(old(channel)@, self.index(), ring.after_write(offset as nat, value))
                &&& final(channel)@.rings[self.index()].items() == ring.items()
            }),
    {
        channel.rings[self.id].write(offset, value);
        proof {
            assert(channel@.rings =~= old(channel)@.rings.update(self.index(), channel@.rings[self.index()]));
        }
    }

    /// `commit` on this producer's ring.
    pub fn commit<T>(&self, channel: &mut Channel<T>, n: usize)
        requires
            old(channel).wf(),
            self.index() < old(channel)@.rings.len(),
            n <= old(channel)@.rings[self.index()].core.writable,
        ensures
            final(channel).wf(),
            ({
                let ring = old(channel)@.rings[self.index()];
                &&& final(channel)@ == with_ring(old(channel)@, self.index(), ring.with_core(ring.core.after_commit(n as nat)))
                &&& final(channel)@.rings[self.index()].items() == ring.items() + ring.pending_writes(n as nat)
            }),
    {
        channel.rings[self.id].commit(n);
        proof {
            assert(channel@.rings =~= old(channel)@.rings.update(self.index(), channel@.rings[self.index()]));
        }
    }
}

} // verus!

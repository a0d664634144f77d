//! The cursor protocol shared by every ring storage variant.
//!
//! A ring is described by two monotonically increasing 64-bit cursors: `tail`,
//! advanced only by the producer, and `head`, advanced only by the consumer.
//! Each side also keeps a cached copy of the other side's cursor, refreshed
//! only when the stale copy is no longer good enough. `RingCore` holds that
//! state and implements every decision of the protocol; the storage variants
//! only add the slots.
use vstd::arithmetic::div_mod::lemma_mod_multiples_vanish;
use vstd::arithmetic::power2::{lemma2_to64, lemma_pow2_adds, lemma_pow2_pos, lemma_pow2_strictly_increases, pow2};
use vstd::bits::{lemma_u64_low_bits_mask_is_mod, lemma_u64_shl_is_mul, low_bits_mask};
use crate::atomics::{compiler_fence_acquire, compiler_fence_release};
use vstd::prelude::*;

verus! {

/// The number of distinct values of a 64-bit cursor.
pub open spec fn word() -> int {
    0x1_0000_0000_0000_0000
}

/// How far cursor `to` lies ahead of cursor `from`, counted modulo 2^64.
pub open spec fn distance(from: u64, to: u64) -> nat {
    if from <= to {
        (to - from) as nat
    } else {
        (to + word() - from) as nat
    }
}

/// Cursor `c` moved `n` steps forward (for `n < 2^64`), wrapping modulo 2^64.
pub open spec fn forward(c: u64, n: nat) -> u64 {
    if c + n < word() {
        (c + n) as u64
    } else {
        (c + n - word()) as u64
    }
}

pub open spec fn min_nat(a: nat, b: nat) -> nat {
    if a <= b {
        a
    } else {
        b
    }
}

/// A contiguous run of physical slots: `len` slots starting at index `start`.
#[derive(Debug, Clone, Copy, PartialEq, Eq, Structural)]
pub struct Reservation {
    pub start: usize,
    pub len: usize,
}

/// The abstract state of a ring's cursors.
///
/// `writable` is how many slots past `tail` the producer may fill and commit on
/// the strength of what it last observed of `head`; `readable` is how many
/// committed items past `head` the consumer may process on the strength of
/// what it last observed of `tail`.
pub struct CursorView {
    pub capacity: nat,
    pub head: u64,
    pub tail: u64,
    pub closed: bool,
    pub writable: nat,
    pub readable: nat,
}

impl CursorView {
    /// Number of committed, not yet consumed items.
    pub open spec fn len(self) -> nat {
        distance(self.head, self.tail)
    }

    /// Number of slots not holding an unconsumed item.
    pub open spec fn free(self) -> nat {
        (self.capacity - self.len()) as nat
    }

    /// The physical slot that a (possibly unwrapped) cursor position maps to.
    pub open spec fn slot_of(self, cursor: int) -> int {
        cursor % (self.capacity as int)
    }

    pub open spec fn inv(self) -> bool {
        &&& 0 < self.capacity < word()
        &&& self.capacity <= usize::MAX
        &&& word() % (self.capacity as int) == 0
        &&& self.len() <= self.capacity
        &&& self.writable <= self.free()
        &&& self.readable <= self.len()
    }

    /// The producer re-reads `head`.
    pub open spec fn producer_refreshed(self) -> CursorView {
        CursorView { writable: self.free(), ..self }
    }

    /// The consumer re-reads `tail`.
    pub open spec fn consumer_refreshed(self) -> CursorView {
        CursorView { readable: self.len(), ..self }
    }

    /// State after `reserve(n)`: the producer refreshes only if its cached
    /// knowledge does not already cover `n` slots.
    pub open spec fn after_reserve(self, n: nat) -> CursorView {
        if n <= self.writable {
            self
        } else {
            self.producer_refreshed()
        }
    }

    /// What `reserve(n)` hands out: nothing when fewer than `n` slots are
    /// free, else the run from the tail slot, cut at the physical end.
    pub open spec fn reservation(self, n: nat) -> Option<Reservation> {
        if n <= self.free() {
            let start = self.slot_of(self.tail as int);
            Some(
                Reservation {
                    start: start as usize,
                    len: min_nat(n, (self.capacity - start) as nat) as usize,
                },
            )
        } else {
            None
        }
    }

    pub open spec fn after_commit(self, n: nat) -> CursorView {
        CursorView { tail: forward(self.tail, n), writable: (self.writable - n) as nat, ..self }
    }

    /// State after `peek()`: the consumer refreshes only when it knows of no item.
    pub open spec fn after_peek(self) -> CursorView {
        if self.readable == 0 {
            self.consumer_refreshed()
        } else {
            self
        }
    }

    /// The readable run that `peek()` returns, from the head slot, cut at the
    /// physical end.
    pub open spec fn peek_span(self) -> Reservation {
        let s = self.after_peek();
        let start = s.slot_of(s.head as int);
        Reservation {
            start: start as usize,
            len: min_nat(s.readable, (s.capacity - start) as nat) as usize,
        }
    }

    pub open spec fn after_advance(self, n: nat) -> CursorView {
        CursorView { head: forward(self.head, n), readable: (self.readable - n) as nat, ..self }
    }

    /// State after a batch consume of everything committed.
    pub open spec fn after_drain(self) -> CursorView {
        if self.len() == 0 {
            self
        } else {
            CursorView { head: self.tail, readable: 0, ..self }
        }
    }

    pub open spec fn after_close(self) -> CursorView {
        CursorView { closed: true, ..self }
    }
}

/// `((x mod 2^64) + i) mod c == (x + i) mod c` whenever `c` divides 2^64.
pub proof fn lemma_wrapped_slot(x: int, i: int, c: int)
    requires
        c > 0,
        word() % c == 0,
    ensures
        ((x % word()) + i) % c == (x + i) % c,
{
    let q = x / word();
    let k = word() / c;
    vstd::arithmetic::div_mod::lemma_fundamental_div_mod(x, word());
    assert(word() == c * k + word() % c) by (nonlinear_arith)
        requires
            c > 0,
            k == word() / c,
    ;
    assert((x % word()) + i == c * (-k * q) + (x + i)) by (nonlinear_arith)
        requires
            x == word() * q + x % word(),
            word() == c * k,
    ;
    lemma_mod_multiples_vanish(-k * q, x + i, c);
}

/// A cursor moved forward maps to the slot of the unwrapped position.
pub proof fn lemma_forward_slot(v: CursorView, c: u64, n: nat, i: int)
    requires
        v.inv(),
        n < word(),
    ensures
        v.slot_of(forward(c, n) + i) == v.slot_of(c + n + i),
{
    let cap = v.capacity as int;
    if c + n < word() {
    } else {
        assert((c + n) % word() == c + n - word()) by {
            vstd::arithmetic::div_mod::lemma_mod_sub_multiples_vanish((c + n) as int, word());
            vstd::arithmetic::div_mod::lemma_small_mod((c + n - word()) as nat, word() as nat);
        }
    }
    if c + n < word() {
        vstd::arithmetic::div_mod::lemma_small_mod((c + n) as nat, word() as nat);
    }
    lemma_wrapped_slot(c + n, i, cap);
}

/// The tail slot is the slot right after the last unconsumed item.
pub proof fn lemma_tail_slot(v: CursorView, i: int)
    requires
        v.inv(),
    ensures
        v.slot_of(v.tail + i) == v.slot_of(v.head + v.len() + i),
{
    assert(v.tail == forward(v.head, v.len()));
    lemma_forward_slot(v, v.head, v.len(), i);
}

/// Two positions less than a capacity apart map to different slots.
pub proof fn lemma_slots_distinct(v: CursorView, a: int, b: int)
    requires
        v.inv(),
        a < b < a + v.capacity,
    ensures
        v.slot_of(a) != v.slot_of(b),
{
    let c = v.capacity as int;
    vstd::arithmetic::div_mod::lemma_fundamental_div_mod(a, c);
    vstd::arithmetic::div_mod::lemma_fundamental_div_mod(b, c);
    vstd::arithmetic::div_mod::lemma_mod_bound(a, c);
    vstd::arithmetic::div_mod::lemma_mod_bound(b, c);
    if a % c == b % c {
        assert(c * (b / c - a / c) == b - a) by (nonlinear_arith)
            requires
                a == c * (a / c) + a % c,
                b == c * (b / c) + b % c,
                a % c == b % c,
        ;
        assert(false) by (nonlinear_arith)
            requires
                c * (b / c - a / c) == b - a,
                0 < b - a < c,
        ;
    }
}

struct ProducerSide {
    tail: u64,
    cached_head: u64,
}

struct ConsumerSide {
    head: u64,
    cached_tail: u64,
}

/// The cursor state of one single-producer / single-consumer ring.
///
/// Producer-owned and consumer-owned fields are kept in separate groups so
/// that each side only ever updates its own.
pub struct RingCore {
    producer: ProducerSide,
    consumer: ConsumerSide,
    closed: bool,
    capacity: usize,
    mask: u64,
    bits: u8,
}

impl View for RingCore {
    type V = CursorView;

    closed spec fn view(&self) -> CursorView {
        CursorView {
            capacity: self.capacity as nat,
            head: self.consumer.head,
            tail: self.producer.tail,
            closed: self.closed,
            writable: (self.capacity - distance(self.producer.cached_head, self.producer.tail)) as nat,
            readable: distance(self.consumer.head, self.consumer.cached_tail),
        }
    }
}

impl RingCore {
    pub closed spec fn wf(&self) -> bool {
        &&& self.bits < 64
        &&& self.capacity as int == pow2(self.bits as nat)
        &&& self.mask as int == low_bits_mask(self.bits as nat)
        &&& word() % (self.capacity as int) == 0
        &&& distance(self.producer.cached_head, self.producer.tail) <= self.capacity
        &&& distance(self.consumer.head, self.producer.tail) <= distance(
            self.producer.cached_head,
            self.producer.tail,
        )
        &&& distance(self.consumer.head, self.consumer.cached_tail) <= distance(
            self.consumer.head,
            self.producer.tail,
        )
    }

    pub proof fn lemma_wf_inv(&self)
        requires
            self.wf(),
        ensures
            self@.inv(),
    {
        lemma_pow2_pos(self.bits as nat);
        lemma2_to64();
        lemma_pow2_strictly_increases(self.bits as nat, 64);
    }

    /// A ring of `2^bits` slots, empty and open.
    pub fn new(bits: u8) -> (r: RingCore)
        requires
            bits < 64,
            pow2(bits as nat) <= usize::MAX,
        ensures
            r.wf(),
            r@ == (CursorView {
                capacity: pow2(bits as nat),
                head: 0,
                tail: 0,
                closed: false,
                writable: pow2(bits as nat),
                readable: 0,
            }),
    {
        proof {
            lemma2_to64();
            lemma_pow2_strictly_increases(bits as nat, 64);
            lemma_pow2_pos(bits as nat);
            lemma_u64_shl_is_mul(1, bits as u64);
            lemma_pow2_adds(bits as nat, (64 - bits) as nat);
            lemma_mod_multiples_vanish(pow2((64 - bits) as nat) as int, 0, pow2(bits as nat) as int);
        }
        let cap: u64 = 1u64 << (bits as u64);
        RingCore {
            producer: ProducerSide { tail: 0, cached_head: 0 },
            consumer: ConsumerSide { head: 0, cached_tail: 0 },
            closed: false,
            capacity: cap as usize,
            mask: cap - 1,
            bits,
        }
    }

    /// The physical slot of cursor `c`.
    fn slot_index(&self, c: u64) -> (r: usize)
        requires
            self.wf(),
        ensures
            r as int == self@.slot_of(c as int),
            r < self@.capacity,
    {
        proof {
            lemma_u64_low_bits_mask_is_mod(c, self.bits as nat);
            lemma_pow2_pos(self.bits as nat);
        }
        (c & self.mask) as usize
    }

    /// The slot `offset` positions past the tail: where the producer writes.
    pub fn write_slot(&self, offset: usize) -> (r: usize)
        requires
            self.wf(),
            offset < self@.capacity,
        ensures
            r as int == self@.slot_of(self@.tail + offset),
            r < self@.capacity,
    {
        let c = self.producer.tail.wrapping_add(offset as u64);
        proof {
            lemma_forward_slot(self@, self.producer.tail, offset as nat, 0);
        }
        self.slot_index(c)
    }

    /// The slot `offset` positions past the head: where the consumer reads.
    pub fn read_slot(&self, offset: u64) -> (r: usize)
        requires
            self.wf(),
            offset < self@.capacity,
        ensures
            r as int == self@.slot_of(self@.head + offset),
            r < self@.capacity,
    {
        let c = self.consumer.head.wrapping_add(offset);
        proof {
            lemma_forward_slot(self@, self.consumer.head, offset as nat, 0);
        }
        self.slot_index(c)
    }

    pub fn capacity(&self) -> (r: usize)
        requires
            self.wf(),
        ensures
            r == self@.capacity,
    {
        self.capacity
    }

    /// Claim room for `n` slots; `None` when fewer than `n` slots are free.
    pub fn reserve(&mut self, n: usize) -> (r: Option<Reservation>)
        requires
            old(self).wf(),
        ensures
            final(self).wf(),
            final(self)@ == old(self)@.after_reserve(n as nat),
            r == old(self)@.reservation(n as nat),
            r is Some ==> n <= final(self)@.writable,
    {
        let tail = self.producer.tail;
        let cap = self.capacity as u64;
        let used = tail.wrapping_sub(self.producer.cached_head);
        let free = cap - used;
        if free < n as u64 {
            let head = self.consumer.head;
            compiler_fence_acquire();
            self.producer.cached_head = head;
            let used = tail.wrapping_sub(head);
            let free = cap - used;
            if free < n as u64 {
                return None;
            }
        }
        let idx = self.slot_index(tail);
        let room = self.capacity - idx;
        let len = if n < room {
            n
        } else {
            room
        };
        Some(Reservation { start: idx, len })
    }

    /// Publish `n` written slots.
    pub fn commit(&mut self, n: usize)
        requires
            old(self).wf(),
            n <= old(self)@.writable,
        ensures
            final(self).wf(),
            final(self)@ == old(self)@.after_commit(n as nat),
    {
        compiler_fence_release();
        self.producer.tail = self.producer.tail.wrapping_add(n as u64);
    }

    /// The readable run at the head, without consuming it.
    pub fn peek(&mut self) -> (r: Reservation)
        requires
            old(self).wf(),
        ensures
            final(self).wf(),
            final(self)@ == old(self)@.after_peek(),
            r == old(self)@.peek_span(),
    {
        let head = self.consumer.head;
        if head == self.consumer.cached_tail {
            self.consumer.cached_tail = self.producer.tail;
            compiler_fence_acquire();
        }
        let avail = self.consumer.cached_tail.wrapping_sub(head);
        let idx = self.slot_index(head);
        let room = self.capacity - idx;
        let len = if (avail as usize) < room {
            avail as usize
        } else {
            room
        };
        Reservation { start: idx, len }
    }

    /// Acknowledge `n` processed items.
    pub fn advance(&mut self, n: usize)
        requires
            old(self).wf(),
            n <= old(self)@.readable,
        ensures
            final(self).wf(),
            final(self)@ == old(self)@.after_advance(n as nat),
    {
        compiler_fence_release();
        self.consumer.head = self.consumer.head.wrapping_add(n as u64);
    }

    /// The number of committed items not yet consumed, read fresh.
    pub fn available(&self) -> (r: u64)
        requires
            self.wf(),
        ensures
            r == self@.len(),
    {
        self.producer.tail.wrapping_sub(self.consumer.head)
    }

    /// Mark every committed item as consumed, in one cursor update.
    pub fn finish_drain(&mut self)
        requires
            old(self).wf(),
        ensures
            final(self).wf(),
            final(self)@ == old(self)@.after_drain(),
    {
        if self.producer.tail != self.consumer.head {
            let tail = self.producer.tail;
            compiler_fence_release();
            self.consumer.head = tail;
            self.consumer.cached_tail = tail;
        }
    }

    pub fn is_closed(&self) -> (r: bool)
        ensures
            r == self@.closed,
    {
        self.closed
    }

    pub fn is_empty(&self) -> (r: bool)
        ensures
            r == (self@.len() == 0),
    {
        self.producer.tail == self.consumer.head
    }

    pub fn close(&mut self)
        requires
            old(self).wf(),
        ensures
            final(self).wf(),
            final(self)@ == old(self)@.after_close(),
    {
        self.closed = true;
    }
}

} // verus!

//! The abstract state of a ring with its slots, shared by both storage
//! variants, and the laws that the ring protocol obeys.
use crate::protocol::{
    distance, forward, lemma_forward_slot, lemma_slots_distinct, lemma_tail_slot, word,
    CursorView,
};
use vstd::prelude::*;

verus! {

/// A ring as a whole: its cursor state and the contents of its physical slots.
pub struct RingView<T> {
    pub core: CursorView,
    pub slots: Seq<T>,
}

impl<T> RingView<T> {
    pub open spec fn inv(self) -> bool {
        &&& self.core.inv()
        &&& self.slots.len() == self.core.capacity
    }

    /// The committed, unconsumed items, oldest first.
    pub open spec fn items(self) -> Seq<T> {
        Seq::new(self.core.len(), |i: int| self.slots[self.core.slot_of(self.core.head + i)])
    }

    /// The same slots under another cursor state.
    pub open spec fn with_core(self, core: CursorView) -> RingView<T> {
        RingView { core, slots: self.slots }
    }

    /// The producer stores `x` `offset` slots past the tail.
    pub open spec fn after_write(self, offset: nat, x: T) -> RingView<T> {
        RingView {
            core: self.core,
            slots: self.slots.update(self.core.slot_of(self.core.tail + offset), x),
        }
    }

    /// The producer stores `xs` in the slots from the tail on.
    pub open spec fn after_write_all(self, xs: Seq<T>) -> RingView<T>
        decreases xs.len(),
    {
        if xs.len() == 0 {
            self
        } else {
            self.after_write_all(xs.drop_last()).after_write((xs.len() - 1) as nat, xs.last())
        }
    }

    /// The contents of the `n` slots from the tail on, in cursor order.
    pub open spec fn pending_writes(self, n: nat) -> Seq<T> {
        Seq::new(n, |k: int| self.slots[self.core.slot_of(self.core.tail + k)])
    }
}

pub proof fn lemma_distance_forward(a: u64, b: u64, n: nat)
    requires
        distance(a, b) + n < word(),
    ensures
        distance(a, forward(b, n)) == distance(a, b) + n,
{
}

pub proof fn lemma_forward_distance(a: u64, b: u64, n: nat)
    requires
        n <= distance(a, b),
    ensures
        distance(forward(a, n), b) == distance(a, b) - n,
{
}

/// `(h mod c) + i == (h + i) mod c` while the left side stays below `c`.
pub proof fn lemma_slot_run(h: int, i: int, c: int)
    requires
        c > 0,
        h >= 0,
        i >= 0,
        h % c + i < c,
    ensures
        (h + i) % c == h % c + i,
{
    vstd::arithmetic::div_mod::lemma_fundamental_div_mod(h, c);
    vstd::arithmetic::div_mod::lemma_mod_bound(h, c);
    vstd::arithmetic::div_mod::lemma_mod_multiples_vanish(h / c, h % c + i, c);
    vstd::arithmetic::div_mod::lemma_small_mod((h % c + i) as nat, c as nat);
}

/// Writing into a slot the producer owns leaves every unconsumed item alone.
pub proof fn lemma_write_keeps_items<T>(v: RingView<T>, offset: nat, x: T)
    requires
        v.inv(),
        offset < v.core.writable,
    ensures
        v.after_write(offset, x).inv(),
        v.after_write(offset, x).items() == v.items(),
{
    let w = v.after_write(offset, x);
    lemma_tail_slot(v.core, offset as int);
    assert forall|i: int| 0 <= i < v.core.len() implies w.items()[i] == v.items()[i] by {
        lemma_slots_distinct(
            v.core,
            v.core.head + i,
            v.core.head + v.core.len() + offset,
        );
    }
    assert(w.items() =~= v.items());
}

/// Committing `n` slots appends their contents to the items.
pub proof fn lemma_commit_appends<T>(v: RingView<T>, n: nat)
    requires
        v.inv(),
        n <= v.core.writable,
    ensures
        v.with_core(v.core.after_commit(n)).inv(),
        v.with_core(v.core.after_commit(n)).items() == v.items() + v.pending_writes(n),
{
    let w = v.with_core(v.core.after_commit(n));
    lemma_distance_forward(v.core.head, v.core.tail, n);
    assert forall|i: int| v.core.len() <= i < v.core.len() + n implies w.items()[i]
        == v.pending_writes(n)[i - v.core.len()] by {
        lemma_tail_slot(v.core, i - v.core.len());
    }
    assert(w.items() =~= v.items() + v.pending_writes(n));
}

/// Advancing the head by `n` drops the `n` oldest items.
pub proof fn lemma_advance_drops<T>(v: RingView<T>, n: nat)
    requires
        v.inv(),
        n <= v.core.readable,
    ensures
        v.with_core(v.core.after_advance(n)).inv(),
        v.with_core(v.core.after_advance(n)).items() == v.items().skip(n as int),
{
    let w = v.with_core(v.core.after_advance(n));
    lemma_forward_distance(v.core.head, v.core.tail, n);
    lemma_forward_distance(v.core.head, forward(v.core.head, v.core.readable), n);
    assert forall|i: int| 0 <= i < w.core.len() implies w.items()[i] == v.items()[n + i] by {
        lemma_forward_slot(v.core, v.core.head, n, i);
    }
    assert(w.items() =~= v.items().skip(n as int));
}

/// Peeking changes no item, and the run it returns holds the oldest items.
pub proof fn lemma_peek_run<T>(v: RingView<T>)
    requires
        v.inv(),
    ensures
        v.with_core(v.core.after_peek()).inv(),
        v.with_core(v.core.after_peek()).items() == v.items(),
        v.core.peek_span().len <= v.core.after_peek().readable,
        v.core.peek_span().start + v.core.peek_span().len <= v.core.capacity,
        forall|i: int|
            0 <= i < v.core.peek_span().len ==> v.slots[v.core.peek_span().start + i]
                == v.items()[i],
{
    let s = v.core.peek_span();
    let c = v.core.capacity as int;
    vstd::arithmetic::div_mod::lemma_mod_bound(v.core.head as int, c);
    assert forall|i: int| 0 <= i < s.len implies v.slots[s.start + i] == v.items()[i] by {
        lemma_slot_run(v.core.head as int, i, c);
    }
    assert(v.with_core(v.core.after_peek()).items() =~= v.items());
}

/// A batch consume leaves no item behind.
pub proof fn lemma_drain_empties<T>(v: RingView<T>)
    requires
        v.inv(),
    ensures
        v.with_core(v.core.after_drain()).inv(),
        v.with_core(v.core.after_drain()).items() == Seq::<T>::empty(),
{
    assert(v.with_core(v.core.after_drain()).items() =~= Seq::<T>::empty());
}

/// Occupancy never exceeds the capacity, and every step of the protocol keeps
/// it so: a reservation is only granted when the requested slots are free, and
/// a commit of what the producer may write keeps occupancy within capacity.
pub proof fn lemma_capacity_respected<T>(v: RingView<T>, n: nat)
    requires
        v.inv(),
    ensures
        v.items().len() <= v.core.capacity,
        v.core.reservation(n) is Some <==> v.items().len() + n <= v.core.capacity,
        v.core.reservation(n) is Some ==> n <= v.core.after_reserve(n).writable,
        v.with_core(v.core.after_reserve(n)).inv(),
        n <= v.core.writable ==> v.with_core(v.core.after_commit(n)).inv(),
        n <= v.core.readable ==> v.with_core(v.core.after_advance(n)).inv(),
        v.with_core(v.core.after_peek()).inv(),
        v.with_core(v.core.after_drain()).inv(),
        v.with_core(v.core.after_close()).inv(),
{
    if n <= v.core.writable {
        lemma_commit_appends(v, n);
    }
    if n <= v.core.readable {
        lemma_advance_drops(v, n);
    }
    lemma_peek_run(v);
    lemma_drain_empties(v);
}

/// Writing `xs` from the tail on places `xs[k]` in the slot `k` past the tail,
/// and touches no unconsumed item.
pub proof fn lemma_write_all<T>(v: RingView<T>, xs: Seq<T>)
    requires
        v.inv(),
        xs.len() <= v.core.writable,
    ensures
        v.after_write_all(xs).inv(),
        v.after_write_all(xs).core == v.core,
        v.after_write_all(xs).items() == v.items(),
        v.after_write_all(xs).pending_writes(xs.len()) == xs,
    decreases xs.len(),
{
    if xs.len() > 0 {
        let k = (xs.len() - 1) as nat;
        let prev = xs.drop_last();
        lemma_write_all(v, prev);
        let w = v.after_write_all(prev);
        lemma_write_keeps_items(w, k, xs.last());
        let w2 = w.after_write(k, xs.last());
        assert forall|j: int| 0 <= j < xs.len() implies w2.pending_writes(xs.len())[j]
            == xs[j] by {
            if j < k {
                lemma_slots_distinct(v.core, v.core.tail + j, v.core.tail + k);
                assert(w.pending_writes(prev.len())[j] == prev[j]);
            }
        }
        assert(w2.pending_writes(xs.len()) =~= xs);
    }
}

/// First in, first out: items written and committed in order come after every
/// item already in the ring, in exactly that order, with nothing lost or
/// repeated; consuming then takes them from the front.
pub proof fn lemma_fifo<T>(v: RingView<T>, xs: Seq<T>, taken: nat)
    requires
        v.inv(),
        xs.len() <= v.core.writable,
    ensures
        ({
            let w = v.after_write_all(xs);
            let c = w.with_core(w.core.after_commit(xs.len()));
            &&& c.items() == v.items() + xs
            &&& taken <= c.core.readable ==> c.with_core(c.core.after_advance(taken)).items()
                == (v.items() + xs).skip(taken as int)
        }),
{
    lemma_write_all(v, xs);
    let w = v.after_write_all(xs);
    lemma_commit_appends(w, xs.len());
    let c = w.with_core(w.core.after_commit(xs.len()));
    if taken <= c.core.readable {
        lemma_advance_drops(c, taken);
    }
}

/// A granted reservation is a non-empty run that never wraps: it covers all
/// `n` requested slots unless it stops at the physical end of the buffer.
pub proof fn lemma_reservation_contiguous<T>(v: RingView<T>, n: nat)
    requires
        v.inv(),
        n >= 1,
        v.core.reservation(n) is Some,
    ensures
        ({
            let r = v.core.reservation(n)->0;
            &&& r.start == v.core.slot_of(v.core.tail as int)
            &&& 1 <= r.len <= n
            &&& r.start + r.len <= v.core.capacity
            &&& r.len == n || r.start + r.len == v.core.capacity
        }),
{
    vstd::arithmetic::div_mod::lemma_mod_bound(v.core.tail as int, v.core.capacity as int);
}

/// Closing keeps every committed item, and a batch consume after the close
/// hands out all of them, after which the ring reads as closed and empty.
pub proof fn lemma_close_then_drain<T>(v: RingView<T>)
    requires
        v.inv(),
    ensures
        ({
            let c = v.with_core(v.core.after_close());
            let d = c.with_core(c.core.after_drain());
            &&& c.inv()
            &&& c.items() == v.items()
            &&& d.core.closed
            &&& d.items().len() == 0
        }),
{
    let c = v.with_core(v.core.after_close());
    assert(c.items() =~= v.items());
    lemma_drain_empties(c);
}

} // verus!

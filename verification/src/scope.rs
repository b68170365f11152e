//! Slot bookkeeping of the oscilloscope's ring buffer: where the next sample
//! goes, how many samples are available, and which slot holds the sample a
//! given number of steps back.
use vstd::prelude::*;
use vstd::arithmetic::div_mod::{
    lemma_mod_add_multiples_vanish, lemma_mod_bound, lemma_small_mod, lemma_sub_mod_noop,
};

verus! {

/// Write position over a ring of `len` slots.
pub struct RingCursor {
    len: usize,
    write_idx: usize,
    filled: bool,
}

impl RingCursor {
    #[verifier::type_invariant]
    spec fn inv(self) -> bool {
        &&& 0 < self.len <= usize::MAX / 2
        &&& self.write_idx < self.len
    }

    /// Number of slots.
    pub closed spec fn capacity(self) -> int {
        self.len as int
    }

    /// The slot the next sample goes to.
    pub closed spec fn next_slot(self) -> int {
        self.write_idx as int
    }

    /// Whether every slot has been written since the last reset.
    pub closed spec fn wrapped(self) -> bool {
        self.filled
    }

    /// An empty ring of `capacity` slots.
    pub fn new(capacity: usize) -> (c: RingCursor)
        requires
            0 < capacity <= usize::MAX / 2,
        ensures
            c.capacity() == capacity,
            c.next_slot() == 0,
            !c.wrapped(),
    {
        RingCursor { len: capacity, write_idx: 0, filled: false }
    }

    /// Forgets all samples.
    pub fn reset(&mut self)
        ensures
            final(self).capacity() == old(self).capacity(),
            final(self).next_slot() == 0,
            !final(self).wrapped(),
    {
        proof {
            use_type_invariant(&*self);
        }
        self.write_idx = 0;
        self.filled = false;
    }

    /// Takes the slot for the next sample and moves on; wrapping around to
    /// slot 0 marks the ring as filled.
    pub fn advance(&mut self) -> (slot: usize)
        ensures
            slot == old(self).next_slot(),
            final(self).capacity() == old(self).capacity(),
            final(self).next_slot() == (old(self).next_slot() + 1) % old(self).capacity(),
            final(self).wrapped() == (old(self).wrapped() || final(self).next_slot() == 0),
            0 <= slot < old(self).capacity(),
    {
        proof {
            use_type_invariant(&*self);
        }
        let slot = self.write_idx;
        let next = (self.write_idx + 1) % self.len;
        self.write_idx = next;
        if next == 0 {
            self.filled = true;
        }
        slot
    }

    /// How many recent samples there are to draw: the whole ring once it
    /// wrapped, else the samples written so far but at least one.
    pub fn available(&self) -> (n: usize)
        ensures
            n == if self.wrapped() {
                self.capacity()
            } else if self.next_slot() > 1 {
                self.next_slot()
            } else {
                1
            },
    {
        proof {
            use_type_invariant(self);
        }
        if self.filled {
            self.len
        } else if self.write_idx > 1 {
            self.write_idx
        } else {
            1
        }
    }

    /// The slot holding the sample `k` steps before the newest one (0 is the
    /// newest), counting around the ring.
    pub fn index_recent(&self, k: usize) -> (slot: usize)
        ensures
            slot as int == (self.next_slot() - 1 - k) % self.capacity(),
            0 <= slot < self.capacity(),
    {
        proof {
            use_type_invariant(self);
        }
        let len = self.len;
        let newest = (self.write_idx + len - 1) % len;
        let back = k % len;
        let slot = (newest + len - back) % len;
        proof {
            let w = self.write_idx as int;
            let l = len as int;
            lemma_mod_add_multiples_vanish(w - 1, l);
            assert(newest as int == (w - 1) % l);
            lemma_mod_add_multiples_vanish((w - 1) % l - (k as int) % l, l);
            lemma_sub_mod_noop(w - 1, k as int, l);
            assert(slot as int == (w - 1 - k) % l);
        }
        slot
    }
}

/// The newest sample is the one just written: after an advance that took
/// slot `s`, looking back zero steps finds `s`, and looking back `k` steps
/// finds the slot taken `k` advances earlier (modulo the ring size).
pub proof fn lemma_recent_is_last_written(capacity: int, slot: int, k: int)
    requires
        0 < capacity,
        0 <= slot < capacity,
    ensures
        ((slot + 1) % capacity - 1 - k) % capacity == (slot - k) % capacity,
        ((slot + 1) % capacity - 1) % capacity == slot,
{
    if slot + 1 < capacity {
        lemma_small_mod((slot + 1) as nat, capacity as nat);
        lemma_small_mod(slot as nat, capacity as nat);
    } else {
        lemma_mod_add_multiples_vanish(0, capacity);
        assert((slot + 1) % capacity == 0) by {
            assert(slot + 1 == capacity);
            vstd::arithmetic::div_mod::lemma_mod_self_0(capacity);
        }
        lemma_mod_add_multiples_vanish(-1 - k, capacity);
        assert(capacity + (-1 - k) == slot - k);
        lemma_mod_add_multiples_vanish(-1, capacity);
        lemma_small_mod((capacity - 1) as nat, capacity as nat);
    }
}

} // verus!

//! 22-bit modular wire sequence counters.

use vstd::prelude::*;

verus! {

/// Modulus of the 22-bit sequence space, 2^22.
pub const SEQ_MODULUS: u32 = 0x400000;

/// Half of the sequence space, 2^21; boundary of the "at or after" half-space test.
pub const SEQ_HALF: u32 = 0x200000;

/// Canonical "uninitialized" sentinel, one below the modulus.
pub const SEQ_MAX: u32 = 0x3FFFFF;

/// The value that follows `v` in the sequence space.
pub open spec fn seq_incremented(v: u32) -> u32 {
    if v + 1 == SEQ_MODULUS {
        0
    } else {
        (v + 1) as u32
    }
}

/// The value that precedes `v` in the sequence space.
pub open spec fn seq_decremented(v: u32) -> u32 {
    if v == 0 {
        SEQ_MAX
    } else {
        (v - 1) as u32
    }
}

/// The modular difference `(a - b) mod 2^22`.
pub open spec fn seq_difference(a: u32, b: u32) -> u32 {
    if a >= b {
        (a - b) as u32
    } else {
        (a + SEQ_MODULUS - b) as u32
    }
}

/// `a` is at or after `b` in the half-space sense: the modular difference
/// lands in the lower half of the sequence space.
pub open spec fn seq_at_or_after(a: u32, b: u32) -> bool {
    seq_difference(a, b) < SEQ_HALF
}

/// `v` advanced by `n` steps in the sequence space.
pub open spec fn seq_add(v: u32, n: nat) -> u32 {
    ((v + n) % (SEQ_MODULUS as int)) as u32
}

/// Advancing one more step is one increment.
pub proof fn lemma_seq_add_incr(v: u32, n: nat)
    requires
        v < SEQ_MODULUS,
    ensures
        seq_incremented(seq_add(v, n)) == seq_add(v, n + 1),
        seq_add(v, n) < SEQ_MODULUS,
{
    let m = SEQ_MODULUS as int;
    let a = v + n;
    vstd::arithmetic::div_mod::lemma_mod_bound(a, m);
    vstd::arithmetic::div_mod::lemma_add_mod_noop(a, 1, m);
    vstd::arithmetic::div_mod::lemma_small_mod(1nat, m as nat);
}

/// Advancing zero steps stays put.
pub proof fn lemma_seq_add_zero(v: u32)
    requires
        v < SEQ_MODULUS,
    ensures
        seq_add(v, 0) == v,
{
    vstd::arithmetic::div_mod::lemma_small_mod(v as nat, SEQ_MODULUS as nat);
}

/// A 22-bit unsigned counter modulo 2^22.  Increment wraps; comparison and
/// difference are modular.
pub struct SequenceNumber {
    val: u32,
}

impl View for SequenceNumber {
    type V = u32;

    closed spec fn view(&self) -> u32 {
        self.val
    }
}

impl SequenceNumber {
    /// The counter holds a value inside the sequence space.
    pub open spec fn wf(&self) -> bool {
        self@ < SEQ_MODULUS
    }

    pub fn new(start: u32) -> (r: SequenceNumber)
        requires
            start < SEQ_MODULUS,
        ensures
            r.wf(),
            r@ == start,
    {
        SequenceNumber { val: start }
    }

    pub fn set(&mut self, val: u32)
        requires
            val < SEQ_MODULUS,
        ensures
            final(self).wf(),
            final(self)@ == val,
    {
        self.val = val;
    }

    pub fn incr(&mut self)
        requires
            old(self).wf(),
        ensures
            final(self).wf(),
            final(self)@ == seq_incremented(old(self)@),
    {
        if self.val == SEQ_MAX {
            self.val = 0;
        } else {
            self.val = self.val + 1;
        }
    }

    pub fn decr(&mut self)
        requires
            old(self).wf(),
        ensures
            final(self).wf(),
            final(self)@ == seq_decremented(old(self)@),
    {
        if self.val == 0 {
            self.val = SEQ_MAX;
        } else {
            self.val = self.val - 1;
        }
    }

    pub fn val(&self) -> (r: u32)
        ensures
            r == self@,
    {
        self.val
    }

    /// True iff this counter is at or after `v` in the half-space sense.
    pub fn cmp(&self, v: u32) -> (r: bool)
        requires
            self.wf(),
            v < SEQ_MODULUS,
        ensures
            r == seq_at_or_after(self@, v),
    {
        let d = if self.val >= v {
            self.val - v
        } else {
            self.val + SEQ_MODULUS - v
        };
        d < SEQ_HALF
    }

    /// The modular difference `(self - other) mod 2^22`.
    pub fn diff(&self, other: &SequenceNumber) -> (r: u32)
        requires
            self.wf(),
            other.wf(),
        ensures
            r == seq_difference(self@, other@),
    {
        if self.val >= other.val {
            self.val - other.val
        } else {
            self.val + SEQ_MODULUS - other.val
        }
    }
}

} // verus!

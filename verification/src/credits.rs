//! Per-channel credit pools with log2-encoded grant extraction.
//!
//! Transmitted credit grants are log-encoded into 5 bits of the packet
//! header, so the sender only consumes power-of-two chunks from a pool.

use vstd::arithmetic::power2::lemma2_to64;
use vstd::arithmetic::power2::lemma_pow2_pos;
use vstd::arithmetic::power2::lemma_pow2_strictly_increases;
use vstd::arithmetic::power2::lemma_pow2_unfold;
use vstd::arithmetic::power2::pow2;
use vstd::prelude::*;

use crate::tilelink_messages::OmnixtendChannel;

verus! {

/// Largest grant exponent the 5-bit wire encoding can carry.
pub const MAX_GRANT_LOG2: u32 = 31;

/// The pool slot of a channel: channels A-E use slots 0-4.
pub open spec fn spec_chan_index(chan: OmnixtendChannel) -> int {
    chan.spec_num() - 1
}

/// Floor of the base-2 logarithm of `v`, capped at 31 so that the grant
/// always fits the 5-bit wire encoding.
pub open spec fn spec_grant_log2(v: nat) -> nat
    decreases v,
{
    if v < 2 {
        0
    } else if v >= 0x80000000 {
        31
    } else {
        1 + spec_grant_log2(v / 2)
    }
}

/// A grant of 2^spec_grant_log2(v) never exceeds a non-empty pool of v.
pub proof fn lemma_grant_fits(v: nat)
    requires
        v >= 1,
    ensures
        spec_grant_log2(v) <= 31,
        pow2(spec_grant_log2(v)) <= v,
    decreases v,
{
    lemma2_to64();
    if v < 2 {
    } else if v >= 0x80000000 {
    } else {
        lemma_grant_fits(v / 2);
        lemma_pow2_unfold((1 + spec_grant_log2(v / 2)) as nat);
    }
}

/// Five independent non-negative credit pools, one per TileLink channel.
/// A pool only ever moves by `add` (increase) and `take` (decrease when the
/// pool covers the amount), so it can never fall below zero.
pub struct Credits {
    pools: Vec<usize>,
}

impl View for Credits {
    type V = Seq<nat>;

    closed spec fn view(&self) -> Seq<nat> {
        self.pools@.map_values(|v: usize| v as nat)
    }
}

impl Credits {
    pub open spec fn wf(&self) -> bool {
        self@.len() == 5
    }

    /// All five pools start at the same value.
    pub fn new(credits: usize) -> (r: Credits)
        ensures
            r.wf(),
            forall|i: int| 0 <= i < 5 ==> r@[i] == credits as nat,
    {
        let mut pools: Vec<usize> = Vec::new();
        pools.push(credits);
        pools.push(credits);
        pools.push(credits);
        pools.push(credits);
        pools.push(credits);
        Credits { pools }
    }

    /// Increase a pool; a no-op for the invalid channel.  The pool saturates
    /// at the machine limit instead of wrapping.
    pub fn add(&mut self, chan: OmnixtendChannel, credits: usize)
        requires
            old(self).wf(),
        ensures
            final(self).wf(),
            chan == OmnixtendChannel::INVALID ==> final(self)@ == old(self)@,
            chan != OmnixtendChannel::INVALID ==> final(self)@ == old(self)@.update(
                spec_chan_index(chan),
                if old(self)@[spec_chan_index(chan)] + credits <= usize::MAX {
                    (old(self)@[spec_chan_index(chan)] + credits) as nat
                } else {
                    usize::MAX as nat
                },
            ),
    {
        if chan != OmnixtendChannel::INVALID {
            let i = (chan.to_num() - 1) as usize;
            let cur = self.pools[i];
            let next = if cur <= usize::MAX - credits {
                cur + credits
            } else {
                usize::MAX
            };
            self.pools.set(i, next);
            proof {
                assert(self@ =~= old(self)@.update(spec_chan_index(chan), next as nat));
            }
        }
    }

    /// Deduct `amount` and return true iff the pool covers it; a pool is
    /// never driven below zero, and nothing moves on failure.
    pub fn take(&mut self, chan: OmnixtendChannel, amount: usize) -> (r: bool)
        requires
            old(self).wf(),
        ensures
            final(self).wf(),
            r == (chan != OmnixtendChannel::INVALID && old(self)@[spec_chan_index(chan)]
                >= amount),
            r ==> final(self)@ == old(self)@.update(
                spec_chan_index(chan),
                (old(self)@[spec_chan_index(chan)] - amount) as nat,
            ),
            !r ==> final(self)@ == old(self)@,
    {
        if chan != OmnixtendChannel::INVALID {
            let i = (chan.to_num() - 1) as usize;
            let cur = self.pools[i];
            if cur >= amount {
                self.pools.set(i, cur - amount);
                proof {
                    assert(self@ =~= old(self)@.update(
                        spec_chan_index(chan),
                        (old(self)@[spec_chan_index(chan)] - amount) as nat,
                    ));
                }
                true
            } else {
                false
            }
        } else {
            false
        }
    }

    /// True iff some pool holds credits.
    pub fn any(&self) -> (r: bool)
        requires
            self.wf(),
        ensures
            r == exists|i: int| 0 <= i < 5 && self@[i] > 0,
    {
        let mut i: usize = 0;
        while i < 5
            invariant
                self.wf(),
                i <= 5,
                forall|j: int| 0 <= j < i ==> self@[j] == 0,
            decreases 5 - i,
        {
            if self.pools[i] != 0 {
                proof {
                    assert(self@[i as int] > 0);
                }
                return true;
            }
            i = i + 1;
        }
        false
    }

    /// Find the fullest pool, deduct the largest power of two the 5-bit
    /// grant encoding can carry, and return (channel number, exponent).
    /// When every pool is empty, nothing changes and (0, 0) comes back.
    pub fn get_highest(&mut self) -> (r: (u32, u32))
        requires
            old(self).wf(),
        ensures
            final(self).wf(),
            (forall|i: int| 0 <= i < 5 ==> old(self)@[i] == 0) ==> r == (0u32, 0u32)
                && final(self)@ == old(self)@,
            (exists|i: int| 0 <= i < 5 && old(self)@[i] > 0) ==> {
                &&& 1 <= r.0 <= 5
                &&& old(self)@[r.0 - 1] > 0
                &&& forall|i: int| 0 <= i < 5 ==> #[trigger] old(self)@[i] <= old(self)@[r.0 - 1]
                &&& r.1 == spec_grant_log2(old(self)@[r.0 - 1])
                &&& r.1 <= MAX_GRANT_LOG2
                &&& pow2(r.1 as nat) <= old(self)@[r.0 - 1]
                &&& final(self)@ == old(self)@.update(
                    r.0 - 1,
                    (old(self)@[r.0 - 1] - pow2(r.1 as nat)) as nat,
                )
            },
    {
        let mut best: usize = 0;
        let mut best_val: usize = 0;
        let mut i: usize = 0;
        while i < 5
            invariant
                self.wf(),
                self@ == old(self)@,
                i <= 5,
                best < 5,
                best_val > 0 ==> self@[best as int] == best_val as nat,
                forall|j: int| 0 <= j < i ==> self@[j] <= best_val as nat,
            decreases 5 - i,
        {
            if self.pools[i] > best_val {
                best = i;
                best_val = self.pools[i];
            }
            i = i + 1;
        }
        if best_val == 0 {
            (0, 0)
        } else {
            let m = grant_log2(best_val);
            let grant = pow2_exec(m);
            proof {
                lemma_grant_fits(best_val as nat);
            }
            let cur = self.pools[best];
            self.pools.set(best, cur - grant);
            proof {
                assert(self@ =~= old(self)@.update(
                    best as int,
                    (old(self)@[best as int] - pow2(m as nat)) as nat,
                ));
            }
            ((best + 1) as u32, m)
        }
    }

    /// Copy another credit set's pools over this one.
    pub fn reset_to(&mut self, other: &Credits)
        requires
            old(self).wf(),
            other.wf(),
        ensures
            final(self).wf(),
            final(self)@ == other@,
    {
        let mut pools: Vec<usize> = Vec::new();
        let mut i: usize = 0;
        while i < 5
            invariant
                other.wf(),
                i <= 5,
                pools@.len() == i,
                forall|j: int| 0 <= j < i ==> pools@[j] as nat == other@[j],
            decreases 5 - i,
        {
            pools.push(other.pools[i]);
            i = i + 1;
        }
        self.pools = pools;
        proof {
            assert(self@ =~= other@);
        }
    }
}

/// Multiplying both sides of `a <= b` by a non-negative factor keeps them
/// ordered.
proof fn lemma_mul_le(a: nat, b: nat, p: nat)
    by (nonlinear_arith)
    requires
        a <= b,
    ensures
        a * p <= b * p,
{
}

/// Floor of the base-2 logarithm, capped at 31.
fn grant_log2(v: usize) -> (r: u32)
    requires
        v >= 1,
    ensures
        r == spec_grant_log2(v as nat),
        r <= 31,
{
    if v >= 0x80000000 {
        31
    } else {
        let mut e: u32 = 0;
        let mut x: usize = v;
        proof {
            lemma2_to64();
        }
        while x >= 2
            invariant
                1 <= x <= v,
                v < 0x80000000,
                e <= 31,
                spec_grant_log2(v as nat) == e + spec_grant_log2(x as nat),
                x as nat * pow2(e as nat) <= v as nat,
            decreases x,
        {
            proof {
                lemma_pow2_unfold((e + 1) as nat);
                // (x / 2) * 2 <= x, so halving x while doubling the power
                // keeps the product under v.
                lemma_mul_le(((x as nat) / 2) * 2, x as nat, pow2(e as nat));
                assert(((x as nat) / 2) * (2 * pow2(e as nat)) == (((x as nat) / 2) * 2) * pow2(
                    e as nat,
                )) by (nonlinear_arith);
                // e stays below 31: otherwise 2 * 2^31 <= x * 2^e <= v < 2^31.
                if e >= 31 {
                    lemma2_to64();
                    if e > 31 {
                        lemma_pow2_strictly_increases(31nat, e as nat);
                    }
                    lemma_mul_le(2, x as nat, pow2(e as nat));
                    assert(false);
                }
            }
            x = x / 2;
            e = e + 1;
        }
        proof {
            lemma_pow2_pos(e as nat);
            lemma_mul_le(1, x as nat, pow2(e as nat));
        }
        e
    }
}

/// 2^e as a machine integer.
fn pow2_exec(e: u32) -> (r: usize)
    requires
        e <= 31,
    ensures
        r == pow2(e as nat),
{
    proof {
        lemma2_to64();
    }
    let mut i: u32 = 0;
    let mut r: usize = 1;
    while i < e
        invariant
            i <= e,
            e <= 31,
            r == pow2(i as nat),
        decreases e - i,
    {
        proof {
            lemma_pow2_unfold((i + 1) as nat);
            lemma2_to64();
            if i < 30 {
                lemma_pow2_strictly_increases(i as nat, 30nat);
            }
        }
        r = r * 2;
        i = i + 1;
    }
    r
}

} // verus!

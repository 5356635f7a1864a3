//! Packet-wide helpers: splitting byte strings into 64-bit flits and feeding
//! a received frame through connection, credits, cache and dispatcher.

use vstd::arithmetic::power2::lemma2_to64;
use vstd::arithmetic::power2::lemma2_to64_rest;
use vstd::arithmetic::power2::lemma_pow2_pos;
use vstd::arithmetic::power2::lemma_pow2_strictly_increases;
use vstd::arithmetic::power2::lemma_pow2_unfold;
use vstd::arithmetic::power2::pow2;
use vstd::prelude::*;

use crate::wire::read_u64_le;
use crate::wire::spec_u64_from_le;

verus! {

/// The first eight bytes of `s`, zero-padded when `s` is shorter.
pub open spec fn spec_take8_padded(s: Seq<u8>) -> Seq<u8> {
    Seq::new(
        8,
        |j: int|
            if j < s.len() {
                s[j]
            } else {
                0u8
            },
    )
}

/// How many 64-bit flits a byte string of length `len` fills.
pub open spec fn spec_chunk_count(len: nat) -> nat {
    (len + 7) / 8
}

/// Flit `i` of a byte string: eight little-endian bytes, zero-padded at the
/// tail.
pub open spec fn spec_chunk_at(p: Seq<u8>, i: int) -> u64 {
    spec_u64_from_le(spec_take8_padded(p.skip(8 * i)))
}

/// Split a byte string into 64-bit little-endian words, padding the last
/// word with zero bytes.
pub fn chunkize_packet(p: &[u8]) -> (r: Vec<u64>)
    requires
        p@.len() + 8 <= usize::MAX,
    ensures
        r@.len() == spec_chunk_count(p@.len()),
        forall|i: int| 0 <= i < r@.len() ==> r@[i] == spec_chunk_at(p@, i),
{
    let len = p.len();
    let mut r: Vec<u64> = Vec::new();
    let mut base: usize = 0;
    while base < len
        invariant
            len == p@.len(),
            len + 8 <= usize::MAX,
            base % 8 == 0,
            base <= len + 7,
            r@.len() * 8 == base,
            forall|i: int| 0 <= i < r@.len() ==> r@[i] == spec_chunk_at(p@, i),
        decreases len + 8 - base,
    {
        let chunk = if len - base >= 8 {
            let c = read_u64_le(p, base);
            proof {
                assert(p@.subrange(base as int, base + 8) =~= spec_take8_padded(
                    p@.skip(8 * (r@.len() as int)),
                ));
            }
            c
        } else {
            let mut c: u64 = 0;
            let b0 = p[base] as u64;
            let b1 = if base + 1 < len {
                p[base + 1] as u64
            } else {
                0
            };
            let b2 = if base + 2 < len {
                p[base + 2] as u64
            } else {
                0
            };
            let b3 = if base + 3 < len {
                p[base + 3] as u64
            } else {
                0
            };
            let b4 = if base + 4 < len {
                p[base + 4] as u64
            } else {
                0
            };
            let b5 = if base + 5 < len {
                p[base + 5] as u64
            } else {
                0
            };
            let b6 = if base + 6 < len {
                p[base + 6] as u64
            } else {
                0
            };
            c = (b6 << 48) | (b5 << 40) | (b4 << 32) | (b3 << 24) | (b2 << 16) | (b1 << 8) | b0;
            proof {
                let tail = spec_take8_padded(p@.skip(8 * (r@.len() as int)));
                assert(tail[7] == 0 && tail[0] == b0 as u8 && tail[1] == b1 as u8 && tail[2]
                    == b2 as u8 && tail[3] == b3 as u8 && tail[4] == b4 as u8 && tail[5] == b5 as u8
                    && tail[6] == b6 as u8);
                assert(((0u64 << 56) | (b6 << 48) | (b5 << 40) | (b4 << 32) | (b3 << 24) | (b2
                    << 16) | (b1 << 8) | b0) == (b6 << 48) | (b5 << 40) | (b4 << 32) | (b3 << 24)
                    | (b2 << 16) | (b1 << 8) | b0) by (bit_vector);
                assert((b0 as u8) as u64 == b0 && (b1 as u8) as u64 == b1 && (b2 as u8) as u64 == b2
                    && (b3 as u8) as u64 == b3 && (b4 as u8) as u64 == b4 && (b5 as u8) as u64 == b5
                    && (b6 as u8) as u64 == b6) by (bit_vector)
                    requires
                        b0 < 256 && b1 < 256 && b2 < 256 && b3 < 256 && b4 < 256 && b5 < 256 && b6
                            < 256,
                ;
            }
            c
        };
        r.push(chunk);
        base = base + 8;
    }
    proof {
        assert(r@.len() == spec_chunk_count(p@.len()));
    }
    r
}

} // verus!
// log2 / power-of-two helpers for flit sizing.

verus! {

/// Floor of the base-2 logarithm; zero for inputs below two.
pub open spec fn spec_floor_log2(v: nat) -> nat
    decreases v,
{
    if v < 2 {
        0
    } else {
        1 + spec_floor_log2(v / 2)
    }
}

/// v is an exact power of two.
pub open spec fn spec_is_pow2(v: nat) -> bool {
    v >= 1 && pow2(spec_floor_log2(v)) == v
}

/// The smallest power of two at or above v (one for zero).
pub open spec fn spec_next_pow2(v: nat) -> nat {
    if v <= 1 {
        1
    } else if spec_is_pow2(v) {
        v
    } else {
        pow2(spec_floor_log2(v) + 1)
    }
}

/// The floor log2 brackets its argument between two powers of two.
pub proof fn lemma_floor_log2_bounds(v: nat)
    requires
        v >= 1,
    ensures
        pow2(spec_floor_log2(v)) <= v,
        v < pow2(spec_floor_log2(v) + 1),
    decreases v,
{
    lemma2_to64();
    if v < 2 {
        lemma_pow2_unfold(1nat);
    } else {
        lemma_floor_log2_bounds(v / 2);
        lemma_pow2_unfold((spec_floor_log2(v / 2) + 1) as nat);
        lemma_pow2_unfold((spec_floor_log2(v / 2) + 2) as nat);
    }
}

/// Multiplying both sides of `a <= b` by a non-negative factor keeps them
/// ordered.
proof fn lemma_mul_le_both(a: nat, b: nat, p: nat)
    by (nonlinear_arith)
    requires
        a <= b,
    ensures
        a * p <= b * p,
{
}

/// Floor of the base-2 logarithm of a machine integer.
pub fn floor_log2(v: usize) -> (r: u32)
    requires
        v >= 1,
    ensures
        r == spec_floor_log2(v as nat),
        r <= 63,
{
    let mut e: u32 = 0;
    let mut x: usize = v;
    proof {
        lemma2_to64();
        lemma2_to64_rest();
    }
    while x >= 2
        invariant
            1 <= x <= v,
            e <= 63,
            spec_floor_log2(v as nat) == e + spec_floor_log2(x as nat),
            x as nat * pow2(e as nat) <= v as nat,
        decreases x,
    {
        proof {
            lemma_pow2_unfold((e + 1) as nat);
            lemma_mul_le_both(((x as nat) / 2) * 2, x as nat, pow2(e as nat));
            assert(((x as nat) / 2) * (2 * pow2(e as nat)) == (((x as nat) / 2) * 2) * pow2(
                e as nat,
            )) by (nonlinear_arith);
            if e >= 63 {
                lemma2_to64();
                lemma2_to64_rest();
                if e > 63 {
                    lemma_pow2_strictly_increases(63nat, e as nat);
                }
                lemma_mul_le_both(2, x as nat, pow2(e as nat));
                assert(false);
            }
        }
        x = x / 2;
        e = e + 1;
    }
    proof {
        lemma_pow2_pos(e as nat);
        lemma_mul_le_both(1, x as nat, pow2(e as nat));
    }
    e
}

/// 2^e as a 64-bit machine integer.
pub fn pow2_u64(e: u32) -> (r: u64)
    requires
        e <= 63,
    ensures
        r == pow2(e as nat),
{
    proof {
        lemma2_to64();
        lemma2_to64_rest();
    }
    let mut i: u32 = 0;
    let mut r: u64 = 1;
    while i < e
        invariant
            i <= e,
            e <= 63,
            r == pow2(i as nat),
        decreases e - i,
    {
        proof {
            lemma_pow2_unfold((i + 1) as nat);
            lemma2_to64();
            lemma2_to64_rest();
            if i < 62 {
                lemma_pow2_strictly_increases(i as nat, 62nat);
            }
        }
        r = r * 2;
        i = i + 1;
    }
    r
}

/// True iff v is an exact power of two.
pub fn is_power_of_two(v: usize) -> (r: bool)
    ensures
        r == spec_is_pow2(v as nat),
{
    if v == 0 {
        false
    } else {
        let m = floor_log2(v);
        let p = pow2_u64(m);
        p == v as u64
    }
}

/// The smallest power of two at or above v (one for zero).
pub fn next_pow2(v: usize) -> (r: usize)
    requires
        v <= 0x40000000,
    ensures
        r == spec_next_pow2(v as nat),
        r >= v,
        r >= 1,
        r <= 0x80000000,
        spec_is_pow2(r as nat),
{
    if v <= 1 {
        proof {
            lemma2_to64();
        }
        1
    } else {
        let m = floor_log2(v);
        let p = pow2_u64(m);
        proof {
            lemma_floor_log2_bounds(v as nat);
        }
        if p == v as u64 {
            v
        } else {
            proof {
                lemma_pow2_unfold((m + 1) as nat);
                lemma_next_is_pow2((m + 1) as nat);
            }
            (p * 2) as usize
        }
    }
}

/// The next power of two sits at or above its argument, is positive, and is
/// a power of two.
pub proof fn lemma_next_pow2_props(v: nat)
    ensures
        spec_next_pow2(v) >= v,
        spec_next_pow2(v) >= 1,
        spec_is_pow2(spec_next_pow2(v)),
{
    lemma2_to64();
    if v <= 1 {
        lemma_next_is_pow2(0nat);
    } else if spec_is_pow2(v) {
    } else {
        lemma_floor_log2_bounds(v);
        lemma_next_is_pow2((spec_floor_log2(v) + 1) as nat);
    }
}

/// A literal power of two satisfies the power-of-two predicate.
pub proof fn lemma_next_is_pow2(e: nat)
    ensures
        spec_is_pow2(pow2(e)),
    decreases e,
{
    lemma2_to64();
    if e == 0 {
    } else {
        lemma_next_is_pow2((e - 1) as nat);
        lemma_pow2_unfold(e);
        lemma_pow2_pos((e - 1) as nat);
        assert(pow2(e) / 2 == pow2((e - 1) as nat));
        assert(spec_floor_log2(pow2(e)) == 1 + spec_floor_log2(pow2((e - 1) as nat)));
        lemma_pow2_unfold((spec_floor_log2(pow2((e - 1) as nat)) + 1) as nat);
    }
}

} // verus!

// Feeding one received frame through the whole engine.

use crate::cache::Cache;
use crate::channels::Channel;
use crate::channels::SpecResponse;
use crate::connection::Connection;
use crate::operations;
use crate::operations::Operations;
use crate::tilelink_messages::OmnixtendChannel;

verus! {

/// One piggybacked grant booked into its pool, saturating at the machine
/// limit; the invalid channel books nothing.
pub open spec fn spec_book_one(pools: Seq<nat>, chan: OmnixtendChannel, amount: nat) -> Seq<nat> {
    if chan == OmnixtendChannel::INVALID {
        pools
    } else {
        let i = crate::credits::spec_chan_index(chan);
        pools.update(
            i,
            if pools[i] + amount <= usize::MAX {
                (pools[i] + amount) as nat
            } else {
                usize::MAX as nat
            },
        )
    }
}

/// The credit pools after a row of grants was booked, front first.
pub open spec fn spec_book_credits(pools: Seq<nat>, grants: Seq<(OmnixtendChannel, nat)>) -> Seq<
    nat,
>
    decreases grants.len(),
{
    if grants.len() == 0 {
        pools
    } else {
        spec_book_credits(spec_book_one(pools, grants[0].0, grants[0].1), grants.skip(1))
    }
}

/// The completion slots after a row of responses was delivered, front
/// first; a source tag out of range delivers nothing.
pub open spec fn spec_deliver_responses(
    slots: Seq<Option<(u32, Result<Seq<u8>, operations::Error>)>>,
    rs: Seq<SpecResponse>,
) -> Seq<Option<(u32, Result<Seq<u8>, operations::Error>)>>
    decreases rs.len(),
{
    if rs.len() == 0 {
        slots
    } else {
        let slots2 = if rs[0].0 < operations::SOURCE_COUNT {
            slots.update(rs[0].0 as int, Some((rs[0].1, rs[0].2)))
        } else {
            slots
        };
        spec_deliver_responses(slots2, rs.skip(1))
    }
}

/// Digest one received frame: the connection validates and sequences it,
/// the payload fans out into credit grants booked for the peer, probes for
/// the cache and responses delivered to the dispatcher's completion slots.
/// A payload that does not parse is dropped silently, as the link may carry
/// anything.
pub fn process_packet(
    v: &[u8],
    connection: &mut Connection,
    cache: &mut Cache,
    operations: &mut Operations,
    now_micros: u64,
) -> (r: Result<(), crate::Error>)
    requires
        old(connection).wf(),
        old(cache).wf(),
        old(operations).wf(),
    ensures
        final(connection).wf(),
        final(cache).wf(),
        final(operations).wf(),
        final(cache).entries_view() == old(cache).entries_view(),
        final(operations).sources() == old(operations).sources(),
        final(operations).pending_view() == old(operations).pending_view(),
        final(operations).outstanding() == old(operations).outstanding(),
        v@.len() < 22 ==> r == Result::<(), crate::Error>::Err(
            crate::Error::ConnectionError { source: crate::connection::Error::NotEthernetPacket },
        ),
        ({
            let payload = crate::omnixtend::spec_frame_payload(v@);
            let hdr = crate::omnixtend::spec_frame_header(v@);
            let demuxed = v@.len() >= 22 && crate::omnixtend::spec_frame_dst(v@) == old(
                connection,
            ).my_mac && crate::omnixtend::spec_frame_ethertype(v@)
                == crate::omnixtend::OMNIXTEND_ETHERTYPE && hdr.sequence_number
                == old(connection).next_rx_seq@ && hdr.message_type != 1 && payload.len() >= 8
                && crate::channels::spec_parse_from(payload, 0) is Ok;
            let parsed = crate::channels::spec_parse_from(payload, 0)->Ok_0;
            &&& (demuxed ==> {
                &&& final(cache).probes_view() == old(cache).probes_view() + parsed.1
                &&& final(connection).credits_receive@ == spec_book_credits(
                    old(connection).credits_receive@,
                    parsed.0,
                )
                &&& operations::spec_completions_model(final(operations).completions_view())
                    == spec_deliver_responses(
                    operations::spec_completions_model(old(operations).completions_view()),
                    parsed.2,
                )
            })
            &&& (!demuxed ==> {
                &&& final(cache).probes_view() == old(cache).probes_view()
                &&& final(connection).credits_receive@ == old(connection).credits_receive@
                &&& final(operations).completions_view() == old(operations).completions_view()
            })
        }),
{
    let payload = match connection.process_packets(v, now_micros) {
        Ok(p) => p,
        Err(e) => {
            return Err(crate::Error::ConnectionError { source: e });
        },
    };
    match Channel::process_messages(payload.as_slice()) {
        Ok((credits, probes, responses)) => {
            // Book every piggybacked grant into the receive pools.
            let ghost grants_all = crate::channels::spec_credits_view(credits@);
            let ghost pools0 = connection.credits_receive@;
            proof {
                assert(grants_all.skip(0) =~= grants_all);
            }
            let mut i: usize = 0;
            let n = credits.len();
            while i < n
                invariant
                    n == credits@.len(),
                    grants_all == crate::channels::spec_credits_view(credits@),
                    i <= n,
                    connection.wf(),
                    spec_book_credits(pools0, grants_all) == spec_book_credits(
                        connection.credits_receive@,
                        grants_all.skip(i as int),
                    ),
                decreases n - i,
            {
                proof {
                    assert(grants_all.skip(i as int)[0] == grants_all[i as int]);
                    assert(grants_all.skip(i as int).skip(1) =~= grants_all.skip(i + 1));
                    assert(grants_all[i as int] == (credits@[i as int].0, credits@[
                        i as int
                    ].1 as nat));
                }
                let ghost pools_before = connection.credits_receive@;
                let (chan, amount) = credits[i];
                connection.add_receive_credits(chan, amount);
                i = i + 1;
                proof {
                    assert(connection.credits_receive@ == spec_book_one(
                        pools_before,
                        chan,
                        amount as nat,
                    ));
                }
            }
            proof {
                assert(grants_all.skip(n as int).len() == 0);
            }
            // Queue every probe for the cache.
            let ghost probes0 = cache.probes_view();
            let mut j: usize = 0;
            let m = probes.len();
            while j < m
                invariant
                    m == probes@.len(),
                    j <= m,
                    cache.wf(),
                    cache.probes_view() == probes0 + probes@.take(j as int),
                    cache.entries_view() == old(cache).entries_view(),
                decreases m - j,
            {
                let probe = probes[j];
                cache.add_probe(probe);
                j = j + 1;
                proof {
                    assert(cache.probes_view() =~= probes0 + probes@.take(j as int));
                }
            }
            proof {
                assert(probes@.take(m as int) =~= probes@);
            }
            // Deliver every response to its source tag's slot.
            let ghost rs_all = crate::channels::spec_responses_view(responses@);
            let ghost slots0 = operations::spec_completions_model(operations.completions_view());
            let ghost k: int = 0;
            proof {
                assert(rs_all.skip(0) =~= rs_all);
            }
            let mut responses = responses;
            while responses.len() > 0
                invariant
                    operations.wf(),
                    0 <= k <= rs_all.len(),
                    crate::channels::spec_responses_view(responses@) == rs_all.skip(k),
                    responses@.len() == rs_all.len() - k,
                    spec_deliver_responses(slots0, rs_all) == spec_deliver_responses(
                        operations::spec_completions_model(operations.completions_view()),
                        rs_all.skip(k),
                    ),
                    operations.sources() == old(operations).sources(),
                    operations.pending_view() == old(operations).pending_view(),
                    operations.outstanding() == old(operations).outstanding(),
                decreases responses@.len(),
            {
                let ghost rs_before = responses@;
                let ghost slots_before = operations::spec_completions_model(
                    operations.completions_view(),
                );
                let (source, sink, result) = responses.remove(0);
                let ghost resv: Result<Seq<u8>, operations::Error> = if result is Ok {
                    Ok(result->Ok_0@)
                } else {
                    Err(result->Err_0)
                };
                proof {
                    assert(crate::channels::spec_responses_view(rs_before)[0] == (
                        source,
                        sink,
                        resv,
                    ));
                }
                operations.complete(source, sink, result);
                proof {
                    k = k + 1;
                    assert(rs_all.skip(k - 1)[0] == (source, sink, resv));
                    assert forall|q: int|
                        0 <= q < responses@.len() implies #[trigger] crate::channels::spec_responses_view(
                        responses@,
                    )[q] == rs_all.skip(k)[q] by {
                        assert(responses@[q] == rs_before[q + 1]);
                        assert(crate::channels::spec_responses_view(rs_before)[q + 1]
                            == rs_all.skip(k - 1)[q + 1]);
                    }
                    assert(crate::channels::spec_responses_view(responses@) =~= rs_all.skip(k));
                    if source < operations::SOURCE_COUNT {
                        assert(operations::spec_completions_model(operations.completions_view())
                            =~= slots_before.update(source as int, Some((sink, resv))));
                    } else {
                        assert(operations::spec_completions_model(operations.completions_view())
                            =~= slots_before);
                    }
                    assert(rs_all.skip(k - 1).skip(1) =~= rs_all.skip(k));
                    assert(spec_deliver_responses(slots_before, rs_all.skip(k - 1))
                        == spec_deliver_responses(
                        operations::spec_completions_model(operations.completions_view()),
                        rs_all.skip(k),
                    ));
                }
            }
            proof {
                assert(rs_all.skip(rs_all.len() as int).len() == 0);
            }
            Ok(())
        },
        Err(_) => Ok(()),
    }
}

} // verus!

//! Demultiplexing of a received OmniXtend payload.
//!
//! The payload between the packet header and the start-of-message mask is a
//! row of TileLink messages.  As the requester side, this engine accepts
//! probes on channel B and responses on channel D; each message also refunds
//! the credits its flits consumed on the peer's side.

use vstd::prelude::*;

use crate::cache::Probe;
use crate::operations;
use crate::tilelink_messages::ChanABCDTilelinkMessage;
use crate::tilelink_messages::OmnixtendChannel;
use crate::utils::pow2_u64;
use crate::wire::read_u64_be;
use crate::wire::spec_u64_from_be;
use vstd::arithmetic::power2::pow2;

verus! {

/// Why a payload was rejected.
#[derive(Debug, Clone, Copy, PartialEq, Eq, Structural)]
pub enum Error {
    /// The payload cannot hold the message row it announces.
    ShortPayload { pl: usize },
    /// A message arrived on a channel this requester never receives.
    UnexpectedChannel { chan: u8 },
    /// An opcode this requester does not handle.
    UnhandledOpcode { opcode: u8 },
}

/// A response delivered to the dispatcher: source, sink, and the data or the
/// error of the access.
pub type Response = (u32, u32, Result<Vec<u8>, operations::Error>);

/// A response at the specification level carries its bytes as a sequence.
pub type SpecResponse = (u32, u32, Result<Seq<u8>, operations::Error>);

/// The message header that starts at `pos`.
pub open spec fn spec_msg_at(payload: Seq<u8>, pos: int) -> ChanABCDTilelinkMessage {
    ChanABCDTilelinkMessage::spec_from_u64(spec_u64_from_be(payload.subrange(pos, pos + 8)))
}

/// The err field's deny bit.
pub open spec fn spec_denied(msg: ChanABCDTilelinkMessage) -> bool {
    msg.err >= 2
}

/// Bytes announced by a response's size field.
pub open spec fn spec_read_bytes(msg: ChanABCDTilelinkMessage) -> nat {
    pow2(msg.size as nat)
}

/// Flits those bytes occupy, at least one.
pub open spec fn spec_read_flits(msg: ChanABCDTilelinkMessage) -> nat {
    if spec_read_bytes(msg) / 8 == 0 {
        1
    } else {
        spec_read_bytes(msg) / 8
    }
}

/// What one channel B message at `pos` yields: a probe, a credit refund, and
/// the bytes consumed.
pub open spec fn spec_handle_b(payload: Seq<u8>, pos: int) -> Result<
    ((ChanABCDTilelinkMessage, u64), (OmnixtendChannel, nat), int),
    Error,
> {
    let msg = spec_msg_at(payload, pos);
    if msg.opcode == 6 || msg.opcode == 7 {
        if pos + 16 <= payload.len() {
            Ok(
                (
                    (msg, spec_u64_from_be(payload.subrange(pos + 8, pos + 16))),
                    (OmnixtendChannel::B, 2nat),
                    16int,
                ),
            )
        } else {
            Err(Error::ShortPayload { pl: payload.len() as usize })
        }
    } else {
        Err(Error::UnhandledOpcode { opcode: msg.opcode })
    }
}

/// What one channel D message at `pos` yields: a response for the
/// dispatcher, a credit refund, and the bytes consumed.
pub open spec fn spec_handle_d(payload: Seq<u8>, pos: int) -> Result<
    (SpecResponse, (OmnixtendChannel, nat), int),
    Error,
> {
    let msg = spec_msg_at(payload, pos);
    let denied = spec_denied(msg);
    if msg.opcode == 0 {
        Ok(
            (
                (
                    msg.source,
                    0u32,
                    if denied {
                        Err(operations::Error::UnalignedAccess)
                    } else {
                        Ok(Seq::<u8>::empty())
                    },
                ),
                (OmnixtendChannel::D, 1nat),
                8int,
            ),
        )
    } else if msg.opcode == 1 {
        let rb = spec_read_bytes(msg) as int;
        let rf = spec_read_flits(msg) as int;
        if pos + 8 + rb <= payload.len() {
            Ok(
                (
                    (
                        msg.source,
                        0u32,
                        if denied {
                            Err(operations::Error::UnalignedAccess)
                        } else {
                            Ok(payload.subrange(pos + 8, pos + 8 + rb))
                        },
                    ),
                    (OmnixtendChannel::D, (1 + rf) as nat),
                    8 + rf * 8,
                ),
            )
        } else {
            Err(Error::ShortPayload { pl: payload.len() as usize })
        }
    } else if msg.opcode == 4 {
        if pos + 16 <= payload.len() {
            let sink = (spec_u64_from_be(payload.subrange(pos + 8, pos + 16)) & 0x3FFFFFF) as u32;
            Ok(
                (
                    (
                        msg.source,
                        sink,
                        if denied {
                            Err(operations::Error::UnalignedAccess)
                        } else {
                            Ok(Seq::<u8>::empty())
                        },
                    ),
                    (OmnixtendChannel::D, 2nat),
                    16int,
                ),
            )
        } else {
            Err(Error::ShortPayload { pl: payload.len() as usize })
        }
    } else if msg.opcode == 5 {
        let rb = spec_read_bytes(msg) as int;
        let rf = spec_read_flits(msg) as int;
        if pos + 16 + rb <= payload.len() {
            let sink = (spec_u64_from_be(payload.subrange(pos + 8, pos + 16)) & 0x3FFFFFF) as u32;
            Ok(
                (
                    (
                        msg.source,
                        sink,
                        if denied {
                            Err(operations::Error::UnalignedAccess)
                        } else {
                            Ok(payload.subrange(pos + 16, pos + 16 + rb))
                        },
                    ),
                    (OmnixtendChannel::D, (2 + rf) as nat),
                    16 + rf * 8,
                ),
            )
        } else {
            Err(Error::ShortPayload { pl: payload.len() as usize })
        }
    } else if msg.opcode == 6 {
        Ok(((msg.source, 0u32, Ok(Seq::<u8>::empty())), (OmnixtendChannel::D, 1nat), 8int))
    } else {
        Err(Error::UnhandledOpcode { opcode: msg.opcode })
    }
}

/// One message step: the credits, probes and responses it yields and the
/// bytes it consumes.
pub open spec fn spec_step(payload: Seq<u8>, pos: int) -> Result<
    (
        Seq<(OmnixtendChannel, nat)>,
        Seq<(ChanABCDTilelinkMessage, u64)>,
        Seq<SpecResponse>,
        int,
    ),
    Error,
> {
    let msg = spec_msg_at(payload, pos);
    match msg.chan {
        OmnixtendChannel::INVALID => Ok((Seq::empty(), Seq::empty(), Seq::empty(), 8int)),
        OmnixtendChannel::B => match spec_handle_b(payload, pos) {
            Ok((probe, credit, adv)) => Ok(
                (seq![credit], seq![probe], Seq::<SpecResponse>::empty(), adv),
            ),
            Err(e) => Err(e),
        },
        OmnixtendChannel::D => match spec_handle_d(payload, pos) {
            Ok((resp, credit, adv)) => Ok(
                (seq![credit], Seq::<(ChanABCDTilelinkMessage, u64)>::empty(), seq![resp], adv),
            ),
            Err(e) => Err(e),
        },
        _ => Err(Error::UnexpectedChannel { chan: msg.chan.spec_num() as u8 }),
    }
}

/// The full demultiplexed payload from `pos` on: everything every message
/// before the mask trailer yields, in order.
pub open spec fn spec_parse_from(payload: Seq<u8>, pos: int) -> Result<
    (
        Seq<(OmnixtendChannel, nat)>,
        Seq<(ChanABCDTilelinkMessage, u64)>,
        Seq<SpecResponse>,
    ),
    Error,
>
    decreases payload.len() - pos,
{
    if pos >= payload.len() - 8 {
        Ok((Seq::empty(), Seq::empty(), Seq::empty()))
    } else {
        match spec_step(payload, pos) {
            Err(e) => Err(e),
            Ok((cs, ps, rs, adv)) => {
                let step = pos + if adv >= 8 {
                    adv
                } else {
                    8int
                };
                let next = if step > payload.len() {
                    payload.len() as int
                } else {
                    step
                };
                match spec_parse_from(payload, next) {
                    Err(e) => Err(e),
                    Ok((cs2, ps2, rs2)) => Ok((cs + cs2, ps + ps2, rs + rs2)),
                }
            },
        }
    }
}

/// The responses a vector of delivered responses stands for.
pub open spec fn spec_responses_view(rs: Seq<Response>) -> Seq<SpecResponse> {
    rs.map_values(
        |t: Response|
            (
                t.0,
                t.1,
                match t.2 {
                    Ok(v) => Ok(v@),
                    Err(e) => Err(e),
                },
            ),
    )
}

/// The credit refunds a vector of credits stands for.
pub open spec fn spec_credits_view(cs: Seq<(OmnixtendChannel, usize)>) -> Seq<
    (OmnixtendChannel, nat),
> {
    cs.map_values(|t: (OmnixtendChannel, usize)| (t.0, t.1 as nat))
}

/// Copy `s[start..end]` into a fresh vector.
fn copy_range(s: &[u8], start: usize, end: usize) -> (r: Vec<u8>)
    requires
        start <= end <= s@.len(),
    ensures
        r@ == s@.subrange(start as int, end as int),
{
    let mut r: Vec<u8> = Vec::new();
    let mut i: usize = start;
    while i < end
        invariant
            start <= i <= end <= s@.len(),
            r@ =~= s@.subrange(start as int, i as int),
        decreases end - i,
    {
        r.push(s[i]);
        i = i + 1;
        proof {
            assert(r@ =~= s@.subrange(start as int, i as int));
        }
    }
    r
}

/// Receiver-side handlers for the TileLink channels.
pub struct Channel {}

impl Channel {
    /// Channel B carries probes: opcode 6 or 7 gives the probe header and
    /// its address.
    fn handle_chan_b(msg: &ChanABCDTilelinkMessage, payload: &[u8], pos: usize) -> (r: Result<
        (Probe, (OmnixtendChannel, usize), usize),
        Error,
    >)
        requires
            pos + 8 <= payload@.len(),
            *msg == spec_msg_at(payload@, pos as int),
        ensures
            r is Ok <==> spec_handle_b(payload@, pos as int) is Ok,
            r is Ok ==> {
                let ok = spec_handle_b(payload@, pos as int)->Ok_0;
                &&& r->Ok_0.0 == ok.0
                &&& r->Ok_0.1.0 == ok.1.0
                &&& r->Ok_0.1.1 as nat == ok.1.1
                &&& r->Ok_0.2 as int == ok.2
            },
            r is Err ==> r->Err_0 == spec_handle_b(payload@, pos as int)->Err_0,
    {
        let len = payload.len();
        if msg.opcode == 6 || msg.opcode == 7 {
            if len - pos >= 16 {
                let addr = read_u64_be(payload, pos + 8);
                Ok(((msg.clone(), addr), (OmnixtendChannel::B, 2), 16))
            } else {
                Err(Error::ShortPayload { pl: len })
            }
        } else {
            Err(Error::UnhandledOpcode { opcode: msg.opcode })
        }
    }

    /// The data bytes a response announces in its size field.
    fn handle_read(msg: &ChanABCDTilelinkMessage, payload: &[u8], pos: usize) -> (r: Result<
        (usize, Vec<u8>),
        Error,
    >)
        requires
            msg.size < 16,
            pos <= payload@.len(),
        ensures
            r is Ok <==> pos + spec_read_bytes(*msg) <= payload@.len(),
            r is Ok ==> {
                &&& r->Ok_0.0 as nat == spec_read_flits(*msg)
                &&& r->Ok_0.1@ == payload@.subrange(
                    pos as int,
                    pos + spec_read_bytes(*msg),
                )
            },
            r is Err ==> r->Err_0 == (Error::ShortPayload { pl: payload@.len() as usize }),
    {
        let len = payload.len();
        proof {
            vstd::arithmetic::power2::lemma2_to64();
            if msg.size < 15 {
                vstd::arithmetic::power2::lemma_pow2_strictly_increases(msg.size as nat, 15nat);
            }
        }
        let read_bytes = pow2_u64(msg.size as u32) as usize;
        let read_flits = if read_bytes / 8 == 0 {
            1
        } else {
            read_bytes / 8
        };
        if len - pos >= read_bytes {
            let v = copy_range(payload, pos, pos + read_bytes);
            Ok((read_flits, v))
        } else {
            Err(Error::ShortPayload { pl: len })
        }
    }

    /// Channel D carries the responses: access acknowledgements, grants and
    /// release acknowledgements.  The deny bit turns any of them into an
    /// UnalignedAccess error for the waiting caller.
    fn handle_chan_d(msg: &ChanABCDTilelinkMessage, payload: &[u8], pos: usize) -> (r: Result<
        (Response, (OmnixtendChannel, usize), usize),
        Error,
    >)
        requires
            pos + 8 <= payload@.len(),
            msg.size < 16,
            msg.wf(),
            *msg == spec_msg_at(payload@, pos as int),
        ensures
            r is Ok <==> spec_handle_d(payload@, pos as int) is Ok,
            r is Ok ==> {
                let ok = spec_handle_d(payload@, pos as int)->Ok_0;
                &&& r->Ok_0.0.0 == ok.0.0
                &&& r->Ok_0.0.1 == ok.0.1
                &&& (r->Ok_0.0.2 is Ok <==> ok.0.2 is Ok)
                &&& (r->Ok_0.0.2 is Ok ==> r->Ok_0.0.2->Ok_0@ == ok.0.2->Ok_0)
                &&& (r->Ok_0.0.2 is Err ==> r->Ok_0.0.2->Err_0 == ok.0.2->Err_0)
                &&& r->Ok_0.1.0 == ok.1.0
                &&& r->Ok_0.1.1 as nat == ok.1.1
                &&& r->Ok_0.2 as int == ok.2
            },
            r is Err ==> r->Err_0 == spec_handle_d(payload@, pos as int)->Err_0,
    {
        let len = payload.len();
        let denied = (msg.err >> 1) & 1 == 1;
        proof {
            let e = msg.err;
            assert(((e >> 1) & 1 == 1) == (e >= 2)) by (bit_vector)
                requires
                    e < 4,
            ;
        }
        if msg.opcode == 0 {
            // AccessAck
            let v: Result<Vec<u8>, operations::Error> = if denied {
                Err(operations::Error::UnalignedAccess)
            } else {
                Ok(Vec::new())
            };
            Ok(((msg.source, 0, v), (OmnixtendChannel::D, 1), 8))
        } else if msg.opcode == 1 {
            // AccessAckData
            let (read_flits, data) = match Self::handle_read(msg, payload, pos + 8) {
                Ok(t) => t,
                Err(e) => {
                    return Err(e);
                },
            };
            let v: Result<Vec<u8>, operations::Error> = if denied {
                Err(operations::Error::UnalignedAccess)
            } else {
                Ok(data)
            };
            Ok(((msg.source, 0, v), (OmnixtendChannel::D, 1 + read_flits), 8 + read_flits * 8))
        } else if msg.opcode == 4 {
            // Grant
            if len - pos < 16 {
                return Err(Error::ShortPayload { pl: len });
            }
            let sink_word = read_u64_be(payload, pos + 8);
            let sink = (sink_word & 0x3FFFFFF) as u32;
            let v: Result<Vec<u8>, operations::Error> = if denied {
                Err(operations::Error::UnalignedAccess)
            } else {
                Ok(Vec::new())
            };
            Ok(((msg.source, sink, v), (OmnixtendChannel::D, 2), 16))
        } else if msg.opcode == 5 {
            // GrantData
            if len - pos < 16 {
                return Err(Error::ShortPayload { pl: len });
            }
            let sink_word = read_u64_be(payload, pos + 8);
            let sink = (sink_word & 0x3FFFFFF) as u32;
            let (read_flits, data) = match Self::handle_read(msg, payload, pos + 16) {
                Ok(t) => t,
                Err(e) => {
                    return Err(e);
                },
            };
            let v: Result<Vec<u8>, operations::Error> = if denied {
                Err(operations::Error::UnalignedAccess)
            } else {
                Ok(data)
            };
            Ok(((msg.source, sink, v), (OmnixtendChannel::D, 2 + read_flits), 16 + read_flits * 8))
        } else if msg.opcode == 6 {
            // ReleaseAck
            let v: Result<Vec<u8>, operations::Error> = Ok(Vec::new());
            Ok(((msg.source, 0, v), (OmnixtendChannel::D, 1), 8))
        } else {
            Err(Error::UnhandledOpcode { opcode: msg.opcode })
        }
    }

    /// Walk the message row of a payload and fan it out into credit refunds,
    /// probes for the cache, and responses for the dispatcher.
    pub fn process_messages(payload: &[u8]) -> (r: Result<
        (Vec<(OmnixtendChannel, usize)>, Vec<Probe>, Vec<Response>),
        Error,
    >)
        ensures
            payload@.len() < 8 ==> r is Err && r->Err_0 == (Error::ShortPayload {
                pl: payload@.len() as usize,
            }),
            payload@.len() >= 8 ==> {
                &&& r is Ok <==> spec_parse_from(payload@, 0) is Ok
                &&& r is Ok ==> {
                    let ok = spec_parse_from(payload@, 0)->Ok_0;
                    &&& spec_credits_view(r->Ok_0.0@) == ok.0
                    &&& r->Ok_0.1@ == ok.1
                    &&& spec_responses_view(r->Ok_0.2@) == ok.2
                }
                &&& r is Err ==> r->Err_0 == spec_parse_from(payload@, 0)->Err_0
            },
    {
        let len = payload.len();
        if len < 8 {
            return Err(Error::ShortPayload { pl: len });
        }
        let mut credits: Vec<(OmnixtendChannel, usize)> = Vec::new();
        let mut probes: Vec<Probe> = Vec::new();
        let mut responses: Vec<Response> = Vec::new();
        let mut pos: usize = 0;
        proof {
            assert(spec_credits_view(credits@) =~= Seq::<(OmnixtendChannel, nat)>::empty());
            assert(spec_responses_view(responses@) =~= Seq::<SpecResponse>::empty());
            if spec_parse_from(payload@, 0) is Ok {
                let all = spec_parse_from(payload@, 0)->Ok_0;
                assert(all.0 =~= spec_credits_view(credits@) + all.0);
                assert(all.1 =~= probes@ + all.1);
                assert(all.2 =~= spec_responses_view(responses@) + all.2);
            }
        }
        while pos < len - 8
            invariant
                len == payload@.len(),
                len >= 8,
                pos <= len,
                spec_parse_from(payload@, 0) is Ok <==> spec_parse_from(
                    payload@,
                    pos as int,
                ) is Ok,
                spec_parse_from(payload@, 0) is Err ==> spec_parse_from(payload@, 0)->Err_0
                    == spec_parse_from(payload@, pos as int)->Err_0,
                spec_parse_from(payload@, 0) is Ok ==> {
                    let all = spec_parse_from(payload@, 0)->Ok_0;
                    let rest = spec_parse_from(payload@, pos as int)->Ok_0;
                    &&& all.0 == spec_credits_view(credits@) + rest.0
                    &&& all.1 == probes@ + rest.1
                    &&& all.2 == spec_responses_view(responses@) + rest.2
                },
            decreases len - pos,
        {
            let msg = ChanABCDTilelinkMessage::from_u64(read_u64_be(payload, pos));
            let ghost pos0 = pos as int;
            let ghost credits0 = credits@;
            let ghost probes0 = probes@;
            let ghost responses0 = responses@;
            let adv: usize = match msg.chan {
                OmnixtendChannel::INVALID => 8,
                OmnixtendChannel::B => {
                    match Self::handle_chan_b(&msg, payload, pos) {
                        Ok((probe, credit, adv)) => {
                            probes.push(probe);
                            credits.push(credit);
                            adv
                        },
                        Err(e) => {
                            return Err(e);
                        },
                    }
                },
                OmnixtendChannel::D => {
                    match Self::handle_chan_d(&msg, payload, pos) {
                        Ok((resp, credit, adv)) => {
                            responses.push(resp);
                            credits.push(credit);
                            adv
                        },
                        Err(e) => {
                            return Err(e);
                        },
                    }
                },
                _ => {
                    return Err(Error::UnexpectedChannel { chan: msg.chan.to_num() as u8 });
                },
            };
            proof {
                let step = spec_step(payload@, pos0);
                assert(step is Ok);
                let (cs, ps, rs, sadv) = step->Ok_0;
                assert(adv as int == sadv && adv >= 8);
                assert(spec_credits_view(credits@) =~= spec_credits_view(credits0) + cs);
                assert(probes@ =~= probes0 + ps);
                assert(spec_responses_view(responses@) =~= spec_responses_view(responses0) + rs);
                let stepn = pos0 + if sadv >= 8 {
                    sadv
                } else {
                    8int
                };
                let nextn = if stepn > payload@.len() {
                    payload@.len() as int
                } else {
                    stepn
                };
                if spec_parse_from(payload@, 0) is Ok {
                    let all = spec_parse_from(payload@, 0)->Ok_0;
                    let rest = spec_parse_from(payload@, pos0)->Ok_0;
                    let rest2 = spec_parse_from(payload@, nextn)->Ok_0;
                    assert(rest.0 =~= cs + rest2.0);
                    assert(rest.1 =~= ps + rest2.1);
                    assert(rest.2 =~= rs + rest2.2);
                    assert(all.0 =~= spec_credits_view(credits@) + rest2.0);
                    assert(all.1 =~= probes@ + rest2.1);
                    assert(all.2 =~= spec_responses_view(responses@) + rest2.2);
                }
            }
            if adv >= len - pos {
                pos = len;
            } else {
                pos = pos + adv;
            }
        }
        proof {
            if spec_parse_from(payload@, 0) is Ok {
                let all = spec_parse_from(payload@, 0)->Ok_0;
                assert(all.0 =~= spec_credits_view(credits@));
                assert(all.1 =~= probes@);
                assert(all.2 =~= spec_responses_view(responses@));
            }
        }
        Ok((credits, probes, responses))
    }
}


/// A denied response never passes silent data: every channel D message with
/// the deny bit set (release acknowledgements excepted, which carry no
/// outcome) resolves to an UnalignedAccess error for the waiting caller.
pub proof fn lemma_denied_yields_error(payload: Seq<u8>, pos: int)
    requires
        spec_handle_d(payload, pos) is Ok,
        spec_denied(spec_msg_at(payload, pos)),
        spec_msg_at(payload, pos).opcode != 6,
    ensures
        spec_handle_d(payload, pos)->Ok_0.0.2 == Result::<Seq<u8>, operations::Error>::Err(
            operations::Error::UnalignedAccess,
        ),
{
}

} // verus!

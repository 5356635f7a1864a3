//! The OmniXtend packet header and the Ethernet framing around it.
//!
//! A frame is `[14 B Ethernet header][8 B OmniXtend header][payload][8 B
//! start-of-message mask]`.  The OmniXtend header packs, most significant
//! field first: vc(3) | message_type(4) | reserved(3) | sequence_number(22)
//! | sequence_number_ack(22) | ack(1) | reserved(1) | chan(3) | credit(5).

use vstd::prelude::*;

use crate::sequence_number::SEQ_MODULUS;
use crate::wire::read_mac;
use crate::wire::read_u64_be;
use crate::wire::spec_mac_bytes;
use crate::wire::spec_mac_from_bytes;
use crate::wire::spec_u64_be_bytes;
use crate::wire::spec_u64_from_be;

verus! {

/// The EtherType that marks an OmniXtend frame.
pub const OMNIXTEND_ETHERTYPE: u16 = 0xAAAA;

/// Bytes of the Ethernet header: destination, source, EtherType 0xAAAA.
pub open spec fn spec_eth_header_bytes(dst: u64, src: u64) -> Seq<u8> {
    spec_mac_bytes(dst) + spec_mac_bytes(src) + seq![0xAAu8, 0xAAu8]
}

/// The decoded OmniXtend packet header.
#[derive(Debug, Clone, Copy, PartialEq, Eq, Structural)]
pub struct OmnixtendHeader {
    pub vc: u8,
    pub message_type: u8,
    pub sequence_number: u32,
    pub sequence_number_ack: u32,
    pub ack: u8,
    pub chan: u8,
    pub credit: u8,
}

/// The packed 64-bit header word.
pub open spec fn spec_ox_bits(
    vc: u64,
    mt: u64,
    seq: u64,
    seq_ack: u64,
    ack: u64,
    chan: u64,
    credit: u64,
) -> u64 {
    ((vc & 0x7) << 61) | ((mt & 0xF) << 57) | ((seq & 0x3FFFFF) << 32) | ((seq_ack & 0x3FFFFF)
        << 10) | ((ack & 0x1) << 9) | ((chan & 0x7) << 5) | (credit & 0x1F)
}

impl OmnixtendHeader {
    /// Every field fits its wire width.
    pub open spec fn wf(&self) -> bool {
        &&& self.vc < 8
        &&& self.message_type < 16
        &&& self.sequence_number < SEQ_MODULUS
        &&& self.sequence_number_ack < SEQ_MODULUS
        &&& self.ack < 2
        &&& self.chan < 8
        &&& self.credit < 32
    }

    pub open spec fn spec_to_u64(&self) -> u64 {
        spec_ox_bits(
            self.vc as u64,
            self.message_type as u64,
            self.sequence_number as u64,
            self.sequence_number_ack as u64,
            self.ack as u64,
            self.chan as u64,
            self.credit as u64,
        )
    }

    /// The eight header bytes, big-endian.
    pub open spec fn spec_bytes(&self) -> Seq<u8> {
        spec_u64_be_bytes(self.spec_to_u64())
    }

    pub fn to_u64(&self) -> (r: u64)
        ensures
            r == self.spec_to_u64(),
    {
        (((self.vc as u64) & 0x7) << 61) | (((self.message_type as u64) & 0xF) << 57) | (((
        self.sequence_number as u64) & 0x3FFFFF) << 32) | (((self.sequence_number_ack as u64)
            & 0x3FFFFF) << 10) | (((self.ack as u64) & 0x1) << 9) | (((self.chan as u64) & 0x7)
            << 5) | ((self.credit as u64) & 0x1F)
    }

    pub open spec fn spec_from_u64(m: u64) -> OmnixtendHeader {
        OmnixtendHeader {
            vc: ((m >> 61) & 0x7) as u8,
            message_type: ((m >> 57) & 0xF) as u8,
            sequence_number: ((m >> 32) & 0x3FFFFF) as u32,
            sequence_number_ack: ((m >> 10) & 0x3FFFFF) as u32,
            ack: ((m >> 9) & 0x1) as u8,
            chan: ((m >> 5) & 0x7) as u8,
            credit: (m & 0x1F) as u8,
        }
    }

    pub fn from_u64(m: u64) -> (r: OmnixtendHeader)
        ensures
            r == OmnixtendHeader::spec_from_u64(m),
            r.wf(),
    {
        let r = OmnixtendHeader {
            vc: ((m >> 61) & 0x7) as u8,
            message_type: ((m >> 57) & 0xF) as u8,
            sequence_number: ((m >> 32) & 0x3FFFFF) as u32,
            sequence_number_ack: ((m >> 10) & 0x3FFFFF) as u32,
            ack: ((m >> 9) & 0x1) as u8,
            chan: ((m >> 5) & 0x7) as u8,
            credit: (m & 0x1F) as u8,
        };
        proof {
            assert((((m >> 61) & 0x7) as u8) < 8 && (((m >> 57) & 0xF) as u8) < 16 && (((m >> 32)
                & 0x3FFFFF) as u32) < 0x400000 && (((m >> 10) & 0x3FFFFF) as u32) < 0x400000 && (((m
                >> 9) & 0x1) as u8) < 2 && (((m >> 5) & 0x7) as u8) < 8 && ((m & 0x1F) as u8) < 32)
                by (bit_vector);
        }
        r
    }
}

/// Decoding the packed header word gives back every field.
pub proof fn lemma_ox_bits_roundtrip(
    vc: u64,
    mt: u64,
    seq: u64,
    seq_ack: u64,
    ack: u64,
    chan: u64,
    credit: u64,
)
    by (bit_vector)
    requires
        vc < 8,
        mt < 16,
        seq < 0x400000,
        seq_ack < 0x400000,
        ack < 2,
        chan < 8,
        credit < 32,
    ensures
        (spec_ox_bits(vc, mt, seq, seq_ack, ack, chan, credit) >> 61) & 0x7 == vc,
        (spec_ox_bits(vc, mt, seq, seq_ack, ack, chan, credit) >> 57) & 0xF == mt,
        (spec_ox_bits(vc, mt, seq, seq_ack, ack, chan, credit) >> 32) & 0x3FFFFF == seq,
        (spec_ox_bits(vc, mt, seq, seq_ack, ack, chan, credit) >> 10) & 0x3FFFFF == seq_ack,
        (spec_ox_bits(vc, mt, seq, seq_ack, ack, chan, credit) >> 9) & 0x1 == ack,
        (spec_ox_bits(vc, mt, seq, seq_ack, ack, chan, credit) >> 5) & 0x7 == chan,
        spec_ox_bits(vc, mt, seq, seq_ack, ack, chan, credit) & 0x1F == credit,
{
}

/// A well-formed header survives the trip through its 64-bit word.
pub proof fn lemma_ox_header_roundtrip(h: OmnixtendHeader)
    requires
        h.wf(),
    ensures
        OmnixtendHeader::spec_from_u64(h.spec_to_u64()) == h,
{
    lemma_ox_bits_roundtrip(
        h.vc as u64,
        h.message_type as u64,
        h.sequence_number as u64,
        h.sequence_number_ack as u64,
        h.ack as u64,
        h.chan as u64,
        h.credit as u64,
    );
}

/// A frame's decoded envelope: the Ethernet addresses and type, the OmniXtend
/// header, and everything after it (flits, padding and the mask trailer).
pub struct ParsedFrame {
    pub dst_mac: u64,
    pub src_mac: u64,
    pub ethertype: u16,
    pub header: OmnixtendHeader,
    pub payload: Vec<u8>,
}

/// How a byte sequence of frame shape decomposes.
pub open spec fn spec_frame_dst(frame: Seq<u8>) -> u64 {
    spec_mac_from_bytes(frame.subrange(0, 6))
}

pub open spec fn spec_frame_src(frame: Seq<u8>) -> u64 {
    spec_mac_from_bytes(frame.subrange(6, 12))
}

pub open spec fn spec_frame_ethertype(frame: Seq<u8>) -> u16 {
    (((frame[12] as u16) << 8) | (frame[13] as u16))
}

pub open spec fn spec_frame_header(frame: Seq<u8>) -> OmnixtendHeader {
    OmnixtendHeader::spec_from_u64(spec_u64_from_be(frame.subrange(14, 22)))
}

pub open spec fn spec_frame_payload(frame: Seq<u8>) -> Seq<u8> {
    frame.subrange(22, frame.len() as int)
}

/// Split a raw frame into its envelope.  Returns None when the frame is too
/// short to even hold the two headers.
pub fn parse_frame(frame: &[u8]) -> (r: Option<ParsedFrame>)
    ensures
        r is Some <==> frame@.len() >= 22,
        r is Some ==> {
            &&& r->Some_0.dst_mac == spec_frame_dst(frame@)
            &&& r->Some_0.src_mac == spec_frame_src(frame@)
            &&& r->Some_0.ethertype == spec_frame_ethertype(frame@)
            &&& r->Some_0.header == spec_frame_header(frame@)
            &&& r->Some_0.header.wf()
            &&& r->Some_0.payload@ == spec_frame_payload(frame@)
        },
{
    let len = frame.len();
    if len < 22 {
        return None;
    }
    let dst_mac = read_mac(frame, 0);
    let src_mac = read_mac(frame, 6);
    let ethertype = ((frame[12] as u16) << 8) | (frame[13] as u16);
    let header = OmnixtendHeader::from_u64(read_u64_be(frame, 14));
    let mut payload: Vec<u8> = Vec::new();
    let mut i: usize = 22;
    while i < len
        invariant
            22 <= i <= len,
            len == frame@.len(),
            payload@ =~= frame@.subrange(22, i as int),
        decreases len - i,
    {
        payload.push(frame[i]);
        i = i + 1;
        proof {
            assert(payload@ =~= frame@.subrange(22, i as int));
        }
    }
    Some(ParsedFrame { dst_mac, src_mac, ethertype, header, payload })
}


/// Round trip of the frame envelope: a frame assembled from two addresses, a
/// well-formed packet header and a payload parses back into exactly those.
pub proof fn lemma_frame_roundtrip(dst: u64, src: u64, hdr: OmnixtendHeader, rest: Seq<u8>)
    requires
        hdr.wf(),
        dst < 0x1000000000000,
        src < 0x1000000000000,
    ensures
        ({
            let frame = spec_eth_header_bytes(dst, src) + hdr.spec_bytes() + rest;
            &&& spec_frame_dst(frame) == dst
            &&& spec_frame_src(frame) == src
            &&& spec_frame_ethertype(frame) == OMNIXTEND_ETHERTYPE
            &&& spec_frame_header(frame) == hdr
            &&& spec_frame_payload(frame) == rest
        }),
{
    let frame = spec_eth_header_bytes(dst, src) + hdr.spec_bytes() + rest;
    assert(frame.subrange(0, 6) =~= spec_mac_bytes(dst));
    assert(frame.subrange(6, 12) =~= spec_mac_bytes(src));
    assert(frame.subrange(14, 22) =~= hdr.spec_bytes());
    assert(frame.subrange(22, frame.len() as int) =~= rest);
    crate::wire::lemma_mac_roundtrip(dst);
    crate::wire::lemma_mac_roundtrip(src);
    crate::wire::lemma_u64_be_roundtrip(hdr.spec_to_u64());
    lemma_ox_header_roundtrip(hdr);
    assert(frame[12] == 0xAAu8 && frame[13] == 0xAAu8);
    assert((((0xAAu8 as u16) << 8) | (0xAAu8 as u16)) == 0xAAAAu16) by (bit_vector);
}

} // verus!

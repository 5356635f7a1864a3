//! TileLink flit headers and permission-transition helpers.
//!
//! A flit header is one 64-bit word.  Channels A-D share one layout (channel,
//! opcode, param, size, domain, err, source); channel E carries only the
//! channel and a sink.  The permission helpers compute the param byte of
//! grow/cap/prune/report transitions.

use vstd::prelude::*;

verus! {

/// A raw flit that was carried but not parsed.
#[derive(Debug, Clone)]
pub struct UnparsedTilelinkMessage {
    pub data: u64,
    pub start: bool,
}

/// TileLink virtual channel: A=request, B=probe, C=release/probe-ack,
/// D=response, E=grant-ack.
#[derive(Debug, Clone, Copy, PartialEq, Eq, Structural)]
pub enum OmnixtendChannel {
    INVALID,
    A,
    B,
    C,
    D,
    E,
}

impl OmnixtendChannel {
    /// The 3-bit wire number of the channel.
    pub open spec fn spec_num(self) -> u64 {
        match self {
            OmnixtendChannel::INVALID => 0,
            OmnixtendChannel::A => 1,
            OmnixtendChannel::B => 2,
            OmnixtendChannel::C => 3,
            OmnixtendChannel::D => 4,
            OmnixtendChannel::E => 5,
        }
    }

    /// The channel with the given wire number; unknown numbers are INVALID.
    pub open spec fn spec_from_num(v: u64) -> OmnixtendChannel {
        if v == 1 {
            OmnixtendChannel::A
        } else if v == 2 {
            OmnixtendChannel::B
        } else if v == 3 {
            OmnixtendChannel::C
        } else if v == 4 {
            OmnixtendChannel::D
        } else if v == 5 {
            OmnixtendChannel::E
        } else {
            OmnixtendChannel::INVALID
        }
    }

    pub fn to_num(self) -> (r: u64)
        ensures
            r == self.spec_num(),
            r < 6,
    {
        match self {
            OmnixtendChannel::INVALID => 0,
            OmnixtendChannel::A => 1,
            OmnixtendChannel::B => 2,
            OmnixtendChannel::C => 3,
            OmnixtendChannel::D => 4,
            OmnixtendChannel::E => 5,
        }
    }

    pub fn from_num(v: u64) -> (r: OmnixtendChannel)
        ensures
            r == OmnixtendChannel::spec_from_num(v),
    {
        if v == 1 {
            OmnixtendChannel::A
        } else if v == 2 {
            OmnixtendChannel::B
        } else if v == 3 {
            OmnixtendChannel::C
        } else if v == 4 {
            OmnixtendChannel::D
        } else if v == 5 {
            OmnixtendChannel::E
        } else {
            OmnixtendChannel::INVALID
        }
    }
}

/// Permission level a response caps a line to: ToT=0, ToB=1, ToN=2.
#[derive(Debug, Clone, Copy, PartialEq, Eq, Structural)]
pub enum OmnixtendPermissionChangeCap {
    ToT,
    ToB,
    ToN,
}

impl OmnixtendPermissionChangeCap {
    pub open spec fn spec_num(self) -> u8 {
        match self {
            OmnixtendPermissionChangeCap::ToT => 0,
            OmnixtendPermissionChangeCap::ToB => 1,
            OmnixtendPermissionChangeCap::ToN => 2,
        }
    }

    /// The cap with the given param number; unknown numbers mean ToN.
    pub open spec fn spec_from_num(v: u8) -> OmnixtendPermissionChangeCap {
        if v == 0 {
            OmnixtendPermissionChangeCap::ToT
        } else if v == 1 {
            OmnixtendPermissionChangeCap::ToB
        } else {
            OmnixtendPermissionChangeCap::ToN
        }
    }

    pub fn to_num(self) -> (r: u8)
        ensures
            r == self.spec_num(),
    {
        match self {
            OmnixtendPermissionChangeCap::ToT => 0,
            OmnixtendPermissionChangeCap::ToB => 1,
            OmnixtendPermissionChangeCap::ToN => 2,
        }
    }

    pub fn from_num(v: u8) -> (r: OmnixtendPermissionChangeCap)
        ensures
            r == OmnixtendPermissionChangeCap::spec_from_num(v),
    {
        if v == 0 {
            OmnixtendPermissionChangeCap::ToT
        } else if v == 1 {
            OmnixtendPermissionChangeCap::ToB
        } else {
            OmnixtendPermissionChangeCap::ToN
        }
    }
}

/// Permission growth a requester asks for: NtoB=0, NtoT=1, BtoT=2.
#[derive(Debug, Clone, Copy, PartialEq, Eq, Structural)]
pub enum OmnixtendPermissionChangeGrow {
    NtoB,
    NtoT,
    BtoT,
}

impl OmnixtendPermissionChangeGrow {
    pub open spec fn spec_num(self) -> u8 {
        match self {
            OmnixtendPermissionChangeGrow::NtoB => 0,
            OmnixtendPermissionChangeGrow::NtoT => 1,
            OmnixtendPermissionChangeGrow::BtoT => 2,
        }
    }

    pub fn to_num(self) -> (r: u8)
        ensures
            r == self.spec_num(),
    {
        match self {
            OmnixtendPermissionChangeGrow::NtoB => 0,
            OmnixtendPermissionChangeGrow::NtoT => 1,
            OmnixtendPermissionChangeGrow::BtoT => 2,
        }
    }
}

/// Permission lowering a requester reports: TtoB=0, TtoN=1, BtoN=2.
#[derive(Debug, Clone, Copy, PartialEq, Eq, Structural)]
pub enum OmnixtendPermissionChangePrune {
    TtoB,
    TtoN,
    BtoN,
}

impl OmnixtendPermissionChangePrune {
    pub open spec fn spec_num(self) -> u8 {
        match self {
            OmnixtendPermissionChangePrune::TtoB => 0,
            OmnixtendPermissionChangePrune::TtoN => 1,
            OmnixtendPermissionChangePrune::BtoN => 2,
        }
    }

    pub fn to_num(self) -> (r: u8)
        ensures
            r == self.spec_num(),
    {
        match self {
            OmnixtendPermissionChangePrune::TtoB => 0,
            OmnixtendPermissionChangePrune::TtoN => 1,
            OmnixtendPermissionChangePrune::BtoN => 2,
        }
    }
}

/// Permission report without change: TtoT=3, BtoB=4, NtoN=5.
#[derive(Debug, Clone, Copy, PartialEq, Eq, Structural)]
pub enum OmnixtendPermissionChangeReport {
    TtoT,
    BtoB,
    NtoN,
}

impl OmnixtendPermissionChangeReport {
    pub open spec fn spec_num(self) -> u8 {
        match self {
            OmnixtendPermissionChangeReport::TtoT => 3,
            OmnixtendPermissionChangeReport::BtoB => 4,
            OmnixtendPermissionChangeReport::NtoN => 5,
        }
    }

    pub fn to_num(self) -> (r: u8)
        ensures
            r == self.spec_num(),
    {
        match self {
            OmnixtendPermissionChangeReport::TtoT => 3,
            OmnixtendPermissionChangeReport::BtoB => 4,
            OmnixtendPermissionChangeReport::NtoN => 5,
        }
    }
}

/// The permission level a grow request ends at.
pub open spec fn spec_resulting_permission(
    g: OmnixtendPermissionChangeGrow,
) -> OmnixtendPermissionChangeCap {
    if g == OmnixtendPermissionChangeGrow::NtoB {
        OmnixtendPermissionChangeCap::ToB
    } else {
        OmnixtendPermissionChangeCap::ToT
    }
}

pub fn get_resulting_permission(g: &OmnixtendPermissionChangeGrow) -> (r:
    OmnixtendPermissionChangeCap)
    ensures
        r == spec_resulting_permission(*g),
{
    if *g == OmnixtendPermissionChangeGrow::NtoB {
        OmnixtendPermissionChangeCap::ToB
    } else {
        OmnixtendPermissionChangeCap::ToT
    }
}

/// The no-change report that matches a permission level.
pub open spec fn spec_report_from_cap(
    v: OmnixtendPermissionChangeCap,
) -> OmnixtendPermissionChangeReport {
    if v == OmnixtendPermissionChangeCap::ToB {
        OmnixtendPermissionChangeReport::BtoB
    } else if v == OmnixtendPermissionChangeCap::ToT {
        OmnixtendPermissionChangeReport::TtoT
    } else {
        OmnixtendPermissionChangeReport::NtoN
    }
}

pub fn get_report_from_cap(v: &OmnixtendPermissionChangeCap) -> (r:
    OmnixtendPermissionChangeReport)
    ensures
        r == spec_report_from_cap(*v),
{
    if *v == OmnixtendPermissionChangeCap::ToB {
        OmnixtendPermissionChangeReport::BtoB
    } else if *v == OmnixtendPermissionChangeCap::ToT {
        OmnixtendPermissionChangeReport::TtoT
    } else {
        OmnixtendPermissionChangeReport::NtoN
    }
}

/// The grow request that takes a line from `cur` to `request`.  Any pair that
/// is not a growth from None falls through to BtoT.
pub open spec fn spec_permission_change_grow(
    cur: OmnixtendPermissionChangeCap,
    request: OmnixtendPermissionChangeCap,
) -> OmnixtendPermissionChangeGrow {
    if cur == OmnixtendPermissionChangeCap::ToN && request == OmnixtendPermissionChangeCap::ToB {
        OmnixtendPermissionChangeGrow::NtoB
    } else if cur == OmnixtendPermissionChangeCap::ToN && request
        == OmnixtendPermissionChangeCap::ToT {
        OmnixtendPermissionChangeGrow::NtoT
    } else {
        OmnixtendPermissionChangeGrow::BtoT
    }
}

pub fn get_permission_change_grow(
    cur: &OmnixtendPermissionChangeCap,
    request: &OmnixtendPermissionChangeCap,
) -> (r: OmnixtendPermissionChangeGrow)
    ensures
        r == spec_permission_change_grow(*cur, *request),
{
    if *cur == OmnixtendPermissionChangeCap::ToN && *request == OmnixtendPermissionChangeCap::ToB {
        OmnixtendPermissionChangeGrow::NtoB
    } else if *cur == OmnixtendPermissionChangeCap::ToN && *request
        == OmnixtendPermissionChangeCap::ToT {
        OmnixtendPermissionChangeGrow::NtoT
    } else {
        OmnixtendPermissionChangeGrow::BtoT
    }
}

/// The param byte of the C-channel transition from `cur` to `request`:
/// a report when nothing changes, NtoN when nothing is held, else a prune.
pub open spec fn spec_permission_change(
    cur: OmnixtendPermissionChangeCap,
    request: OmnixtendPermissionChangeCap,
) -> u8 {
    if cur == request {
        spec_report_from_cap(cur).spec_num()
    } else if cur == OmnixtendPermissionChangeCap::ToN {
        OmnixtendPermissionChangeReport::NtoN.spec_num()
    } else if cur == OmnixtendPermissionChangeCap::ToT && request
        == OmnixtendPermissionChangeCap::ToB {
        OmnixtendPermissionChangePrune::TtoB.spec_num()
    } else if cur == OmnixtendPermissionChangeCap::ToT && request
        == OmnixtendPermissionChangeCap::ToN {
        OmnixtendPermissionChangePrune::TtoN.spec_num()
    } else {
        OmnixtendPermissionChangePrune::BtoN.spec_num()
    }
}

pub fn get_permission_change(
    cur: &OmnixtendPermissionChangeCap,
    request: &OmnixtendPermissionChangeCap,
) -> (r: u8)
    ensures
        r == spec_permission_change(*cur, *request),
        r < 6,
{
    if *cur == *request {
        get_report_from_cap(cur).to_num()
    } else if *cur == OmnixtendPermissionChangeCap::ToN {
        OmnixtendPermissionChangeReport::NtoN.to_num()
    } else if *cur == OmnixtendPermissionChangeCap::ToT && *request
        == OmnixtendPermissionChangeCap::ToB {
        OmnixtendPermissionChangePrune::TtoB.to_num()
    } else if *cur == OmnixtendPermissionChangeCap::ToT && *request
        == OmnixtendPermissionChangeCap::ToN {
        OmnixtendPermissionChangePrune::TtoN.to_num()
    } else {
        OmnixtendPermissionChangePrune::BtoN.to_num()
    }
}

/// Message-type field of the OmniXtend header: NORMAL=0, AckOnly=1,
/// OpenConnection=2, CloseConnection=3.
#[derive(Debug, Clone, Copy, PartialEq, Eq, Structural)]
pub enum OmnixtendMessageType {
    NORMAL,
    AckOnly,
    OpenConnection,
    CloseConnection,
}

impl OmnixtendMessageType {
    pub open spec fn spec_num(self) -> u8 {
        match self {
            OmnixtendMessageType::NORMAL => 0,
            OmnixtendMessageType::AckOnly => 1,
            OmnixtendMessageType::OpenConnection => 2,
            OmnixtendMessageType::CloseConnection => 3,
        }
    }

    pub fn to_num(self) -> (r: u8)
        ensures
            r == self.spec_num(),
            r < 4,
    {
        match self {
            OmnixtendMessageType::NORMAL => 0,
            OmnixtendMessageType::AckOnly => 1,
            OmnixtendMessageType::OpenConnection => 2,
            OmnixtendMessageType::CloseConnection => 3,
        }
    }
}

/// 26-bit initiator-chosen correlation id.
pub type OmnixtendSource = u32;

/// Header word of a channel A-D flit.
#[derive(Debug, Clone, Copy, PartialEq, Eq, Structural)]
pub struct ChanABCDTilelinkMessage {
    pub chan: OmnixtendChannel,
    pub opcode: u8,
    pub param: u8,
    pub size: u8,
    pub domain: u8,
    pub err: u8,
    pub source: OmnixtendSource,
}

/// Header word of a channel E flit.
#[derive(Debug, Clone, Copy, PartialEq, Eq, Structural)]
pub struct ChanETilelinkMessage {
    pub chan: OmnixtendChannel,
    pub sink: u32,
}

/// The A-D header word: chan(3) | opcode(3) | param(4) | size(4) | domain(8)
/// | err(2) | pad(12) | source(26), most significant field first.
pub open spec fn spec_abcd_bits(
    chan: u64,
    opcode: u64,
    param: u64,
    size: u64,
    domain: u64,
    err: u64,
    source: u64,
) -> u64 {
    ((chan & 0x7) << 60) | ((opcode & 0x7) << 57) | ((param & 0xF) << 52) | ((size & 0xF) << 48) | (
    (domain & 0xFF) << 40) | ((err & 0x3) << 38) | (source & 0x3FFFFFF)
}

/// The E header word: chan(3) | pad(35) | sink(26).
pub open spec fn spec_e_bits(chan: u64, sink: u64) -> u64 {
    ((chan & 0x7) << 60) | (sink & 0x3FFFFFF)
}

impl ChanABCDTilelinkMessage {
    /// Every field fits its wire width.
    pub open spec fn wf(&self) -> bool {
        &&& self.opcode < 8
        &&& self.param < 16
        &&& self.size < 16
        &&& self.err < 4
        &&& self.source < 0x4000000
    }

    pub open spec fn spec_to_u64(&self) -> u64 {
        spec_abcd_bits(
            self.chan.spec_num(),
            self.opcode as u64,
            self.param as u64,
            self.size as u64,
            self.domain as u64,
            self.err as u64,
            self.source as u64,
        )
    }

    pub fn to_u64(&self) -> (r: u64)
        ensures
            r == self.spec_to_u64(),
    {
        ((self.chan.to_num() & 0x7) << 60) | (((self.opcode as u64) & 0x7) << 57) | (((self.param
            as u64) & 0xF) << 52) | (((self.size as u64) & 0xF) << 48) | (((self.domain as u64)
            & 0xFF) << 40) | (((self.err as u64) & 0x3) << 38) | ((self.source as u64) & 0x3FFFFFF)
    }

    pub open spec fn spec_from_u64(m: u64) -> ChanABCDTilelinkMessage {
        ChanABCDTilelinkMessage {
            chan: OmnixtendChannel::spec_from_num((m >> 60) & 0x7),
            opcode: ((m >> 57) & 0x7) as u8,
            param: ((m >> 52) & 0xF) as u8,
            size: ((m >> 48) & 0xF) as u8,
            domain: ((m >> 40) & 0xFF) as u8,
            err: ((m >> 38) & 0x3) as u8,
            source: (m & 0x3FFFFFF) as u32,
        }
    }

    pub fn from_u64(m: u64) -> (r: ChanABCDTilelinkMessage)
        ensures
            r == ChanABCDTilelinkMessage::spec_from_u64(m),
            r.wf(),
    {
        let r = ChanABCDTilelinkMessage {
            chan: OmnixtendChannel::from_num((m >> 60) & 0x7),
            opcode: ((m >> 57) & 0x7) as u8,
            param: ((m >> 52) & 0xF) as u8,
            size: ((m >> 48) & 0xF) as u8,
            domain: ((m >> 40) & 0xFF) as u8,
            err: ((m >> 38) & 0x3) as u8,
            source: (m & 0x3FFFFFF) as u32,
        };
        proof {
            assert((((m >> 57) & 0x7) as u8) < 8 && (((m >> 52) & 0xF) as u8) < 16 && (((m >> 48)
                & 0xF) as u8) < 16 && (((m >> 38) & 0x3) as u8) < 4 && ((m & 0x3FFFFFF) as u32)
                < 0x4000000) by (bit_vector);
        }
        r
    }
}

/// Decoding the encoded A-D header word gives back every field.
pub proof fn lemma_abcd_bits_roundtrip(
    chan: u64,
    opcode: u64,
    param: u64,
    size: u64,
    domain: u64,
    err: u64,
    source: u64,
)
    by (bit_vector)
    requires
        chan < 8,
        opcode < 8,
        param < 16,
        size < 16,
        domain < 256,
        err < 4,
        source < 0x4000000,
    ensures
        (spec_abcd_bits(chan, opcode, param, size, domain, err, source) >> 60) & 0x7 == chan,
        (spec_abcd_bits(chan, opcode, param, size, domain, err, source) >> 57) & 0x7 == opcode,
        (spec_abcd_bits(chan, opcode, param, size, domain, err, source) >> 52) & 0xF == param,
        (spec_abcd_bits(chan, opcode, param, size, domain, err, source) >> 48) & 0xF == size,
        (spec_abcd_bits(chan, opcode, param, size, domain, err, source) >> 40) & 0xFF == domain,
        (spec_abcd_bits(chan, opcode, param, size, domain, err, source) >> 38) & 0x3 == err,
        spec_abcd_bits(chan, opcode, param, size, domain, err, source) & 0x3FFFFFF == source,
{
}

/// A channel A-D header survives the trip through its 64-bit word.
pub proof fn lemma_abcd_message_roundtrip(m: ChanABCDTilelinkMessage)
    requires
        m.wf(),
    ensures
        ChanABCDTilelinkMessage::spec_from_u64(m.spec_to_u64()) == m,
{
    lemma_abcd_bits_roundtrip(
        m.chan.spec_num(),
        m.opcode as u64,
        m.param as u64,
        m.size as u64,
        m.domain as u64,
        m.err as u64,
        m.source as u64,
    );
}

impl ChanETilelinkMessage {
    pub open spec fn wf(&self) -> bool {
        self.sink < 0x4000000
    }

    pub open spec fn spec_to_u64(&self) -> u64 {
        spec_e_bits(self.chan.spec_num(), self.sink as u64)
    }

    pub fn to_u64(&self) -> (r: u64)
        ensures
            r == self.spec_to_u64(),
    {
        ((self.chan.to_num() & 0x7) << 60) | ((self.sink as u64) & 0x3FFFFFF)
    }

    pub open spec fn spec_from_u64(m: u64) -> ChanETilelinkMessage {
        ChanETilelinkMessage {
            chan: OmnixtendChannel::spec_from_num((m >> 60) & 0x7),
            sink: (m & 0x3FFFFFF) as u32,
        }
    }

    pub fn from_u64(m: u64) -> (r: ChanETilelinkMessage)
        ensures
            r == ChanETilelinkMessage::spec_from_u64(m),
            r.wf(),
    {
        let r = ChanETilelinkMessage {
            chan: OmnixtendChannel::from_num((m >> 60) & 0x7),
            sink: (m & 0x3FFFFFF) as u32,
        };
        proof {
            assert(((m & 0x3FFFFFF) as u32) < 0x4000000) by (bit_vector);
        }
        r
    }
}

/// A channel E header survives the trip through its 64-bit word.
pub proof fn lemma_e_message_roundtrip(m: ChanETilelinkMessage)
    requires
        m.wf(),
    ensures
        ChanETilelinkMessage::spec_from_u64(m.spec_to_u64()) == m,
{
    let chan = m.chan.spec_num();
    let sink = m.sink as u64;
    assert((spec_e_bits(chan, sink) >> 60) & 0x7 == chan && spec_e_bits(chan, sink) & 0x3FFFFFF
        == sink) by (bit_vector)
        requires
            chan < 8,
            sink < 0x4000000,
    ;
}

/// One parsed flit of an OmniXtend payload.
#[derive(Debug, Clone)]
pub enum TilelinkMessage {
    Unparsed(UnparsedTilelinkMessage),
    Padding,
    ChanABCD(ChanABCDTilelinkMessage),
    ChanE(ChanETilelinkMessage),
    Address(u64),
    Mask(u64),
    Data(u64),
}

impl TilelinkMessage {
    pub open spec fn spec_to_u64(&self) -> u64 {
        match self {
            TilelinkMessage::Unparsed(_) => 0,
            TilelinkMessage::Padding => 0,
            TilelinkMessage::ChanABCD(x) => x.spec_to_u64(),
            TilelinkMessage::ChanE(x) => x.spec_to_u64(),
            TilelinkMessage::Address(x) => *x,
            TilelinkMessage::Mask(x) => *x,
            TilelinkMessage::Data(x) => *x,
        }
    }

    pub fn to_u64(&self) -> (r: u64)
        ensures
            r == self.spec_to_u64(),
    {
        match self {
            TilelinkMessage::Unparsed(_) => 0,
            TilelinkMessage::Padding => 0,
            TilelinkMessage::ChanABCD(x) => x.to_u64(),
            TilelinkMessage::ChanE(x) => x.to_u64(),
            TilelinkMessage::Address(x) => *x,
            TilelinkMessage::Mask(x) => *x,
            TilelinkMessage::Data(x) => *x,
        }
    }
}

} // verus!

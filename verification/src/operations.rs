//! TileLink operations: packing into flits, credit costs, and the
//! source-tag dispatcher.
//!
//! `Operations` hands out source tags, packs an operation into the byte
//! string of its flits, charges the credit pool, and parks the packed bytes
//! on the pending-messages list.  Waiting -- for credits, for a free tag, for
//! the response -- is the caller's loop: `submit` declines without side
//! effects when a resource is missing, and the response arrives through
//! `complete`, `take_completion` and `conclude`.

use vstd::prelude::*;

use crate::credits::Credits;
use crate::credits::spec_chan_index;
use crate::tilelink_messages::ChanABCDTilelinkMessage;
use crate::tilelink_messages::ChanETilelinkMessage;
use crate::tilelink_messages::OmnixtendChannel;
use crate::tilelink_messages::OmnixtendPermissionChangeCap;
use crate::tilelink_messages::OmnixtendPermissionChangeGrow;
use crate::tilelink_messages::get_permission_change;
use crate::tilelink_messages::spec_permission_change;
use crate::utils::chunkize_packet;
use crate::utils::floor_log2;
use crate::utils::is_power_of_two;
use crate::utils::next_pow2;
use crate::utils::spec_chunk_at;
use crate::utils::spec_chunk_count;
use crate::utils::spec_floor_log2;
use crate::utils::spec_is_pow2;
use crate::utils::spec_next_pow2;
use crate::wire::push_u64_be;
use crate::wire::push_u64_le;
use crate::wire::spec_u64_be_bytes;
use crate::wire::spec_u64_from_le;
use crate::wire::spec_u64_le_bytes;

verus! {

/// What can go wrong when an operation is packed or completed.
#[derive(Debug, Clone, Copy, PartialEq, Eq, Structural)]
pub enum Error {
    /// Operations work on power-of-two data sizes only.
    NotPowTwo { size: usize },
    /// The endpoint denied the access.
    UnalignedAccess,
    /// No response will come; the connection went down.
    ConnectionClosed,
}

/// An 8-byte write.
#[derive(Debug)]
pub struct WriteOp {
    pub address: u64,
    pub data: u64,
}

/// An 8-byte read.
#[derive(Debug)]
pub struct ReadOp {
    pub address: u64,
}

/// A read of `len_bytes` bytes.
#[derive(Debug)]
pub struct ReadOpLen {
    pub address: u64,
    pub len_bytes: usize,
}

/// A full write of the given bytes.
#[derive(Debug)]
pub struct WriteOpLen {
    pub address: u64,
    pub data: Vec<u8>,
}

/// A partial write: the mask flits mark which bytes are valid.
#[derive(Debug)]
pub struct WriteOpPartial {
    pub address: u64,
    pub data: Vec<u8>,
}

/// An acquire of a block or of permissions.
#[derive(Debug)]
pub struct PermOp {
    pub address: u64,
    pub len: usize,
    pub permissions: OmnixtendPermissionChangeGrow,
}

/// A voluntary release of a clean line.
#[derive(Debug)]
pub struct ReleaseOp {
    pub address: u64,
    pub len: usize,
    pub perm_from: OmnixtendPermissionChangeCap,
    pub perm_to: OmnixtendPermissionChangeCap,
}

/// A voluntary release with dirty data.
#[derive(Debug)]
pub struct ReleaseDataOp {
    pub release: ReleaseOp,
    pub data: Vec<u8>,
}

/// An answer to a probe without data.
#[derive(Debug)]
pub struct ProbeOp {
    pub address: u64,
    pub size: u8,
    pub permission_change: u8,
}

/// An answer to a probe, writing dirty data back.
#[derive(Debug)]
pub struct ProbeDataOp {
    pub probe: ProbeOp,
    pub data: Vec<u8>,
}

/// Every operation the dispatcher can carry out.
#[derive(Debug)]
pub enum TLOperations {
    Release(ReleaseOp),
    ReleaseData(ReleaseDataOp),
    AcquireBlock(PermOp),
    AcquirePerm(PermOp),
    ReadLen(ReadOpLen),
    WriteLen(WriteOpLen),
    Read(ReadOp),
    Write(WriteOp),
    GrantAck(u32),
    ProbeAck(ProbeOp),
    ProbeAckData(ProbeDataOp),
    WritePartial(WriteOpPartial),
}

/// The 4-bit size field: floor log2 of the byte count, zero for zero.
pub open spec fn spec_size_field(len: nat) -> u8 {
    if len == 0 {
        0
    } else {
        spec_floor_log2(len) as u8
    }
}

/// Header and address flits shared by most packed operations.
pub open spec fn spec_hdr_addr_bytes(msg: ChanABCDTilelinkMessage, addr: u64) -> Seq<u8> {
    spec_u64_be_bytes(msg.spec_to_u64()) + spec_u64_be_bytes(addr)
}

/// The header flit of an operation.
pub open spec fn spec_op_msg(
    chan: OmnixtendChannel,
    opcode: u8,
    param: u8,
    size: u8,
    source: u32,
) -> ChanABCDTilelinkMessage {
    ChanABCDTilelinkMessage { chan, opcode, param, size, domain: 0, err: 0, source }
}

/// The flits of a byte string, one 64-bit word per flit.
pub open spec fn spec_chunks(p: Seq<u8>) -> Seq<u64> {
    Seq::new(spec_chunk_count(p.len()), |i: int| spec_chunk_at(p, i))
}

/// Little-endian serialization of a word sequence.
pub open spec fn spec_words_le_bytes(ws: Seq<u64>) -> Seq<u8> {
    Seq::new(ws.len() * 8, |i: int| spec_u64_le_bytes(ws[i / 8])[i % 8])
}

/// Mask word `g` of a partial write of `len` bytes: a set bit marks a valid
/// byte, bytes past the user data carry a zero mask.
pub open spec fn spec_wp_mask_word(len: nat, g: int) -> u64 {
    if g < len / 64 {
        u64::MAX
    } else if g == len / 64 && len % 64 != 0 {
        (((1u64 << (((len % 64) as u64) as u64)) - 1) as u64)
    } else {
        0
    }
}

/// Word `t` of a partial write's mask/data area: groups of one mask word and
/// up to eight data words, zero-filled past the data.
pub open spec fn spec_wp_word_at(len: nat, chunks: Seq<u64>, t: int) -> u64 {
    let g = t / 9;
    let j = t % 9;
    if j == 0 && 8 * g < chunks.len() {
        spec_wp_mask_word(len, g)
    } else if j > 0 && 8 * g + j - 1 < chunks.len() {
        chunks[8 * g + j - 1]
    } else {
        0
    }
}

/// The mask/data words of a partial write, padded to the wire length.
pub open spec fn spec_wp_words(len: nat, chunks: Seq<u64>, total: nat) -> Seq<u64> {
    Seq::new(total, |t: int| spec_wp_word_at(len, chunks, t))
}

/// Number of data words of a partial write of `len` bytes: the payload area
/// covers the next power of two, one word at least.
pub open spec fn spec_wp_data_flits(len: nat) -> nat {
    (spec_next_pow2(len) + 7) / 8
}

/// Number of mask words of a partial write of `len` bytes.
pub open spec fn spec_wp_mask_len(len: nat) -> nat {
    if spec_next_pow2(len) / 64 == 0 {
        1
    } else {
        spec_next_pow2(len) / 64
    }
}

/// The full packed byte string of a partial write.
pub open spec fn spec_wp_bytes(address: u64, data: Seq<u8>, source: u32) -> Seq<u8> {
    let next = spec_next_pow2(data.len());
    let msg = spec_op_msg(OmnixtendChannel::A, 1, 0, spec_size_field(next), source);
    spec_hdr_addr_bytes(msg, address) + spec_words_le_bytes(
        spec_wp_words(
            data.len(),
            spec_chunks(data),
            spec_wp_mask_len(data.len()) + spec_wp_data_flits(data.len()),
        ),
    )
}


/// The next power of two sits at or above its argument and is a power of
/// two.
pub proof fn lemma_next_pow2_ge(len: nat)
    ensures
        spec_next_pow2(len) >= len,
        spec_next_pow2(len) >= 1,
        spec_is_pow2(spec_next_pow2(len)),
{
    crate::utils::lemma_next_pow2_props(len);
}

/// The placed mask and data words of a partial write fit the wire area.
proof fn lemma_wp_counts(len: nat)
    ensures
        spec_chunk_count(len) <= spec_wp_data_flits(len),
        (spec_chunk_count(len) + 7) / 8 <= spec_wp_mask_len(len),
{
    lemma_next_pow2_ge(len);
    let next = spec_next_pow2(len);
    let n = spec_chunk_count(len);
    vstd::arithmetic::power2::lemma2_to64();
    if next < 64 {
        assert(n <= spec_wp_data_flits(len));
        assert(spec_wp_data_flits(len) <= 8);
        assert((n + 7) / 8 <= 1);
        assert(spec_wp_mask_len(len) == 1);
    } else {
        let e = crate::utils::spec_floor_log2(next);
        assert(vstd::arithmetic::power2::pow2(e) == next);
        if e < 6 {
            vstd::arithmetic::power2::lemma_pow2_strictly_increases(e, 6nat);
            assert(false);
        }
        vstd::arithmetic::power2::lemma_pow2_adds(6nat, (e - 6) as nat);
        let m = vstd::arithmetic::power2::pow2((e - 6) as nat);
        assert(next == 64 * m);
        assert((64 * m) % 64 == 0) by (nonlinear_arith);
        assert(next / 8 == 8 * m) by (nonlinear_arith)
            requires
                next == 64 * m,
        ;
        assert((next + 7) / 8 == next / 8 + (7 + next % 8) / 8) by (nonlinear_arith);
        assert(next % 8 == 0) by (nonlinear_arith)
            requires
                next == 64 * m,
        ;
        assert(spec_wp_data_flits(len) == 8 * m);
        assert(n <= 8 * m);
        assert((n + 7) / 8 <= (8 * m + 7) / 8);
        assert((8 * m + 7) / 8 == m) by (nonlinear_arith);
        assert(next / 64 == m) by (nonlinear_arith)
            requires
                next == 64 * m,
        ;
        assert(spec_wp_mask_len(len) == m);
    }
}

/// The packed bytes of an operation, or None when a size is not a power of
/// two.
pub open spec fn spec_packed(op: &TLOperations, source: u32) -> Option<Seq<u8>> {
    match op {
        TLOperations::ReadLen(r) => Some(
            spec_hdr_addr_bytes(
                spec_op_msg(
                    OmnixtendChannel::A,
                    4,
                    0,
                    spec_size_field(r.len_bytes as nat),
                    source,
                ),
                r.address,
            ),
        ),
        TLOperations::Read(r) => Some(
            spec_hdr_addr_bytes(
                spec_op_msg(OmnixtendChannel::A, 4, 0, spec_size_field(8), source),
                r.address,
            ),
        ),
        TLOperations::GrantAck(sink) => Some(
            spec_u64_be_bytes(
                (ChanETilelinkMessage { chan: OmnixtendChannel::E, sink: *sink }).spec_to_u64(),
            ),
        ),
        TLOperations::WriteLen(r) => if spec_is_pow2(r.data@.len()) {
            Some(
                spec_hdr_addr_bytes(
                    spec_op_msg(
                        OmnixtendChannel::A,
                        0,
                        0,
                        spec_size_field(r.data@.len()),
                        source,
                    ),
                    r.address,
                ) + r.data@,
            )
        } else {
            None
        },
        TLOperations::Write(r) => Some(
            spec_hdr_addr_bytes(
                spec_op_msg(OmnixtendChannel::A, 0, 0, spec_size_field(8), source),
                r.address,
            ) + spec_u64_le_bytes(r.data),
        ),
        TLOperations::AcquireBlock(r) => if spec_is_pow2(r.len as nat) {
            Some(
                spec_hdr_addr_bytes(
                    spec_op_msg(
                        OmnixtendChannel::A,
                        6,
                        r.permissions.spec_num(),
                        spec_size_field(r.len as nat),
                        source,
                    ),
                    r.address,
                ),
            )
        } else {
            None
        },
        TLOperations::AcquirePerm(r) => if spec_is_pow2(r.len as nat) {
            Some(
                spec_hdr_addr_bytes(
                    spec_op_msg(
                        OmnixtendChannel::A,
                        7,
                        r.permissions.spec_num(),
                        spec_size_field(r.len as nat),
                        source,
                    ),
                    r.address,
                ),
            )
        } else {
            None
        },
        TLOperations::Release(r) => if spec_is_pow2(r.len as nat) {
            Some(
                spec_hdr_addr_bytes(
                    spec_op_msg(
                        OmnixtendChannel::C,
                        6,
                        spec_permission_change(r.perm_from, r.perm_to),
                        spec_size_field(r.len as nat),
                        source,
                    ),
                    r.address,
                ),
            )
        } else {
            None
        },
        TLOperations::ReleaseData(r) => if spec_is_pow2(r.data@.len()) {
            Some(
                spec_hdr_addr_bytes(
                    spec_op_msg(
                        OmnixtendChannel::C,
                        7,
                        spec_permission_change(r.release.perm_from, r.release.perm_to),
                        spec_size_field(r.data@.len()),
                        source,
                    ),
                    r.release.address,
                ) + r.data@,
            )
        } else {
            None
        },
        TLOperations::ProbeAck(r) => Some(
            spec_hdr_addr_bytes(
                spec_op_msg(OmnixtendChannel::C, 4, r.permission_change, r.size, source),
                r.address,
            ),
        ),
        TLOperations::ProbeAckData(r) => if spec_is_pow2(r.data@.len()) {
            Some(
                spec_hdr_addr_bytes(
                    spec_op_msg(
                        OmnixtendChannel::C,
                        5,
                        r.probe.permission_change,
                        spec_size_field(r.data@.len()),
                        source,
                    ),
                    r.probe.address,
                ) + r.data@,
            )
        } else {
            None
        },
        TLOperations::WritePartial(r) => Some(spec_wp_bytes(r.address, r.data@, source)),
    }
}

/// The size on which packing fails, for the NotPowTwo error.
pub open spec fn spec_pack_fail_size(op: &TLOperations) -> usize {
    match op {
        TLOperations::WriteLen(r) => r.data@.len() as usize,
        TLOperations::AcquireBlock(r) => r.len,
        TLOperations::AcquirePerm(r) => r.len,
        TLOperations::Release(r) => r.len,
        TLOperations::ReleaseData(r) => r.data@.len() as usize,
        TLOperations::ProbeAckData(r) => r.data@.len() as usize,
        _ => 0,
    }
}

impl TLOperations {
    /// Machine bounds under which the operation can be packed at all.
    pub open spec fn wf(&self) -> bool {
        match self {
            TLOperations::WritePartial(r) => r.data@.len() <= 0x40000000,
            TLOperations::WriteLen(r) => r.data@.len() + 16 <= usize::MAX,
            TLOperations::ReleaseData(r) => r.data@.len() + 16 <= usize::MAX,
            TLOperations::ProbeAckData(r) => r.data@.len() + 16 <= usize::MAX,
            _ => true,
        }
    }

    /// Whether the dispatcher must hold a source tag and await a response.
    pub open spec fn spec_has_return(&self) -> bool {
        match self {
            TLOperations::GrantAck(_) => false,
            TLOperations::ProbeAck(_) => false,
            TLOperations::ProbeAckData(_) => false,
            _ => true,
        }
    }

    pub fn has_return(&self) -> (r: bool)
        ensures
            r == self.spec_has_return(),
    {
        match self {
            TLOperations::GrantAck(_) => false,
            TLOperations::ProbeAck(_) => false,
            TLOperations::ProbeAckData(_) => false,
            _ => true,
        }
    }

    /// The follow-up the protocol owes after this operation's response: a
    /// GrantAck for the two acquires, nothing else.
    pub open spec fn spec_needs_grant_ack(&self) -> bool {
        match self {
            TLOperations::AcquireBlock(_) => true,
            TLOperations::AcquirePerm(_) => true,
            _ => false,
        }
    }

    pub fn get_response(&self, sink: u32) -> (r: Option<TLOperations>)
        ensures
            self.spec_needs_grant_ack() ==> r == Some(TLOperations::GrantAck(sink)),
            !self.spec_needs_grant_ack() ==> r is None,
    {
        match self {
            TLOperations::AcquireBlock(_) => Some(TLOperations::GrantAck(sink)),
            TLOperations::AcquirePerm(_) => Some(TLOperations::GrantAck(sink)),
            _ => None,
        }
    }

    /// The channel and flit count the operation is charged for.
    pub open spec fn spec_credits(&self) -> (OmnixtendChannel, nat) {
        match self {
            TLOperations::Release(_) => (OmnixtendChannel::C, 2),
            TLOperations::ReleaseData(r) => (OmnixtendChannel::C, 2 + r.data@.len() / 8),
            TLOperations::AcquireBlock(_) => (OmnixtendChannel::A, 2),
            TLOperations::AcquirePerm(_) => (OmnixtendChannel::A, 2),
            TLOperations::ReadLen(_) => (OmnixtendChannel::A, 2),
            TLOperations::WriteLen(r) => (OmnixtendChannel::A, 2 + r.data@.len() / 8),
            TLOperations::Read(_) => (OmnixtendChannel::A, 2),
            TLOperations::Write(_) => (OmnixtendChannel::A, 3),
            TLOperations::GrantAck(_) => (OmnixtendChannel::E, 1),
            TLOperations::ProbeAck(_) => (OmnixtendChannel::C, 2),
            TLOperations::ProbeAckData(r) => (OmnixtendChannel::C, 2 + r.data@.len() / 8),
            TLOperations::WritePartial(r) => (
                OmnixtendChannel::A,
                2 + spec_wp_mask_len(r.data@.len()) + spec_wp_data_flits(r.data@.len()),
            ),
        }
    }

    pub fn credits(&self) -> (r: (OmnixtendChannel, usize))
        requires
            self.wf(),
        ensures
            r.0 == self.spec_credits().0,
            r.1 as nat == self.spec_credits().1,
            r.0 != OmnixtendChannel::INVALID,
    {
        match self {
            TLOperations::Release(_) => (OmnixtendChannel::C, 2),
            TLOperations::ReleaseData(r) => (OmnixtendChannel::C, 2 + r.data.len() / 8),
            TLOperations::AcquireBlock(_) => (OmnixtendChannel::A, 2),
            TLOperations::AcquirePerm(_) => (OmnixtendChannel::A, 2),
            TLOperations::ReadLen(_) => (OmnixtendChannel::A, 2),
            TLOperations::WriteLen(r) => (OmnixtendChannel::A, 2 + r.data.len() / 8),
            TLOperations::Read(_) => (OmnixtendChannel::A, 2),
            TLOperations::Write(_) => (OmnixtendChannel::A, 3),
            TLOperations::GrantAck(_) => (OmnixtendChannel::E, 1),
            TLOperations::ProbeAck(_) => (OmnixtendChannel::C, 2),
            TLOperations::ProbeAckData(r) => (OmnixtendChannel::C, 2 + r.data.len() / 8),
            TLOperations::WritePartial(r) => {
                let next = next_pow2(r.data.len());
                let mask_len = if next / 64 == 0 {
                    1
                } else {
                    next / 64
                };
                (OmnixtendChannel::A, 2 + mask_len + (next + 7) / 8)
            },
        }
    }

    /// Whether the response carries variable-length data for the caller.
    pub open spec fn spec_has_result_data(&self) -> bool {
        match self {
            TLOperations::ReadLen(_) => true,
            TLOperations::AcquireBlock(_) => true,
            _ => false,
        }
    }

    pub fn has_result_data(&self) -> (r: bool)
        ensures
            r == self.spec_has_result_data(),
    {
        match self {
            TLOperations::ReadLen(_) => true,
            TLOperations::AcquireBlock(_) => true,
            _ => false,
        }
    }

    /// Whether the response carries one 64-bit word for the caller.
    pub open spec fn spec_has_result_data_64(&self) -> bool {
        match self {
            TLOperations::Read(_) => true,
            _ => false,
        }
    }

    pub fn has_result_data_64(&self) -> (r: bool)
        ensures
            r == self.spec_has_result_data_64(),
    {
        match self {
            TLOperations::Read(_) => true,
            _ => false,
        }
    }
}

/// Append raw bytes to a buffer.
fn push_bytes(buf: &mut Vec<u8>, data: &Vec<u8>)
    ensures
        final(buf)@ == old(buf)@ + data@,
{
    let len = data.len();
    let mut i: usize = 0;
    while i < len
        invariant
            len == data@.len(),
            i <= len,
            buf@ =~= old(buf)@ + data@.subrange(0, i as int),
        decreases len - i,
    {
        buf.push(data[i]);
        i = i + 1;
        proof {
            assert(buf@ =~= old(buf)@ + data@.subrange(0, i as int));
        }
    }
    proof {
        assert(buf@ =~= old(buf)@ + data@);
    }
}

/// The size field of a byte count: floor log2, zero for zero.
fn size_field(len: usize) -> (r: u8)
    ensures
        r == spec_size_field(len as nat),
{
    if len == 0 {
        0
    } else {
        floor_log2(len) as u8
    }
}

/// Header flit followed by address flit.
fn pack_hdr_addr(msg: &ChanABCDTilelinkMessage, addr: u64) -> (r: Vec<u8>)
    ensures
        r@ == spec_hdr_addr_bytes(*msg, addr),
{
    let mut buf: Vec<u8> = Vec::new();
    push_u64_be(&mut buf, msg.to_u64());
    push_u64_be(&mut buf, addr);
    proof {
        assert(buf@ =~= spec_hdr_addr_bytes(*msg, addr));
    }
    buf
}

impl TLOperations {
    /// A read of `len_bytes` bytes; the size field carries the floor log2.
    pub fn pack_read_len(r: &ReadOpLen, source: u32) -> (res: Result<Vec<u8>, Error>)
        ensures
            res is Ok,
            res->Ok_0@ == spec_hdr_addr_bytes(
                spec_op_msg(
                    OmnixtendChannel::A,
                    4,
                    0,
                    spec_size_field(r.len_bytes as nat),
                    source,
                ),
                r.address,
            ),
    {
        let msg = ChanABCDTilelinkMessage {
            chan: OmnixtendChannel::A,
            opcode: 4,
            param: 0,
            size: size_field(r.len_bytes),
            domain: 0,
            err: 0,
            source,
        };
        Ok(pack_hdr_addr(&msg, r.address))
    }

    /// An 8-byte read.
    pub fn pack_read_64(r: &ReadOp, source: u32) -> (res: Result<Vec<u8>, Error>)
        ensures
            res is Ok,
            res->Ok_0@ == spec_hdr_addr_bytes(
                spec_op_msg(OmnixtendChannel::A, 4, 0, spec_size_field(8), source),
                r.address,
            ),
    {
        Self::pack_read_len(&ReadOpLen { address: r.address, len_bytes: 8 }, source)
    }

    /// The channel E acknowledgement of a grant.
    pub fn pack_grant_ack(sink: &u32, _source: u32) -> (res: Result<Vec<u8>, Error>)
        ensures
            res is Ok,
            res->Ok_0@ == spec_u64_be_bytes(
                (ChanETilelinkMessage { chan: OmnixtendChannel::E, sink: *sink }).spec_to_u64(),
            ),
    {
        let msg = ChanETilelinkMessage { chan: OmnixtendChannel::E, sink: *sink };
        let mut buf: Vec<u8> = Vec::new();
        push_u64_be(&mut buf, msg.to_u64());
        proof {
            assert(buf@ =~= spec_u64_be_bytes(msg.spec_to_u64()));
        }
        Ok(buf)
    }

    /// A full write; the byte count must be a power of two.
    pub fn pack_write_len(r: &WriteOpLen, source: u32) -> (res: Result<Vec<u8>, Error>)
        requires
            r.data@.len() + 16 <= usize::MAX,
        ensures
            res is Ok <==> spec_is_pow2(r.data@.len()),
            res is Ok ==> res->Ok_0@ == spec_hdr_addr_bytes(
                spec_op_msg(
                    OmnixtendChannel::A,
                    0,
                    0,
                    spec_size_field(r.data@.len()),
                    source,
                ),
                r.address,
            ) + r.data@,
            res is Err ==> res->Err_0 == (Error::NotPowTwo { size: r.data@.len() as usize }),
    {
        if !is_power_of_two(r.data.len()) {
            return Err(Error::NotPowTwo { size: r.data.len() });
        }
        let msg = ChanABCDTilelinkMessage {
            chan: OmnixtendChannel::A,
            opcode: 0,
            param: 0,
            size: size_field(r.data.len()),
            domain: 0,
            err: 0,
            source,
        };
        let mut buf = pack_hdr_addr(&msg, r.address);
        push_bytes(&mut buf, &r.data);
        Ok(buf)
    }

    /// An 8-byte write; the operand travels in the fixed host byte order.
    pub fn pack_write_64(r: &WriteOp, source: u32) -> (res: Result<Vec<u8>, Error>)
        ensures
            res is Ok,
            res->Ok_0@ == spec_hdr_addr_bytes(
                spec_op_msg(OmnixtendChannel::A, 0, 0, spec_size_field(8), source),
                r.address,
            ) + spec_u64_le_bytes(r.data),
    {
        let msg = ChanABCDTilelinkMessage {
            chan: OmnixtendChannel::A,
            opcode: 0,
            param: 0,
            size: size_field(8),
            domain: 0,
            err: 0,
            source,
        };
        let mut buf = pack_hdr_addr(&msg, r.address);
        push_u64_le(&mut buf, r.data);
        Ok(buf)
    }

    /// Acquire a block; the length must be a power of two.
    pub fn pack_acquire_block(r: &PermOp, source: u32) -> (res: Result<Vec<u8>, Error>)
        ensures
            res is Ok <==> spec_is_pow2(r.len as nat),
            res is Ok ==> res->Ok_0@ == spec_hdr_addr_bytes(
                spec_op_msg(
                    OmnixtendChannel::A,
                    6,
                    r.permissions.spec_num(),
                    spec_size_field(r.len as nat),
                    source,
                ),
                r.address,
            ),
            res is Err ==> res->Err_0 == (Error::NotPowTwo { size: r.len }),
    {
        if !is_power_of_two(r.len) {
            return Err(Error::NotPowTwo { size: r.len });
        }
        let msg = ChanABCDTilelinkMessage {
            chan: OmnixtendChannel::A,
            opcode: 6,
            param: r.permissions.to_num(),
            size: size_field(r.len),
            domain: 0,
            err: 0,
            source,
        };
        Ok(pack_hdr_addr(&msg, r.address))
    }

    /// Acquire permissions only; the length must be a power of two.
    pub fn pack_acquire_perm(r: &PermOp, source: u32) -> (res: Result<Vec<u8>, Error>)
        ensures
            res is Ok <==> spec_is_pow2(r.len as nat),
            res is Ok ==> res->Ok_0@ == spec_hdr_addr_bytes(
                spec_op_msg(
                    OmnixtendChannel::A,
                    7,
                    r.permissions.spec_num(),
                    spec_size_field(r.len as nat),
                    source,
                ),
                r.address,
            ),
            res is Err ==> res->Err_0 == (Error::NotPowTwo { size: r.len }),
    {
        if !is_power_of_two(r.len) {
            return Err(Error::NotPowTwo { size: r.len });
        }
        let msg = ChanABCDTilelinkMessage {
            chan: OmnixtendChannel::A,
            opcode: 7,
            param: r.permissions.to_num(),
            size: size_field(r.len),
            domain: 0,
            err: 0,
            source,
        };
        Ok(pack_hdr_addr(&msg, r.address))
    }

    /// Release a clean line; the length must be a power of two.
    pub fn pack_release(r: &ReleaseOp, source: u32) -> (res: Result<Vec<u8>, Error>)
        ensures
            res is Ok <==> spec_is_pow2(r.len as nat),
            res is Ok ==> res->Ok_0@ == spec_hdr_addr_bytes(
                spec_op_msg(
                    OmnixtendChannel::C,
                    6,
                    spec_permission_change(r.perm_from, r.perm_to),
                    spec_size_field(r.len as nat),
                    source,
                ),
                r.address,
            ),
            res is Err ==> res->Err_0 == (Error::NotPowTwo { size: r.len }),
    {
        if !is_power_of_two(r.len) {
            return Err(Error::NotPowTwo { size: r.len });
        }
        let msg = ChanABCDTilelinkMessage {
            chan: OmnixtendChannel::C,
            opcode: 6,
            param: get_permission_change(&r.perm_from, &r.perm_to),
            size: size_field(r.len),
            domain: 0,
            err: 0,
            source,
        };
        Ok(pack_hdr_addr(&msg, r.address))
    }

    /// Release a dirty line with its data; the byte count must be a power of
    /// two.
    pub fn pack_release_data(r: &ReleaseDataOp, source: u32) -> (res: Result<Vec<u8>, Error>)
        requires
            r.data@.len() + 16 <= usize::MAX,
        ensures
            res is Ok <==> spec_is_pow2(r.data@.len()),
            res is Ok ==> res->Ok_0@ == spec_hdr_addr_bytes(
                spec_op_msg(
                    OmnixtendChannel::C,
                    7,
                    spec_permission_change(r.release.perm_from, r.release.perm_to),
                    spec_size_field(r.data@.len()),
                    source,
                ),
                r.release.address,
            ) + r.data@,
            res is Err ==> res->Err_0 == (Error::NotPowTwo { size: r.data@.len() as usize }),
    {
        if !is_power_of_two(r.data.len()) {
            return Err(Error::NotPowTwo { size: r.data.len() });
        }
        let msg = ChanABCDTilelinkMessage {
            chan: OmnixtendChannel::C,
            opcode: 7,
            param: get_permission_change(&r.release.perm_from, &r.release.perm_to),
            size: size_field(r.data.len()),
            domain: 0,
            err: 0,
            source,
        };
        let mut buf = pack_hdr_addr(&msg, r.release.address);
        push_bytes(&mut buf, &r.data);
        Ok(buf)
    }

    /// Answer a probe without data.
    pub fn pack_probe(r: &ProbeOp, source: u32) -> (res: Result<Vec<u8>, Error>)
        ensures
            res is Ok,
            res->Ok_0@ == spec_hdr_addr_bytes(
                spec_op_msg(OmnixtendChannel::C, 4, r.permission_change, r.size, source),
                r.address,
            ),
    {
        let msg = ChanABCDTilelinkMessage {
            chan: OmnixtendChannel::C,
            opcode: 4,
            param: r.permission_change,
            size: r.size,
            domain: 0,
            err: 0,
            source,
        };
        Ok(pack_hdr_addr(&msg, r.address))
    }

    /// Answer a probe with dirty data; the byte count must be a power of two.
    pub fn pack_probe_data(r: &ProbeDataOp, source: u32) -> (res: Result<Vec<u8>, Error>)
        requires
            r.data@.len() + 16 <= usize::MAX,
        ensures
            res is Ok <==> spec_is_pow2(r.data@.len()),
            res is Ok ==> res->Ok_0@ == spec_hdr_addr_bytes(
                spec_op_msg(
                    OmnixtendChannel::C,
                    5,
                    r.probe.permission_change,
                    spec_size_field(r.data@.len()),
                    source,
                ),
                r.probe.address,
            ) + r.data@,
            res is Err ==> res->Err_0 == (Error::NotPowTwo { size: r.data@.len() as usize }),
    {
        if !is_power_of_two(r.data.len()) {
            return Err(Error::NotPowTwo { size: r.data.len() });
        }
        let msg = ChanABCDTilelinkMessage {
            chan: OmnixtendChannel::C,
            opcode: 5,
            param: r.probe.permission_change,
            size: size_field(r.data.len()),
            domain: 0,
            err: 0,
            source,
        };
        let mut buf = pack_hdr_addr(&msg, r.probe.address);
        push_bytes(&mut buf, &r.data);
        Ok(buf)
    }
}


/// One mask word of a partial write.
fn wp_mask_word(len: usize, g: usize) -> (r: u64)
    ensures
        r == spec_wp_mask_word(len as nat, g as int),
{
    if g < len / 64 {
        u64::MAX
    } else if g == len / 64 && len % 64 != 0 {
        let s = (len % 64) as u64;
        proof {
            assert(1u64 << s >= 1) by (bit_vector)
                requires
                    s < 64,
            ;
        }
        (1u64 << s) - 1
    } else {
        0
    }
}

/// Any word past the placed mask/data groups of a partial write is zero.
proof fn lemma_wp_pad_zero(len: nat, chunks: Seq<u64>, t: int)
    requires
        t >= chunks.len() + (chunks.len() + 7) / 8,
    ensures
        spec_wp_word_at(len, chunks, t) == 0,
{
    let g = t / 9;
    let j = t % 9;
    let n = chunks.len() as int;
    assert(t == 9 * g + j);
    if j == 0 && 8 * g < n {
        assert(g <= (n - 1) / 8);
        assert((n - 1) / 8 + 1 == (n + 7) / 8);
        assert(9 * g == 8 * g + g);
        assert(false);
    }
    if j > 0 && 8 * g + j - 1 < n {
        assert(8 * g < n);
        assert(g <= (n - 1) / 8);
        assert((n - 1) / 8 + 1 == (n + 7) / 8);
        assert(t == 8 * g + j + g);
        assert(false);
    }
}

impl TLOperations {
    /// A partial write: header, address, then groups of one mask word and up
    /// to eight data words, zero-padded to cover the next power of two.
    pub fn pack_write_partial(r: &WriteOpPartial, source: u32) -> (res: Result<Vec<u8>, Error>)
        requires
            r.data@.len() <= 0x40000000,
        ensures
            res is Ok,
            res->Ok_0@ == spec_wp_bytes(r.address, r.data@, source),
    {
        let len = r.data.len();
        let next = next_pow2(len);
        let mask_len = if next / 64 == 0 {
            1
        } else {
            next / 64
        };
        let data_flits = (next + 7) / 8;
        let total = mask_len + data_flits;
        let chunks = chunkize_packet(r.data.as_slice());
        proof {
            assert(chunks@ =~= spec_chunks(r.data@));
            lemma_wp_counts(len as nat);
        }
        let nchunks = chunks.len();
        let mut words: Vec<u64> = Vec::new();
        let mut ci: usize = 0;
        while ci < nchunks
            invariant
                len == r.data@.len(),
                nchunks == chunks@.len(),
                nchunks <= 0x40000000,
                chunks@ == spec_chunks(r.data@),
                ci <= nchunks,
                words@.len() == ci + (ci + 7) / 8,
                forall|t: int|
                    0 <= t < words@.len() ==> words@[t] == spec_wp_word_at(
                        len as nat,
                        chunks@,
                        t,
                    ),
            decreases nchunks - ci,
        {
            if ci % 8 == 0 {
                let g = ci / 8;
                proof {
                    assert(words@.len() == 9 * (ci / 8)) by {
                        assert(ci + (ci + 7) / 8 == 9 * (ci / 8)) by (nonlinear_arith)
                            requires
                                ci % 8 == 0,
                                ci >= 0,
                        ;
                    }
                    let t = words@.len() as int;
                    assert(t / 9 == g && t % 9 == 0) by (nonlinear_arith)
                        requires
                            t == 9 * (g as int),
                            g >= 0,
                    ;
                }
                words.push(wp_mask_word(len, g));
            }
            proof {
                let g = ci as int / 8;
                let j = ci as int % 8;
                let t = words@.len() as int;
                assert(t == 9 * g + j + 1) by (nonlinear_arith)
                    requires
                        g == ci as int / 8,
                        j == ci as int % 8,
                        ci >= 0,
                        t == ci + (ci + 7) / 8 + if j == 0 {
                            1int
                        } else {
                            0int
                        },
                ;
                assert(t / 9 == g && t % 9 == j + 1) by (nonlinear_arith)
                    requires
                        t == 9 * g + j + 1,
                        0 <= j < 8,
                        g >= 0,
                ;
            }
            let c = chunks[ci];
            words.push(c);
            ci = ci + 1;
            proof {
                assert(words@.len() == ci + (ci + 7) / 8) by (nonlinear_arith)
                    requires
                        ci >= 1,
                        words@.len() == (ci - 1) + ((ci - 1) + 7) / 8 + 1 + if (ci - 1) % 8 == 0 {
                            1int
                        } else {
                            0int
                        },
                ;
            }
        }
        proof {
            assert(words@.len() <= total);
        }
        while words.len() < total
            invariant
                len == r.data@.len(),
                nchunks == chunks@.len(),
                chunks@ == spec_chunks(r.data@),
                total <= 0x40000000,
                total == spec_wp_mask_len(len as nat) + spec_wp_data_flits(len as nat),
                words@.len() <= total,
                words@.len() >= nchunks + (nchunks + 7) / 8,
                forall|t: int|
                    0 <= t < words@.len() ==> words@[t] == spec_wp_word_at(
                        len as nat,
                        chunks@,
                        t,
                    ),
            decreases total - words@.len(),
        {
            proof {
                lemma_wp_pad_zero(len as nat, chunks@, words@.len() as int);
            }
            words.push(0);
        }
        let msg = ChanABCDTilelinkMessage {
            chan: OmnixtendChannel::A,
            opcode: 1,
            param: 0,
            size: size_field(next),
            domain: 0,
            err: 0,
            source,
        };
        let mut buf = pack_hdr_addr(&msg, r.address);
        let ghost prefix = buf@;
        let nwords = words.len();
        let mut wi: usize = 0;
        while wi < nwords
            invariant
                nwords == words@.len(),
                wi <= nwords,
                buf@.len() == prefix.len() + 8 * wi,
                buf@ =~= prefix + spec_words_le_bytes(words@.take(wi as int)),
            decreases nwords - wi,
        {
            push_u64_le(&mut buf, words[wi]);
            wi = wi + 1;
            proof {
                let taken = words@.take(wi as int);
                assert forall|i: int| 0 <= i < 8 * wi implies #[trigger] (prefix
                    + spec_words_le_bytes(taken))[prefix.len() + i] == buf@[prefix.len() + i] by {
                    assert(spec_words_le_bytes(taken)[i] == spec_u64_le_bytes(taken[i / 8])[i % 8]);
                    if i / 8 < wi - 1 {
                        assert(spec_words_le_bytes(words@.take(wi - 1))[i] == spec_u64_le_bytes(
                            words@.take(wi - 1)[i / 8],
                        )[i % 8]);
                    } else {
                        assert(i / 8 == wi - 1);
                        assert(buf@[prefix.len() + i] == spec_u64_le_bytes(words@[wi - 1])[i % 8]);
                    }
                }
                assert(buf@ =~= prefix + spec_words_le_bytes(words@.take(wi as int)));
            }
        }
        proof {
            assert(words@.take(nwords as int) =~= words@);
            assert(words@ =~= spec_wp_words(
                len as nat,
                spec_chunks(r.data@),
                spec_wp_mask_len(len as nat) + spec_wp_data_flits(len as nat),
            ));
            assert(buf@ =~= spec_wp_bytes(r.address, r.data@, source));
        }
        Ok(buf)
    }
}


impl TLOperations {
    /// Pack the operation into the byte string of its flits.
    pub fn pack(&self, source: u32) -> (res: Result<Vec<u8>, Error>)
        requires
            self.wf(),
        ensures
            res is Ok <==> spec_packed(self, source) is Some,
            res is Ok ==> res->Ok_0@ == spec_packed(self, source)->Some_0,
            res is Err ==> res->Err_0 == (Error::NotPowTwo { size: spec_pack_fail_size(self) }),
    {
        match self {
            TLOperations::Release(r) => Self::pack_release(r, source),
            TLOperations::ReleaseData(r) => Self::pack_release_data(r, source),
            TLOperations::AcquireBlock(r) => Self::pack_acquire_block(r, source),
            TLOperations::AcquirePerm(r) => Self::pack_acquire_perm(r, source),
            TLOperations::ReadLen(r) => Self::pack_read_len(r, source),
            TLOperations::WriteLen(r) => Self::pack_write_len(r, source),
            TLOperations::Read(r) => Self::pack_read_64(r, source),
            TLOperations::Write(r) => Self::pack_write_64(r, source),
            TLOperations::GrantAck(sink) => Self::pack_grant_ack(sink, source),
            TLOperations::ProbeAck(r) => Self::pack_probe(r, source),
            TLOperations::ProbeAckData(r) => Self::pack_probe_data(r, source),
            TLOperations::WritePartial(r) => Self::pack_write_partial(r, source),
        }
    }
}

/// What a response to a finished operation means for the caller.
#[derive(Debug)]
pub enum TLResult {
    Data64(u64),
    Data(Vec<u8>),
    NoData,
}

impl TLResult {
    /// The variable-length data of a response.
    pub fn get_data(self) -> (r: Vec<u8>)
        requires
            self is Data,
        ensures
            self == TLResult::Data(r),
    {
        match self {
            TLResult::Data(v) => v,
            _ => Vec::new(),
        }
    }

    /// The 64-bit word of a response.
    pub fn get_data64(self) -> (r: u64)
        requires
            self is Data64,
        ensures
            self == TLResult::Data64(r),
    {
        match self {
            TLResult::Data64(v) => v,
            _ => 0,
        }
    }
}

/// The number of usable source tags; tag 255 stays reserved.
pub const SOURCE_COUNT: u32 = 255;

/// A completion slot at the specification level: the bytes as a sequence.
pub open spec fn spec_slot_model(c: Option<(u32, Result<Vec<u8>, Error>)>) -> Option<
    (u32, Result<Seq<u8>, Error>),
> {
    match c {
        Some((sink, Ok(v))) => Some((sink, Ok(v@))),
        Some((sink, Err(e))) => Some((sink, Err(e))),
        Option::None => Option::None,
    }
}

/// The completion slots at the specification level.
pub open spec fn spec_completions_model(
    cs: Seq<Option<(u32, Result<Vec<u8>, Error>)>>,
) -> Seq<Option<(u32, Result<Seq<u8>, Error>)>> {
    cs.map_values(|c: Option<(u32, Result<Vec<u8>, Error>)>| spec_slot_model(c))
}

/// The outcome of handing an operation to the dispatcher.
#[derive(Debug, PartialEq, Eq, Structural)]
pub enum SubmitOutcome {
    /// Packed, charged and parked on the pending list; a responding
    /// operation holds this source tag until `conclude` returns it.
    Submitted { source: u32 },
    /// Every source tag is in flight; nothing changed.  Try again after a
    /// response came back.
    NoSource,
    /// The credit pool does not cover the operation; nothing changed.  Try
    /// again after the peer granted credits.
    NoCredits,
}

/// The source-tag dispatcher.  It owns the 255-deep tag pool, one response
/// slot per tag, the outbound pending-messages list and the count of
/// operations in flight.
pub struct Operations {
    available_sources: Vec<u32>,
    completions: Vec<Option<(u32, Result<Vec<u8>, Error>)>>,
    pending: Vec<Vec<u8>>,
    outstanding_cntr: usize,
}

impl Operations {
    /// The free source tags, in hand-out order (the last is next).
    pub closed spec fn sources(&self) -> Seq<u32> {
        self.available_sources@
    }

    /// The response slot of each source tag.
    pub closed spec fn completions_view(&self) -> Seq<Option<(u32, Result<Vec<u8>, Error>)>> {
        self.completions@
    }

    /// The packed messages awaiting the next assembled frame.
    pub closed spec fn pending_view(&self) -> Seq<Seq<u8>> {
        self.pending@.map_values(|v: Vec<u8>| v@)
    }

    /// How many operations hold a source tag right now.
    pub closed spec fn outstanding(&self) -> nat {
        self.outstanding_cntr as nat
    }

    pub open spec fn wf(&self) -> bool {
        &&& self.completions_view().len() == SOURCE_COUNT
        &&& self.sources().no_duplicates()
        &&& forall|i: int| 0 <= i < self.sources().len() ==> #[trigger] self.sources()[i] < SOURCE_COUNT
        &&& self.outstanding() + self.sources().len() <= SOURCE_COUNT
    }

    /// A fresh dispatcher: every tag free, every slot empty, nothing pending.
    pub fn new() -> (r: Operations)
        ensures
            r.wf(),
            r.sources().len() == SOURCE_COUNT,
            forall|i: int| 0 <= i < SOURCE_COUNT ==> #[trigger] r.sources()[i] == i as u32,
            forall|i: int| 0 <= i < SOURCE_COUNT ==> #[trigger] r.completions_view()[i] is None,
            r.pending_view() == Seq::<Seq<u8>>::empty(),
            r.outstanding() == 0,
    {
        let mut available_sources: Vec<u32> = Vec::new();
        let mut completions: Vec<Option<(u32, Result<Vec<u8>, Error>)>> = Vec::new();
        let mut i: u32 = 0;
        while i < SOURCE_COUNT
            invariant
                i <= SOURCE_COUNT,
                available_sources@.len() == i,
                completions@.len() == i,
                forall|j: int| 0 <= j < i ==> #[trigger] available_sources@[j] == j as u32,
                forall|j: int| 0 <= j < i ==> #[trigger] completions@[j] is None,
            decreases SOURCE_COUNT - i,
        {
            available_sources.push(i);
            completions.push(None);
            i = i + 1;
        }
        proof {
            assert forall|a: int, b: int|
                0 <= a < b < available_sources@.len() implies available_sources@[a]
                != available_sources@[b] by {}
        }
        let r = Operations {
            available_sources,
            completions,
            pending: Vec::new(),
            outstanding_cntr: 0,
        };
        proof {
            assert(r.pending_view() =~= Seq::<Seq<u8>>::empty());
        }
        r
    }

    /// How many packed messages await the next assembled frame.
    pub fn num_pending(&self) -> (r: usize)
        ensures
            r == self.pending_view().len(),
    {
        self.pending.len()
    }

    /// How many operations hold a source tag right now.
    pub fn num_outstanding(&self) -> (r: usize)
        ensures
            r == self.outstanding(),
    {
        self.outstanding_cntr
    }

    /// Move the pending-messages list out, leaving it empty.
    pub fn take_pending(&mut self) -> (r: Vec<Vec<u8>>)
        ensures
            r@.map_values(|v: Vec<u8>| v@) == old(self).pending_view(),
            final(self).pending_view() == Seq::<Seq<u8>>::empty(),
            final(self).sources() == old(self).sources(),
            final(self).completions_view() == old(self).completions_view(),
            final(self).outstanding() == old(self).outstanding(),
            final(self).wf() == old(self).wf(),
    {
        let mut r: Vec<Vec<u8>> = Vec::new();
        core::mem::swap(&mut r, &mut self.pending);
        proof {
            assert(self.pending_view() =~= Seq::<Seq<u8>>::empty());
        }
        r
    }

    /// Put unsent messages back at the head of the pending-messages list.
    pub fn put_back_pending(&mut self, msgs: Vec<Vec<u8>>)
        ensures
            final(self).pending_view() == msgs@.map_values(|v: Vec<u8>| v@) + old(
                self,
            ).pending_view(),
            final(self).sources() == old(self).sources(),
            final(self).completions_view() == old(self).completions_view(),
            final(self).outstanding() == old(self).outstanding(),
            final(self).wf() == old(self).wf(),
    {
        let mut msgs = msgs;
        let ghost msgs0 = msgs@;
        core::mem::swap(&mut msgs, &mut self.pending);
        self.pending.append(&mut msgs);
        proof {
            assert(self.pending_view() =~= msgs0.map_values(|v: Vec<u8>| v@) + old(
                self,
            ).pending_view());
        }
    }

    /// Hand an operation to the dispatcher: reserve a source tag when a
    /// response is owed, pack the flits, charge the credit pool, and park
    /// the bytes on the pending-messages list.  When a tag or the credits
    /// are missing, nothing changes and the caller retries later.
    pub fn submit(&mut self, operation: &TLOperations, credits: &mut Credits) -> (res: Result<
        SubmitOutcome,
        Error,
    >)
        requires
            old(self).wf(),
            operation.wf(),
            old(credits).wf(),
        ensures
            final(self).wf(),
            final(credits).wf(),
            res is Err ==> {
                &&& spec_packed(operation, 0) is None
                &&& res->Err_0 == (Error::NotPowTwo { size: spec_pack_fail_size(operation) })
                &&& *final(self) == *old(self)
                &&& final(credits)@ == old(credits)@
            },
            res is Ok && res->Ok_0 is NoSource ==> {
                &&& operation.spec_has_return()
                &&& old(self).sources().len() == 0
                &&& *final(self) == *old(self)
                &&& final(credits)@ == old(credits)@
            },
            res is Ok && res->Ok_0 is NoCredits ==> {
                &&& old(credits)@[spec_chan_index(operation.spec_credits().0)]
                    < operation.spec_credits().1
                &&& *final(self) == *old(self)
                &&& final(credits)@ == old(credits)@
            },
            res is Ok && res->Ok_0 is Submitted ==> {
                let source = res->Ok_0->Submitted_source;
                &&& spec_packed(operation, source) is Some
                &&& (operation.spec_has_return() ==> {
                    &&& old(self).sources().len() > 0
                    &&& source == old(self).sources().last()
                    &&& final(self).sources() == old(self).sources().drop_last()
                    &&& final(self).completions_view() == old(self).completions_view().update(
                        source as int,
                        Option::None,
                    )
                    &&& final(self).outstanding() == old(self).outstanding() + 1
                })
                &&& (!operation.spec_has_return() ==> {
                    &&& source == 0
                    &&& final(self).sources() == old(self).sources()
                    &&& final(self).completions_view() == old(self).completions_view()
                    &&& final(self).outstanding() == old(self).outstanding()
                })
                &&& final(self).pending_view() == old(self).pending_view().push(
                    spec_packed(operation, source)->Some_0,
                )
                &&& old(credits)@[spec_chan_index(operation.spec_credits().0)]
                    >= operation.spec_credits().1
                &&& final(credits)@ == old(credits)@.update(
                    spec_chan_index(operation.spec_credits().0),
                    (old(credits)@[spec_chan_index(operation.spec_credits().0)]
                        - operation.spec_credits().1) as nat,
                )
            },
    {
        let has_return = operation.has_return();
        if has_return && self.available_sources.len() == 0 {
            return Ok(SubmitOutcome::NoSource);
        }
        let (chan, cost) = operation.credits();
        // Probe the pool before committing a source tag; decline leaves
        // every part untouched.
        let source = if has_return {
            self.available_sources[self.available_sources.len() - 1]
        } else {
            0
        };
        let packed = match operation.pack(source) {
            Ok(p) => p,
            Err(e) => {
                return Err(e);
            },
        };
        if !credits.take(chan, cost) {
            return Ok(SubmitOutcome::NoCredits);
        }
        if has_return {
            let popped = self.available_sources.pop();
            proof {
                assert(popped is Some);
            }
            let src = match popped {
                Some(s) => s,
                Option::None => 0,
            };
            self.completions.set(src as usize, None);
            self.outstanding_cntr = self.outstanding_cntr + 1;
        }
        self.pending.push(packed);
        proof {
            assert(final(self).pending_view() =~= old(self).pending_view().push(
                spec_packed(operation, source)->Some_0,
            ));
            assert(final(self).sources().no_duplicates());
        }
        Ok(SubmitOutcome::Submitted { source })
    }

    /// Deliver a response to the slot of its source tag.  An out-of-range
    /// tag is ignored.
    pub fn complete(&mut self, source: u32, sink: u32, r: Result<Vec<u8>, Error>)
        requires
            old(self).wf(),
        ensures
            final(self).wf(),
            source < SOURCE_COUNT ==> final(self).completions_view() == old(
                self,
            ).completions_view().update(source as int, Some((sink, r))),
            source >= SOURCE_COUNT ==> final(self).completions_view() == old(
                self,
            ).completions_view(),
            final(self).sources() == old(self).sources(),
            final(self).pending_view() == old(self).pending_view(),
            final(self).outstanding() == old(self).outstanding(),
    {
        if source < SOURCE_COUNT {
            self.completions.set(source as usize, Some((sink, r)));
        }
    }

    /// Pull the response of a source tag out of its slot, if one arrived.
    pub fn take_completion(&mut self, source: u32) -> (r: Option<(u32, Result<Vec<u8>, Error>)>)
        requires
            old(self).wf(),
            source < SOURCE_COUNT,
        ensures
            final(self).wf(),
            r == old(self).completions_view()[source as int],
            final(self).completions_view() == old(self).completions_view().update(
                source as int,
                Option::None,
            ),
            final(self).sources() == old(self).sources(),
            final(self).pending_view() == old(self).pending_view(),
            final(self).outstanding() == old(self).outstanding(),
    {
        let mut slot: Option<(u32, Result<Vec<u8>, Error>)> = None;
        core::mem::swap(&mut slot, &mut self.completions[source as usize]);
        slot
    }

    /// Map a response onto the caller's result, give the source tag back,
    /// and say whether the protocol owes a GrantAck for the sink.
    pub fn conclude(&mut self, operation: &TLOperations, source: u32, ret: Result<Vec<u8>, Error>)
        -> (r: (Result<TLResult, Error>, bool))
        requires
            old(self).wf(),
            operation.spec_has_return(),
            source < SOURCE_COUNT,
            !old(self).sources().contains(source),
            old(self).outstanding() >= 1,
        ensures
            final(self).wf(),
            final(self).sources() == old(self).sources().push(source),
            final(self).completions_view() == old(self).completions_view(),
            final(self).pending_view() == old(self).pending_view(),
            final(self).outstanding() == old(self).outstanding() - 1,
            ret is Err ==> r.0 == Result::<TLResult, Error>::Err(ret->Err_0),
            ret is Ok && operation.spec_has_result_data() ==> r.0 == Result::<
                TLResult,
                Error,
            >::Ok(TLResult::Data(ret->Ok_0)),
            ret is Ok && operation.spec_has_result_data_64() ==> r.0 == Result::<
                TLResult,
                Error,
            >::Ok(TLResult::Data64(spec_u64_from_le(crate::utils::spec_take8_padded(ret->Ok_0@)))),
            ret is Ok && !operation.spec_has_result_data() && !operation.spec_has_result_data_64()
                ==> r.0 == Result::<TLResult, Error>::Ok(TLResult::NoData),
            r.1 == (operation.spec_needs_grant_ack() && ret != Result::<Vec<u8>, Error>::Err(
                Error::ConnectionClosed,
            )),
    {
        self.available_sources.push(source);
        self.outstanding_cntr = self.outstanding_cntr - 1;
        proof {
            let s0 = old(self).sources();
            assert forall|a: int, b: int|
                0 <= a < b < s0.push(source).len() implies s0.push(source)[a] != s0.push(
                source,
            )[b] by {
                if b == s0.len() {
                    assert(s0[a] != source);
                }
            }
            assert(self.sources().no_duplicates());
        }
        let closed_err = match &ret {
            Result::Err(Error::ConnectionClosed) => true,
            _ => false,
        };
        let needs_ack = match operation {
            TLOperations::AcquireBlock(_) => !closed_err,
            TLOperations::AcquirePerm(_) => !closed_err,
            _ => false,
        };
        let result = match ret {
            Result::Err(e) => Result::Err(e),
            Result::Ok(bytes) => {
                if operation.has_result_data() {
                    Result::Ok(TLResult::Data(bytes))
                } else if operation.has_result_data_64() {
                    let v = le_word_padded(&bytes);
                    Result::Ok(TLResult::Data64(v))
                } else {
                    Result::Ok(TLResult::NoData)
                }
            },
        };
        (result, needs_ack)
    }

    /// Signal ConnectionClosed through every completion slot; callers
    /// blocked on a response wake with that error.
    pub fn cancel_all(&mut self)
        requires
            old(self).wf(),
        ensures
            final(self).wf(),
            final(self).completions_view().len() == SOURCE_COUNT,
            forall|i: int|
                0 <= i < SOURCE_COUNT ==> #[trigger] final(self).completions_view()[i] == Some(
                    (0u32, Result::<Vec<u8>, Error>::Err(Error::ConnectionClosed)),
                ),
            final(self).sources() == old(self).sources(),
            final(self).pending_view() == old(self).pending_view(),
            final(self).outstanding() == old(self).outstanding(),
    {
        let mut i: usize = 0;
        while i < 255
            invariant
                old(self).wf(),
                self.completions_view().len() == SOURCE_COUNT,
                i <= 255,
                forall|j: int|
                    0 <= j < i ==> #[trigger] self.completions_view()[j] == Some(
                        (0u32, Result::<Vec<u8>, Error>::Err(Error::ConnectionClosed)),
                    ),
                forall|j: int|
                    i <= j < SOURCE_COUNT ==> #[trigger] self.completions_view()[j] == old(
                        self,
                    ).completions_view()[j],
                self.sources() == old(self).sources(),
                self.pending_view() == old(self).pending_view(),
                self.outstanding() == old(self).outstanding(),
                self.wf(),
            decreases 255 - i,
        {
            self.completions.set(i, Some((0, Result::Err(Error::ConnectionClosed))));
            i = i + 1;
        }
    }
}

/// The 64-bit word carried by up to eight leading bytes, zero-padded.
fn le_word_padded(bytes: &Vec<u8>) -> (r: u64)
    ensures
        r == spec_u64_from_le(crate::utils::spec_take8_padded(bytes@)),
{
    let len = bytes.len();
    let b0 = if len > 0 { bytes[0] as u64 } else { 0 };
    let b1 = if len > 1 { bytes[1] as u64 } else { 0 };
    let b2 = if len > 2 { bytes[2] as u64 } else { 0 };
    let b3 = if len > 3 { bytes[3] as u64 } else { 0 };
    let b4 = if len > 4 { bytes[4] as u64 } else { 0 };
    let b5 = if len > 5 { bytes[5] as u64 } else { 0 };
    let b6 = if len > 6 { bytes[6] as u64 } else { 0 };
    let b7 = if len > 7 { bytes[7] as u64 } else { 0 };
    let r = (b7 << 56) | (b6 << 48) | (b5 << 40) | (b4 << 32) | (b3 << 24) | (b2 << 16) | (b1
        << 8) | b0;
    proof {
        let tail = crate::utils::spec_take8_padded(bytes@);
        assert(tail[0] == b0 as u8 && tail[1] == b1 as u8 && tail[2] == b2 as u8 && tail[3]
            == b3 as u8 && tail[4] == b4 as u8 && tail[5] == b5 as u8 && tail[6] == b6 as u8
            && tail[7] == b7 as u8);
        assert((b0 as u8) as u64 == b0 && (b1 as u8) as u64 == b1 && (b2 as u8) as u64 == b2 && (
        b3 as u8) as u64 == b3 && (b4 as u8) as u64 == b4 && (b5 as u8) as u64 == b5 && (b6 as u8)
            as u64 == b6 && (b7 as u8) as u64 == b7) by (bit_vector)
            requires
                b0 < 256 && b1 < 256 && b2 < 256 && b3 < 256 && b4 < 256 && b5 < 256 && b6 < 256
                    && b7 < 256,
        ;
    }
    r
}


/// At most one outstanding operation per source tag: the tag one submit
/// hands out cannot be handed out again before it was given back.
pub proof fn lemma_source_tags_distinct(pre: &Operations, mid: &Operations, s1: u32, s2: u32)
    requires
        pre.wf(),
        pre.sources().len() > 0,
        s1 == pre.sources().last(),
        mid.sources() == pre.sources().drop_last(),
        mid.sources().len() > 0,
        s2 == mid.sources().last(),
    ensures
        s1 != s2,
{
    let n = pre.sources().len() as int;
    assert(pre.sources()[n - 1] == s1);
    assert(mid.sources()[n - 2] == pre.sources()[n - 2]);
    assert(pre.sources()[n - 2] != pre.sources()[n - 1]);
}

/// Round trip of a packed operation: reading the header and address flits
/// back preserves channel, opcode, param, size, source and address.
pub proof fn lemma_pack_roundtrip(msg: ChanABCDTilelinkMessage, addr: u64)
    requires
        msg.wf(),
    ensures
        ChanABCDTilelinkMessage::spec_from_u64(
            crate::wire::spec_u64_from_be(spec_hdr_addr_bytes(msg, addr).subrange(0, 8)),
        ) == msg,
        crate::wire::spec_u64_from_be(spec_hdr_addr_bytes(msg, addr).subrange(8, 16)) == addr,
{
    assert(spec_hdr_addr_bytes(msg, addr).subrange(0, 8) =~= spec_u64_be_bytes(msg.spec_to_u64()));
    assert(spec_hdr_addr_bytes(msg, addr).subrange(8, 16) =~= spec_u64_be_bytes(addr));
    crate::wire::lemma_u64_be_roundtrip(msg.spec_to_u64());
    crate::wire::lemma_u64_be_roundtrip(addr);
    crate::tilelink_messages::lemma_abcd_message_roundtrip(msg);
}

} // verus!

//! Byte-level helpers for the wire formats.
//!
//! Protocol headers travel big-endian; 64-bit payload operand words travel in
//! the host byte order, which this crate fixes to little-endian.  That byte
//! order must match the endpoint's; it mirrors the native order of the hosts
//! the engine runs on.

use vstd::prelude::*;

verus! {

/// The eight bytes of `v`, most significant first.
pub open spec fn spec_u64_be_bytes(v: u64) -> Seq<u8> {
    seq![
        ((v >> 56) & 0xFF) as u8,
        ((v >> 48) & 0xFF) as u8,
        ((v >> 40) & 0xFF) as u8,
        ((v >> 32) & 0xFF) as u8,
        ((v >> 24) & 0xFF) as u8,
        ((v >> 16) & 0xFF) as u8,
        ((v >> 8) & 0xFF) as u8,
        (v & 0xFF) as u8,
    ]
}

/// The value carried by eight bytes, most significant first.
pub open spec fn spec_u64_from_be(s: Seq<u8>) -> u64
    recommends
        s.len() == 8,
{
    (((s[0] as u64) << 56) | ((s[1] as u64) << 48) | ((s[2] as u64) << 40) | ((s[3] as u64) << 32)
        | ((s[4] as u64) << 24) | ((s[5] as u64) << 16) | ((s[6] as u64) << 8) | (s[7] as u64))
}

/// The eight bytes of `v`, least significant first.
pub open spec fn spec_u64_le_bytes(v: u64) -> Seq<u8> {
    seq![
        (v & 0xFF) as u8,
        ((v >> 8) & 0xFF) as u8,
        ((v >> 16) & 0xFF) as u8,
        ((v >> 24) & 0xFF) as u8,
        ((v >> 32) & 0xFF) as u8,
        ((v >> 40) & 0xFF) as u8,
        ((v >> 48) & 0xFF) as u8,
        ((v >> 56) & 0xFF) as u8,
    ]
}

/// The value carried by eight bytes, least significant first.
pub open spec fn spec_u64_from_le(s: Seq<u8>) -> u64
    recommends
        s.len() == 8,
{
    (((s[7] as u64) << 56) | ((s[6] as u64) << 48) | ((s[5] as u64) << 40) | ((s[4] as u64) << 32)
        | ((s[3] as u64) << 24) | ((s[2] as u64) << 16) | ((s[1] as u64) << 8) | (s[0] as u64))
}

/// Reading back the big-endian bytes of a word gives the word.
pub proof fn lemma_u64_be_roundtrip(v: u64)
    ensures
        spec_u64_from_be(spec_u64_be_bytes(v)) == v,
{
    assert((((((v >> 56) & 0xFF) as u8) as u64) << 56) | (((((v >> 48) & 0xFF) as u8) as u64)
        << 48) | (((((v >> 40) & 0xFF) as u8) as u64) << 40) | (((((v >> 32) & 0xFF) as u8) as u64)
        << 32) | (((((v >> 24) & 0xFF) as u8) as u64) << 24) | (((((v >> 16) & 0xFF) as u8) as u64)
        << 16) | (((((v >> 8) & 0xFF) as u8) as u64) << 8) | (((v & 0xFF) as u8) as u64) == v)
        by (bit_vector);
}

/// Writing back the word carried by eight bytes gives the bytes.
pub proof fn lemma_u64_be_bytes_roundtrip(b0: u8, b1: u8, b2: u8, b3: u8, b4: u8, b5: u8, b6: u8, b7: u8)
    ensures
        spec_u64_be_bytes(
            spec_u64_from_be(seq![b0, b1, b2, b3, b4, b5, b6, b7]),
        ) =~= seq![b0, b1, b2, b3, b4, b5, b6, b7],
{
    let v = spec_u64_from_be(seq![b0, b1, b2, b3, b4, b5, b6, b7]);
    assert(((((b0 as u64) << 56) | ((b1 as u64) << 48) | ((b2 as u64) << 40) | ((b3 as u64) << 32)
        | ((b4 as u64) << 24) | ((b5 as u64) << 16) | ((b6 as u64) << 8) | (b7 as u64)) >> 56)
        & 0xFF == b0 && ((((b0 as u64) << 56) | ((b1 as u64) << 48) | ((b2 as u64) << 40) | ((
    b3 as u64) << 32) | ((b4 as u64) << 24) | ((b5 as u64) << 16) | ((b6 as u64) << 8) | (
    b7 as u64)) >> 48) & 0xFF == b1 && ((((b0 as u64) << 56) | ((b1 as u64) << 48) | ((b2 as u64)
        << 40) | ((b3 as u64) << 32) | ((b4 as u64) << 24) | ((b5 as u64) << 16) | ((b6 as u64)
        << 8) | (b7 as u64)) >> 40) & 0xFF == b2 && ((((b0 as u64) << 56) | ((b1 as u64) << 48) | (
    (b2 as u64) << 40) | ((b3 as u64) << 32) | ((b4 as u64) << 24) | ((b5 as u64) << 16) | ((
    b6 as u64) << 8) | (b7 as u64)) >> 32) & 0xFF == b3 && ((((b0 as u64) << 56) | ((b1 as u64)
        << 48) | ((b2 as u64) << 40) | ((b3 as u64) << 32) | ((b4 as u64) << 24) | ((b5 as u64)
        << 16) | ((b6 as u64) << 8) | (b7 as u64)) >> 24) & 0xFF == b4 && ((((b0 as u64) << 56) | (
    (b1 as u64) << 48) | ((b2 as u64) << 40) | ((b3 as u64) << 32) | ((b4 as u64) << 24) | ((
    b5 as u64) << 16) | ((b6 as u64) << 8) | (b7 as u64)) >> 16) & 0xFF == b5 && ((((b0 as u64)
        << 56) | ((b1 as u64) << 48) | ((b2 as u64) << 40) | ((b3 as u64) << 32) | ((b4 as u64)
        << 24) | ((b5 as u64) << 16) | ((b6 as u64) << 8) | (b7 as u64)) >> 8) & 0xFF == b6 && (((
    b0 as u64) << 56) | ((b1 as u64) << 48) | ((b2 as u64) << 40) | ((b3 as u64) << 32) | ((
    b4 as u64) << 24) | ((b5 as u64) << 16) | ((b6 as u64) << 8) | (b7 as u64)) & 0xFF == b7)
        by (bit_vector);
}

/// Reading back the little-endian bytes of a word gives the word.
pub proof fn lemma_u64_le_roundtrip(v: u64)
    ensures
        spec_u64_from_le(spec_u64_le_bytes(v)) == v,
{
    assert((((((v >> 56) & 0xFF) as u8) as u64) << 56) | (((((v >> 48) & 0xFF) as u8) as u64)
        << 48) | (((((v >> 40) & 0xFF) as u8) as u64) << 40) | (((((v >> 32) & 0xFF) as u8) as u64)
        << 32) | (((((v >> 24) & 0xFF) as u8) as u64) << 24) | (((((v >> 16) & 0xFF) as u8) as u64)
        << 16) | (((((v >> 8) & 0xFF) as u8) as u64) << 8) | (((v & 0xFF) as u8) as u64) == v)
        by (bit_vector);
}

/// Append the big-endian bytes of `v` to a buffer.
pub fn push_u64_be(buf: &mut Vec<u8>, v: u64)
    ensures
        final(buf)@ == old(buf)@ + spec_u64_be_bytes(v),
{
    buf.push(((v >> 56) & 0xFF) as u8);
    buf.push(((v >> 48) & 0xFF) as u8);
    buf.push(((v >> 40) & 0xFF) as u8);
    buf.push(((v >> 32) & 0xFF) as u8);
    buf.push(((v >> 24) & 0xFF) as u8);
    buf.push(((v >> 16) & 0xFF) as u8);
    buf.push(((v >> 8) & 0xFF) as u8);
    buf.push((v & 0xFF) as u8);
    proof {
        assert(buf@ =~= old(buf)@ + spec_u64_be_bytes(v));
    }
}

/// Append the little-endian bytes of `v` to a buffer.
pub fn push_u64_le(buf: &mut Vec<u8>, v: u64)
    ensures
        final(buf)@ == old(buf)@ + spec_u64_le_bytes(v),
{
    buf.push((v & 0xFF) as u8);
    buf.push(((v >> 8) & 0xFF) as u8);
    buf.push(((v >> 16) & 0xFF) as u8);
    buf.push(((v >> 24) & 0xFF) as u8);
    buf.push(((v >> 32) & 0xFF) as u8);
    buf.push(((v >> 40) & 0xFF) as u8);
    buf.push(((v >> 48) & 0xFF) as u8);
    buf.push(((v >> 56) & 0xFF) as u8);
    proof {
        assert(buf@ =~= old(buf)@ + spec_u64_le_bytes(v));
    }
}

/// Read the big-endian word that starts at `pos`.
pub fn read_u64_be(s: &[u8], pos: usize) -> (r: u64)
    requires
        pos + 8 <= s@.len(),
    ensures
        r == spec_u64_from_be(s@.subrange(pos as int, pos + 8)),
{
    let _len = s.len();
    let r = (((s[pos] as u64) << 56) | ((s[pos + 1] as u64) << 48) | ((s[pos + 2] as u64) << 40)
        | ((s[pos + 3] as u64) << 32) | ((s[pos + 4] as u64) << 24) | ((s[pos + 5] as u64) << 16)
        | ((s[pos + 6] as u64) << 8) | (s[pos + 7] as u64));
    proof {
        let sub = s@.subrange(pos as int, pos + 8);
        assert(sub[0] == s@[pos as int] && sub[1] == s@[pos + 1] && sub[2] == s@[pos + 2] && sub[3]
            == s@[pos + 3] && sub[4] == s@[pos + 4] && sub[5] == s@[pos + 5] && sub[6] == s@[pos
            + 6] && sub[7] == s@[pos + 7]);
    }
    r
}

/// Read the little-endian word that starts at `pos`.
pub fn read_u64_le(s: &[u8], pos: usize) -> (r: u64)
    requires
        pos + 8 <= s@.len(),
    ensures
        r == spec_u64_from_le(s@.subrange(pos as int, pos + 8)),
{
    let _len = s.len();
    let r = (((s[pos + 7] as u64) << 56) | ((s[pos + 6] as u64) << 48) | ((s[pos + 5] as u64)
        << 40) | ((s[pos + 4] as u64) << 32) | ((s[pos + 3] as u64) << 24) | ((s[pos + 2] as u64)
        << 16) | ((s[pos + 1] as u64) << 8) | (s[pos] as u64));
    proof {
        let sub = s@.subrange(pos as int, pos + 8);
        assert(sub[0] == s@[pos as int] && sub[1] == s@[pos + 1] && sub[2] == s@[pos + 2] && sub[3]
            == s@[pos + 3] && sub[4] == s@[pos + 4] && sub[5] == s@[pos + 5] && sub[6] == s@[pos
            + 6] && sub[7] == s@[pos + 7]);
    }
    r
}

/// The six low-order bytes of a MAC address, most significant first.
pub open spec fn spec_mac_bytes(m: u64) -> Seq<u8> {
    seq![
        ((m >> 40) & 0xFF) as u8,
        ((m >> 32) & 0xFF) as u8,
        ((m >> 24) & 0xFF) as u8,
        ((m >> 16) & 0xFF) as u8,
        ((m >> 8) & 0xFF) as u8,
        (m & 0xFF) as u8,
    ]
}

/// The MAC address carried by six bytes, most significant first.
pub open spec fn spec_mac_from_bytes(s: Seq<u8>) -> u64
    recommends
        s.len() == 6,
{
    (((s[0] as u64) << 40) | ((s[1] as u64) << 32) | ((s[2] as u64) << 24) | ((s[3] as u64) << 16)
        | ((s[4] as u64) << 8) | (s[5] as u64))
}

/// Reading back the bytes of a 48-bit MAC address gives the address.
pub proof fn lemma_mac_roundtrip(m: u64)
    requires
        m < 0x1000000000000,
    ensures
        spec_mac_from_bytes(spec_mac_bytes(m)) == m,
{
    assert((((((m >> 40) & 0xFF) as u8) as u64) << 40) | (((((m >> 32) & 0xFF) as u8) as u64)
        << 32) | (((((m >> 24) & 0xFF) as u8) as u64) << 24) | (((((m >> 16) & 0xFF) as u8) as u64)
        << 16) | (((((m >> 8) & 0xFF) as u8) as u64) << 8) | (((m & 0xFF) as u8) as u64) == m)
        by (bit_vector)
        requires
            m < 0x1000000000000,
    ;
}

/// Append the six bytes of a MAC address to a buffer.
pub fn push_mac(buf: &mut Vec<u8>, m: u64)
    ensures
        final(buf)@ == old(buf)@ + spec_mac_bytes(m),
{
    buf.push(((m >> 40) & 0xFF) as u8);
    buf.push(((m >> 32) & 0xFF) as u8);
    buf.push(((m >> 24) & 0xFF) as u8);
    buf.push(((m >> 16) & 0xFF) as u8);
    buf.push(((m >> 8) & 0xFF) as u8);
    buf.push((m & 0xFF) as u8);
    proof {
        assert(buf@ =~= old(buf)@ + spec_mac_bytes(m));
    }
}

/// Read the MAC address that starts at `pos`.
pub fn read_mac(s: &[u8], pos: usize) -> (r: u64)
    requires
        pos + 6 <= s@.len(),
    ensures
        r == spec_mac_from_bytes(s@.subrange(pos as int, pos + 6)),
        r < 0x1000000000000,
{
    let _len = s.len();
    let r = (((s[pos] as u64) << 40) | ((s[pos + 1] as u64) << 32) | ((s[pos + 2] as u64) << 24)
        | ((s[pos + 3] as u64) << 16) | ((s[pos + 4] as u64) << 8) | (s[pos + 5] as u64));
    proof {
        let sub = s@.subrange(pos as int, pos + 6);
        assert(sub[0] == s@[pos as int] && sub[1] == s@[pos + 1] && sub[2] == s@[pos + 2] && sub[3]
            == s@[pos + 3] && sub[4] == s@[pos + 4] && sub[5] == s@[pos + 5]);
        let b0 = s@[pos as int];
        let b1 = s@[pos + 1];
        let b2 = s@[pos + 2];
        let b3 = s@[pos + 3];
        let b4 = s@[pos + 4];
        let b5 = s@[pos + 5];
        assert((((b0 as u64) << 40) | ((b1 as u64) << 32) | ((b2 as u64) << 24) | ((b3 as u64)
            << 16) | ((b4 as u64) << 8) | (b5 as u64)) < 0x1000000000000) by (bit_vector);
    }
    r
}

} // verus!

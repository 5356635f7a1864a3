//! Wire-codec round trips: sequence numbers, flit headers, packet headers,
//! frame envelopes, flit chunking and permission-change tables.

use omnixtend_rs::omnixtend::{parse_frame, OmnixtendHeader};
use omnixtend_rs::sequence_number::{SequenceNumber, SEQ_MAX};
use omnixtend_rs::tilelink_messages::{
    get_permission_change, get_permission_change_grow, get_report_from_cap,
    get_resulting_permission, ChanABCDTilelinkMessage, OmnixtendChannel,
    OmnixtendPermissionChangeCap, OmnixtendPermissionChangeGrow, OmnixtendPermissionChangeReport,
};
use omnixtend_rs::tilelink_messages::OmnixtendPermissionChangeCap::{ToB, ToN, ToT};
use omnixtend_rs::tilelink_messages::OmnixtendPermissionChangeGrow::{BtoT, NtoB, NtoT};
use omnixtend_rs::utils::chunkize_packet;
use omnixtend_rs::wire::{push_mac, push_u64_be, read_mac, read_u64_be, read_u64_le};

#[test]
fn sequence_number_wraps() {
    let mut s = SequenceNumber::new(SEQ_MAX);
    s.incr();
    assert_eq!(s.val(), 0);
    s.decr();
    assert_eq!(s.val(), SEQ_MAX);
    s.set(5);
    assert_eq!(s.val(), 5);
}

#[test]
fn sequence_number_half_space_compare() {
    let s = SequenceNumber::new(10);
    assert!(s.cmp(10));
    assert!(s.cmp(5));
    assert!(!s.cmp(11));
    // Wrap-around: 1 is "after" SEQ_MAX.
    let t = SequenceNumber::new(1);
    assert!(t.cmp(SEQ_MAX));
    let far = SequenceNumber::new(0);
    assert!(!far.cmp(0x200000));
}

#[test]
fn sequence_number_diff_is_modular() {
    let a = SequenceNumber::new(3);
    let b = SequenceNumber::new(SEQ_MAX);
    assert_eq!(a.diff(&b), 4);
    assert_eq!(b.diff(&a), 0x400000 - 4);
}

#[test]
fn abcd_header_round_trip() {
    let msg = ChanABCDTilelinkMessage {
        chan: OmnixtendChannel::A,
        opcode: 6,
        param: 1,
        size: 3,
        domain: 0,
        err: 0,
        source: 0x3FFFFFF,
    };
    let w = msg.to_u64();
    assert_eq!(ChanABCDTilelinkMessage::from_u64(w), msg);
}

#[test]
fn abcd_header_known_word() {
    // Get (opcode 4) on channel A, size 3, source 1:
    // chan=1 at bits 60, opcode=4 at bits 57, size=3 at bits 48.
    let msg = ChanABCDTilelinkMessage {
        chan: OmnixtendChannel::A,
        opcode: 4,
        param: 0,
        size: 3,
        domain: 0,
        err: 0,
        source: 1,
    };
    let expected: u64 = (1u64 << 60) | (4u64 << 57) | (3u64 << 48) | 1;
    assert_eq!(msg.to_u64(), expected);
}

#[test]
fn packet_header_round_trip() {
    let hdr = OmnixtendHeader {
        vc: 0,
        message_type: 2,
        sequence_number: 0x3FFFFF,
        sequence_number_ack: 0x155555,
        ack: 1,
        chan: 4,
        credit: 31,
    };
    let w = hdr.to_u64();
    assert_eq!(OmnixtendHeader::from_u64(w), hdr);
}

#[test]
fn frame_envelope_round_trip() {
    let hdr = OmnixtendHeader {
        vc: 0,
        message_type: 0,
        sequence_number: 7,
        sequence_number_ack: 6,
        ack: 1,
        chan: 0,
        credit: 0,
    };
    let mut frame = Vec::new();
    push_mac(&mut frame, 0x0000AABBCCDD);
    push_mac(&mut frame, 0x000011223344);
    frame.push(0xAA);
    frame.push(0xAA);
    push_u64_be(&mut frame, hdr.to_u64());
    for b in 0..48u8 {
        frame.push(b);
    }
    let parsed = parse_frame(&frame).expect("parses");
    assert_eq!(parsed.dst_mac, 0x0000AABBCCDD);
    assert_eq!(parsed.src_mac, 0x000011223344);
    assert_eq!(parsed.ethertype, 0xAAAA);
    assert_eq!(parsed.header, hdr);
    assert_eq!(parsed.payload.len(), 48);
    assert_eq!(parsed.payload[0], 0);
    assert_eq!(parsed.payload[47], 47);
    // Too short to be a frame.
    assert!(parse_frame(&frame[0..21]).is_none());
}

#[test]
fn mac_and_word_round_trips() {
    let mut buf = Vec::new();
    push_mac(&mut buf, 0xFFEEDDCCBBAA);
    assert_eq!(read_mac(&buf, 0), 0xFFEEDDCCBBAA);
    let mut w = Vec::new();
    push_u64_be(&mut w, 0x0123456789ABCDEF);
    assert_eq!(read_u64_be(&w, 0), 0x0123456789ABCDEF);
    assert_eq!(w, vec![0x01, 0x23, 0x45, 0x67, 0x89, 0xAB, 0xCD, 0xEF]);
}

#[test]
fn chunkize_pads_the_tail() {
    let chunks = chunkize_packet(&[1, 2, 3, 4, 5, 6, 7, 8, 9]);
    assert_eq!(chunks.len(), 2);
    assert_eq!(chunks[0], 0x0807060504030201);
    assert_eq!(chunks[1], 0x09);
    assert_eq!(chunkize_packet(&[]).len(), 0);
}

#[test]
fn chunkize_matches_le_reader() {
    let bytes: Vec<u8> = (0..16).collect();
    let chunks = chunkize_packet(&bytes);
    assert_eq!(chunks[0], read_u64_le(&bytes, 0));
    assert_eq!(chunks[1], read_u64_le(&bytes, 8));
}

#[test]
fn permission_change_table() {
    // Reports when nothing changes.
    assert_eq!(get_permission_change(&ToT, &ToT), 3);
    assert_eq!(get_permission_change(&ToB, &ToB), 4);
    assert_eq!(get_permission_change(&ToN, &ToN), 5);
    // Nothing held: NtoN whatever is asked.
    assert_eq!(get_permission_change(&ToN, &ToB), 5);
    assert_eq!(get_permission_change(&ToN, &ToT), 5);
    // Prunes.
    assert_eq!(get_permission_change(&ToT, &ToB), 0);
    assert_eq!(get_permission_change(&ToT, &ToN), 1);
    assert_eq!(get_permission_change(&ToB, &ToN), 2);
    // The documented fallthrough: a Branch asked up to Trunk reports BtoN.
    assert_eq!(get_permission_change(&ToB, &ToT), 2);
}

#[test]
fn permission_grow_table() {
    assert_eq!(get_permission_change_grow(&ToN, &ToB), NtoB);
    assert_eq!(get_permission_change_grow(&ToN, &ToT), NtoT);
    assert_eq!(get_permission_change_grow(&ToB, &ToT), BtoT);
    // The documented fallthrough maps every other pair to BtoT.
    assert_eq!(get_permission_change_grow(&ToT, &ToB), BtoT);
}

#[test]
fn resulting_permission_and_report() {
    assert_eq!(
        get_resulting_permission(&NtoB),
        OmnixtendPermissionChangeCap::ToB
    );
    assert_eq!(
        get_resulting_permission(&NtoT),
        OmnixtendPermissionChangeCap::ToT
    );
    assert_eq!(
        get_resulting_permission(&BtoT),
        OmnixtendPermissionChangeCap::ToT
    );
    assert_eq!(
        get_report_from_cap(&OmnixtendPermissionChangeCap::ToB),
        OmnixtendPermissionChangeReport::BtoB
    );
}

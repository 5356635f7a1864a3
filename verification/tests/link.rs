//! Connection-level behavior: frame assembly, padding, batching limits,
//! sequence wrap, resend bookkeeping, receive-path filtering, and the tick
//! engine's timers.

use omnixtend_rs::cache::Cache;
use omnixtend_rs::connection::{check_timeout, Connection, Error as ConnError};
use omnixtend_rs::omnixtend::parse_frame;
use omnixtend_rs::operations::Operations;
use omnixtend_rs::sequence_number::{SequenceNumber, SEQ_MAX};
use omnixtend_rs::tick::Tick;
use omnixtend_rs::tilelink_messages::OmnixtendChannel;
use omnixtend_rs::wire::read_u64_be;

fn active_connection() -> Connection {
    // Compat mode skips the handshake: establish jumps straight to Active.
    let mut c = Connection::new(true, 1, 0x111111111111, 0x222222222222);
    c.establish_connection();
    c
}

#[test]
fn send_on_idle_is_refused() {
    let mut c = Connection::new(false, 0, 1, 2);
    let mut msgs: Vec<Vec<u8>> = Vec::new();
    assert_eq!(c.send_packet(&mut msgs, false), Err(ConnError::SendOnIdle));
}

#[test]
fn second_frame_needs_the_first_transmitted() {
    let mut c = active_connection();
    let mut msgs: Vec<Vec<u8>> = Vec::new();
    c.send_packet(&mut msgs, false).expect("first frame");
    assert_eq!(
        c.send_packet(&mut msgs, false),
        Err(ConnError::PacketNotSent)
    );
    assert!(c.get_packet(1).is_some());
    c.send_packet(&mut msgs, false).expect("slot is free again");
}

#[test]
fn empty_frame_is_padded_to_minimum() {
    let mut c = active_connection();
    let mut msgs: Vec<Vec<u8>> = Vec::new();
    c.send_packet(&mut msgs, false).expect("frame");
    let frame = c.get_packet(1).expect("on wire");
    assert_eq!(frame.len(), 70);
    let parsed = parse_frame(&frame).expect("parses");
    assert_eq!(parsed.header.sequence_number, 0);
    assert_eq!(parsed.header.message_type, 0);
}

#[test]
fn batching_respects_the_jumbo_limit() {
    let mut c = active_connection();
    let mut msgs: Vec<Vec<u8>> = vec![vec![0xAA; 8960], vec![0xBB; 16]];
    c.send_packet(&mut msgs, false).expect("frame");
    // The big message went in; the second would cross 9000 bytes on the wire.
    assert_eq!(msgs.len(), 1);
    let frame = c.get_packet(1).expect("on wire");
    assert_eq!(frame.len(), 30 + 8960);
}

#[test]
fn batching_stops_at_64_mask_bits() {
    let mut c = active_connection();
    let mut msgs: Vec<Vec<u8>> = (0..65).map(|_| vec![0u8; 8]).collect();
    c.send_packet(&mut msgs, false).expect("frame");
    // The start-of-message mask has 64 bits; the 65th message must wait.
    assert_eq!(msgs.len(), 1);
    let frame = c.get_packet(1).expect("on wire");
    assert_eq!(frame.len(), 22 + 64 * 8 + 8);
    // The mask trailer has every bit set.
    assert_eq!(read_u64_be(&frame, frame.len() - 8), u64::MAX);
}

#[test]
fn sequence_wraps_on_the_wire() {
    let mut c = active_connection();
    // Move the window to the top of the sequence space.
    c.next_tx_seq = SequenceNumber::new(SEQ_MAX);
    c.first_in_resend = SequenceNumber::new(SEQ_MAX - 1);
    let mut msgs: Vec<Vec<u8>> = Vec::new();
    c.send_packet(&mut msgs, false).expect("frame");
    let f1 = c.get_packet(1).expect("on wire");
    assert_eq!(parse_frame(&f1).unwrap().header.sequence_number, SEQ_MAX);
    c.send_packet(&mut msgs, false).expect("frame");
    let f2 = c.get_packet(2).expect("on wire");
    assert_eq!(parse_frame(&f2).unwrap().header.sequence_number, 0);
}

#[test]
fn resend_queue_copies_the_buffer() {
    let mut c = active_connection();
    let mut msgs: Vec<Vec<u8>> = Vec::new();
    assert_eq!(c.resend(), Err(ConnError::NoResendData));
    c.send_packet(&mut msgs, false).expect("frame");
    let f1 = c.get_packet(1).expect("on wire");
    c.send_packet(&mut msgs, false).expect("frame");
    let f2 = c.get_packet(2).expect("on wire");
    c.resend().expect("two unacknowledged frames");
    assert_eq!(c.resend(), Err(ConnError::ResendInProgress));
    // Byte-for-byte identical, in first-sent order, ahead of fresh frames.
    assert_eq!(c.get_packet(3).expect("resend"), f1);
    assert_eq!(c.get_packet(4).expect("resend"), f2);
    assert!(c.get_packet(5).is_none());
}

#[test]
fn foreign_frames_are_filtered() {
    let mut c = active_connection();
    assert_eq!(
        c.process_packets(&[0u8; 10], 1),
        Err(ConnError::NotEthernetPacket)
    );
    // A frame for another station.
    let mut other = Connection::new(true, 2, 0x333333333333, 0x444444444444);
    other.establish_connection();
    let mut msgs: Vec<Vec<u8>> = Vec::new();
    other.send_packet(&mut msgs, false).expect("frame");
    let frame = other.get_packet(1).expect("on wire");
    assert_eq!(
        c.process_packets(&frame, 2),
        Err(ConnError::ParseMacError {
            mac: 0x444444444444
        })
    );
    // The right station, but a foreign EtherType.
    let mut to_c = Connection::new(true, 3, 0x999999999999, 0x111111111111);
    to_c.establish_connection();
    to_c.send_packet(&mut msgs, false).expect("frame");
    let mut frame2 = to_c.get_packet(2).expect("on wire");
    frame2[12] = 0x08;
    frame2[13] = 0x00;
    assert_eq!(
        c.process_packets(&frame2, 3),
        Err(ConnError::ParseEthType { t: 0x0800 })
    );
}

#[test]
fn out_of_order_frame_draws_a_nak() {
    let mut a = active_connection();
    let mut b = Connection::new(true, 2, 0x222222222222, 0x111111111111);
    b.establish_connection();
    let mut msgs: Vec<Vec<u8>> = Vec::new();
    // a emits seq 0 and seq 1; b only sees seq 1.
    a.send_packet(&mut msgs, false).expect("frame");
    let _lost = a.get_packet(1).expect("seq 0");
    a.send_packet(&mut msgs, false).expect("frame");
    let f1 = a.get_packet(2).expect("seq 1");
    match b.process_packets(&f1, 3) {
        Err(ConnError::OutOfOrder { got, expected }) => {
            assert_eq!(got, 1);
            assert_eq!(expected, 0);
        }
        other => panic!("expected a NAK: {:?}", other),
    }
    // b's next frame carries ack = 0, the NAK.
    b.send_packet(&mut msgs, false).expect("frame");
    let nak = b.get_packet(4).expect("on wire");
    assert_eq!(parse_frame(&nak).unwrap().header.ack, 0);
    // A duplicate of an already-seen frame is dropped silently.
    let mut c2 = active_connection();
    let dup = {
        let mut m: Vec<Vec<u8>> = Vec::new();
        let mut src = Connection::new(true, 9, 0x222222222222, 0x111111111111);
        src.establish_connection();
        src.send_packet(&mut m, false).expect("frame");
        src.get_packet(5).expect("on wire")
    };
    assert!(c2.process_packets(&dup, 6).is_ok());
    assert_eq!(c2.process_packets(&dup, 7), Ok(Vec::new()));
}

/// Pull every advertised grant out of a connection's receive pools.
fn drain_receive_credits(c: &mut Connection) {
    loop {
        let (chan, _) = c.credits_receive.get_highest();
        if chan == 0 {
            break;
        }
    }
}

#[test]
fn piggybacked_credits_are_booked() {
    let mut a = active_connection();
    drain_receive_credits(&mut a);
    // a owes grants: its receive pool holds credits to advertise.
    a.add_receive_credits(OmnixtendChannel::A, 8);
    let mut msgs: Vec<Vec<u8>> = Vec::new();
    a.send_packet(&mut msgs, false).expect("frame");
    let frame = a.get_packet(1).expect("on wire");
    let hdr = parse_frame(&frame).unwrap().header;
    assert_eq!(hdr.chan, 1);
    assert_eq!(hdr.credit, 3);
    // The peer books 2^3 credits for channel A.
    let mut b = Connection::new(true, 2, 0x222222222222, 0x111111111111);
    b.establish_connection();
    b.process_packets(&frame, 2).expect("accepted");
    assert!(b.credits_send.take(OmnixtendChannel::A, 8));
    assert!(!b.credits_send.take(OmnixtendChannel::A, 1));
}

#[test]
fn close_rejected_in_compat_mode() {
    let c = active_connection();
    assert!(c.close_rejected());
    let idle = Connection::new(false, 0, 1, 2);
    assert!(idle.close_rejected());
}

#[test]
fn close_timeout_check() {
    assert!(check_timeout(None, 1_000_000).is_ok());
    assert!(check_timeout(Some(500_000), 499_999).is_ok());
    assert_eq!(
        check_timeout(Some(500_000), 500_000),
        Err(ConnError::ConnectionCloseTimeout {
            timeout_micros: 500_000
        })
    );
}

#[test]
fn connection_status_snapshot() {
    let mut c = active_connection();
    let mut msgs: Vec<Vec<u8>> = Vec::new();
    c.send_packet(&mut msgs, false).expect("frame");
    let _ = c.get_packet(1_000);
    let status = c.status(5_000);
    assert_eq!(status.tx_seq(), 1);
    assert_eq!(status.rx_seq(), 0);
    assert_eq!(status.last_msg_out_micros(), 4_000);
}

#[test]
fn tick_rate_limit_and_heartbeat() {
    let mut conn = active_connection();
    let mut ops = Operations::new();
    let mut cache = Cache::new(0);
    // ack-only timeout 1 ms, resend timeout 100 ms, cycle 10 us, heartbeat 1 s.
    let mut tick = Tick::new(1_000, 100_000, 10, Some(1_000_000), 0);
    // Within the cycle nothing happens.
    tick.tick(5, &mut ops, &mut conn, &mut cache);
    assert!(conn.get_packet(5).is_none());
    // A fresh connection owes the peer its first frame.
    tick.tick(20, &mut ops, &mut conn, &mut cache);
    assert!(conn.get_packet(21).is_some());
    // Nothing to say and nothing owed: quiet until the heartbeat elapses.
    drain_receive_credits(&mut conn);
    tick.tick(50, &mut ops, &mut conn, &mut cache);
    assert!(conn.get_packet(51).is_none());
    tick.tick(1_200_000, &mut ops, &mut conn, &mut cache);
    assert!(conn.get_packet(1_200_001).is_some());
}

#[test]
fn tick_requests_resend_after_silence() {
    let mut conn = active_connection();
    let mut ops = Operations::new();
    let mut cache = Cache::new(0);
    let mut tick = Tick::new(1_000, 100_000, 10, None, 0);
    // Put one frame in flight so there is something to resend.
    tick.tick(20, &mut ops, &mut conn, &mut cache);
    let first = conn.get_packet(21).expect("first frame");
    // After 100 ms of silence the frame goes out again, byte for byte.
    tick.tick(200_000, &mut ops, &mut conn, &mut cache);
    let again = conn.get_packet(200_001).expect("resend");
    assert_eq!(again, first);
}

#[test]
fn ack_only_frame_advances_no_sequence() {
    let mut a = active_connection();
    let mut msgs: Vec<Vec<u8>> = Vec::new();
    // a sends seq 0; the peer acknowledges it with a data-less AckOnly frame.
    a.send_packet(&mut msgs, false).expect("frame");
    let _ = a.get_packet(1);
    let mut ack = Vec::new();
    push_mac_bytes(&mut ack, 0x111111111111);
    push_mac_bytes(&mut ack, 0x222222222222);
    ack.push(0xAA);
    ack.push(0xAA);
    let hdr = omnixtend_rs::omnixtend::OmnixtendHeader {
        vc: 0,
        message_type: 1, // AckOnly
        sequence_number: 0,
        sequence_number_ack: 0,
        ack: 1,
        chan: 0,
        credit: 0,
    };
    omnixtend_rs::wire::push_u64_be(&mut ack, hdr.to_u64());
    while ack.len() < 70 {
        ack.push(0);
    }
    let payload = a.process_packets(&ack, 2).expect("accepted");
    assert!(payload.is_empty());
    // The acknowledgement watermark moved, the receive sequence did not.
    let status = a.status(3);
    assert_eq!(status.rx_seq(), 0);
    assert_eq!(status.they_acked(), 0);
    // The acknowledged frame left the resend buffer: nothing to resend.
    assert_eq!(
        a.resend(),
        Err(omnixtend_rs::connection::Error::NoResendData)
    );
    // An acknowledgement is now owed back (first ACK).
    assert!(a.ack_outstanding());
}

fn push_mac_bytes(buf: &mut Vec<u8>, mac: u64) {
    omnixtend_rs::wire::push_mac(buf, mac);
}

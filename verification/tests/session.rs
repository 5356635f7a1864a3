//! Two-peer end-to-end scenarios: handshake, reads and writes, NAK
//! recovery, cache coherence traffic, orderly close.

use omnixtend_rs::cache::{Cache, CacheAccess, CacheWrite, ProbeOutcome};
use omnixtend_rs::connection::{Connection, ConnectionState};
use omnixtend_rs::omnixtend::parse_frame;
use omnixtend_rs::operations::{
    Error as OpError, Operations, PermOp, ReadOp, SubmitOutcome, TLOperations, TLResult, WriteOp,
};
use omnixtend_rs::tilelink_messages::{
    ChanABCDTilelinkMessage, ChanETilelinkMessage, OmnixtendChannel,
    OmnixtendPermissionChangeCap, OmnixtendPermissionChangeGrow,
};
use omnixtend_rs::utils::process_packet;
use omnixtend_rs::wire::{push_u64_be, push_u64_le, read_u64_be, read_u64_le};

struct Peer {
    conn: Connection,
    cache: Cache,
    ops: Operations,
}

fn make_peer(my_mac: u64, other_mac: u64) -> Peer {
    Peer {
        conn: Connection::new(false, 0, my_mac, other_mac),
        cache: Cache::new(0),
        ops: Operations::new(),
    }
}

/// Assemble and pull one frame from a peer, if it has anything to say.
fn pump(p: &mut Peer, now: u64) -> Option<Vec<u8>> {
    let mut msgs = p.ops.take_pending();
    let outstanding = p.ops.num_outstanding() != 0;
    let _ = p.conn.send_packet(&mut msgs, outstanding);
    p.ops.put_back_pending(msgs);
    p.conn.get_packet(now)
}

/// Feed a frame into a peer.
fn feed(p: &mut Peer, frame: &[u8], now: u64) {
    let _ = process_packet(frame, &mut p.conn, &mut p.cache, &mut p.ops, now);
}

fn mem_lookup(mem: &Vec<(u64, u64)>, addr: u64) -> u64 {
    for (a, v) in mem.iter() {
        if *a == addr {
            return *v;
        }
    }
    0
}

fn mem_store(mem: &mut Vec<(u64, u64)>, addr: u64, val: u64) {
    for e in mem.iter_mut() {
        if e.0 == addr {
            e.1 = val;
            return;
        }
    }
    mem.push((addr, val));
}

/// Counts of request kinds seen in one payload.
#[derive(Default, Debug)]
struct FlitCounts {
    gets: usize,
    puts: usize,
    acquires: usize,
    releases: usize,
    probe_acks: usize,
    probe_ack_datas: usize,
    grant_acks: usize,
}

/// A mock memory endpoint: parse the requests of one payload and build the
/// TileLink responses.
fn respond_memory(
    payload: &[u8],
    mem: &mut Vec<(u64, u64)>,
    sink: u32,
    counts: &mut FlitCounts,
) -> Vec<Vec<u8>> {
    let mut out: Vec<Vec<u8>> = Vec::new();
    if payload.len() < 16 {
        return out;
    }
    let mut pos = 0usize;
    while pos + 8 <= payload.len() - 8 {
        let msg = ChanABCDTilelinkMessage::from_u64(read_u64_be(payload, pos));
        match msg.chan {
            OmnixtendChannel::A => match msg.opcode {
                4 => {
                    // Get
                    counts.gets += 1;
                    let addr = read_u64_be(payload, pos + 8);
                    pos += 16;
                    let val = mem_lookup(mem, addr);
                    let hdr = ChanABCDTilelinkMessage {
                        chan: OmnixtendChannel::D,
                        opcode: 1,
                        param: 0,
                        size: 3,
                        domain: 0,
                        err: 0,
                        source: msg.source,
                    };
                    let mut b = Vec::new();
                    push_u64_be(&mut b, hdr.to_u64());
                    push_u64_le(&mut b, val);
                    out.push(b);
                }
                0 => {
                    // PutFullData, 8 bytes
                    counts.puts += 1;
                    let addr = read_u64_be(payload, pos + 8);
                    let val = read_u64_le(payload, pos + 16);
                    pos += 24;
                    mem_store(mem, addr, val);
                    let hdr = ChanABCDTilelinkMessage {
                        chan: OmnixtendChannel::D,
                        opcode: 0,
                        param: 0,
                        size: 3,
                        domain: 0,
                        err: 0,
                        source: msg.source,
                    };
                    let mut b = Vec::new();
                    push_u64_be(&mut b, hdr.to_u64());
                    out.push(b);
                }
                6 | 7 => {
                    // AcquireBlock / AcquirePerm: grant the block with data
                    counts.acquires += 1;
                    let addr = read_u64_be(payload, pos + 8);
                    pos += 16;
                    let val = mem_lookup(mem, addr);
                    let hdr = ChanABCDTilelinkMessage {
                        chan: OmnixtendChannel::D,
                        opcode: 5,
                        param: 0,
                        size: 3,
                        domain: 0,
                        err: 0,
                        source: msg.source,
                    };
                    let mut b = Vec::new();
                    push_u64_be(&mut b, hdr.to_u64());
                    push_u64_be(&mut b, sink as u64);
                    push_u64_le(&mut b, val);
                    out.push(b);
                }
                _ => {
                    pos += 8;
                }
            },
            OmnixtendChannel::C => match msg.opcode {
                6 => {
                    // Release
                    counts.releases += 1;
                    pos += 16;
                    let hdr = ChanABCDTilelinkMessage {
                        chan: OmnixtendChannel::D,
                        opcode: 6,
                        param: 0,
                        size: 3,
                        domain: 0,
                        err: 0,
                        source: msg.source,
                    };
                    let mut b = Vec::new();
                    push_u64_be(&mut b, hdr.to_u64());
                    out.push(b);
                }
                7 => {
                    // ReleaseData, 8 bytes
                    counts.releases += 1;
                    let addr = read_u64_be(payload, pos + 8);
                    let val = read_u64_le(payload, pos + 16);
                    pos += 24;
                    mem_store(mem, addr, val);
                    let hdr = ChanABCDTilelinkMessage {
                        chan: OmnixtendChannel::D,
                        opcode: 6,
                        param: 0,
                        size: 3,
                        domain: 0,
                        err: 0,
                        source: msg.source,
                    };
                    let mut b = Vec::new();
                    push_u64_be(&mut b, hdr.to_u64());
                    out.push(b);
                }
                4 => {
                    // ProbeAck
                    counts.probe_acks += 1;
                    pos += 16;
                }
                5 => {
                    // ProbeAckData: take the written-back line
                    counts.probe_ack_datas += 1;
                    let addr = read_u64_be(payload, pos + 8);
                    let val = read_u64_le(payload, pos + 16);
                    pos += 24;
                    mem_store(mem, addr, val);
                }
                _ => {
                    pos += 8;
                }
            },
            OmnixtendChannel::E => {
                counts.grant_acks += 1;
                pos += 8;
            }
            _ => {
                pos += 8;
            }
        }
    }
    out
}

/// Drive a full handshake so that both peers are Active, and deliver the
/// mutual acknowledgements.
fn handshake(x: &mut Peer, y: &mut Peer) {
    x.conn.establish_connection();
    assert_eq!(x.conn.connection_state(), ConnectionState::Enabled);
    let f0 = pump(x, 1).expect("open frame");
    let parsed = parse_frame(&f0).expect("parse");
    assert_eq!(parsed.header.message_type, 2); // OpenConnection
    assert_eq!(parsed.header.sequence_number, 0);
    feed(y, &f0, 2);
    assert_eq!(y.conn.connection_state(), ConnectionState::Active);
    // Y acknowledges; X turns Active on the response.
    let f1 = pump(y, 3).expect("echo frame");
    feed(x, &f1, 4);
    assert_eq!(x.conn.connection_state(), ConnectionState::Active);
    // X acknowledges back so that Y's resend window drains too.
    let f2 = pump(x, 5).expect("ack frame");
    feed(y, &f2, 6);
}

/// One round trip of an operation that awaits a response from the mock
/// memory: submit, pump, respond, feed back, conclude.
fn perform(
    x: &mut Peer,
    y: &mut Peer,
    mem: &mut Vec<(u64, u64)>,
    op: TLOperations,
    counts: &mut FlitCounts,
) -> Result<TLResult, OpError> {
    let source = match x.ops.submit(&op, &mut x.conn.credits_send).expect("packable") {
        SubmitOutcome::Submitted { source } => source,
        other => panic!("submit declined: {:?}", other),
    };
    let frame = pump(x, 10).expect("request frame");
    let payload = y
        .conn
        .process_packets(&frame, 11)
        .expect("accepted by peer");
    let responses = respond_memory(&payload, mem, 7, counts);
    let mut msgs: Vec<Vec<u8>> = responses;
    y.conn
        .send_packet(&mut msgs, false)
        .expect("response frame");
    let back = y.conn.get_packet(12).expect("response on wire");
    feed(x, &back, 13);
    let (sink, ret) = x.ops.take_completion(source).expect("response delivered");
    let (result, needs_ack) = x.ops.conclude(&op, source, ret);
    if needs_ack {
        match x
            .ops
            .submit(&TLOperations::GrantAck(sink), &mut x.conn.credits_send)
            .expect("grant ack packs")
        {
            SubmitOutcome::Submitted { .. } => {}
            other => panic!("grant ack declined: {:?}", other),
        }
        let ack_frame = pump(x, 14).expect("grant ack frame");
        let pl = y.conn.process_packets(&ack_frame, 15).expect("accepted");
        respond_memory(&pl, mem, 7, counts);
    }
    result
}

#[test]
fn handshake_reaches_active() {
    let mut x = make_peer(1, 2);
    let mut y = make_peer(2, 1);
    handshake(&mut x, &mut y);
    assert_eq!(x.conn.connection_state(), ConnectionState::Active);
    assert_eq!(y.conn.connection_state(), ConnectionState::Active);
}

#[test]
fn read_64_round_trip() {
    let mut x = make_peer(1, 2);
    let mut y = make_peer(2, 1);
    handshake(&mut x, &mut y);
    let mut mem = vec![(0xAB00u64, 0x42u64)];
    let mut counts = FlitCounts::default();
    let r = perform(
        &mut x,
        &mut y,
        &mut mem,
        TLOperations::Read(ReadOp { address: 0xAB00 }),
        &mut counts,
    )
    .expect("read succeeds");
    match r {
        TLResult::Data64(v) => assert_eq!(v, 0x42),
        other => panic!("wrong result: {:?}", other),
    }
    assert_eq!(counts.gets, 1);
    assert_eq!(counts.grant_acks, 0);
}

#[test]
fn write_then_read() {
    let mut x = make_peer(1, 2);
    let mut y = make_peer(2, 1);
    handshake(&mut x, &mut y);
    let mut mem = Vec::new();
    let mut counts = FlitCounts::default();
    perform(
        &mut x,
        &mut y,
        &mut mem,
        TLOperations::Write(WriteOp {
            address: 0xAB00,
            data: 0xDEADBEEF,
        }),
        &mut counts,
    )
    .expect("write succeeds");
    let r = perform(
        &mut x,
        &mut y,
        &mut mem,
        TLOperations::Read(ReadOp { address: 0xAB00 }),
        &mut counts,
    )
    .expect("read succeeds");
    match r {
        TLResult::Data64(v) => assert_eq!(v, 0xDEADBEEF),
        other => panic!("wrong result: {:?}", other),
    }
}

#[test]
fn nak_recovery_resends_in_order() {
    let mut x = make_peer(1, 2);
    let mut y = make_peer(2, 1);
    handshake(&mut x, &mut y);
    // The handshake used sequences 0 and 1; X now emits seqs 2..=7.
    let mut frames = Vec::new();
    for i in 0..6u64 {
        frames.push(pump(&mut x, 20 + i).expect("frame"));
    }
    let seqs: Vec<u32> = frames
        .iter()
        .map(|f| parse_frame(f).unwrap().header.sequence_number)
        .collect();
    assert_eq!(seqs, vec![2, 3, 4, 5, 6, 7]);
    // Y accepts seqs 2..=5.
    for f in frames.iter().take(4) {
        feed(&mut y, f, 30);
    }
    // Y acknowledges what it saw so X drains its resend buffer up to 5.
    let yack = pump(&mut y, 31).expect("ack frame");
    feed(&mut x, &yack, 32);
    // The frame with seq 6 is lost; Y sees 7 and answers with a NAK.
    let r = y.conn.process_packets(&frames[5], 33);
    assert!(r.is_err());
    let nak = pump(&mut y, 34).expect("nak frame");
    let nak_parsed = parse_frame(&nak).unwrap();
    assert_eq!(nak_parsed.header.ack, 0);
    feed(&mut x, &nak, 35);
    assert!(x.conn.resend_outstanding());
    // X queues every unacknowledged frame, byte for byte as first sent.
    x.conn.resend().expect("resend queued");
    let r6 = x.conn.get_packet(36).expect("resend of 6");
    let r7 = x.conn.get_packet(37).expect("resend of 7");
    assert_eq!(r6, frames[4]);
    assert_eq!(r7, frames[5]);
    // Y now accepts them in order.
    assert!(y.conn.process_packets(&r6, 38).is_ok());
    assert!(y.conn.process_packets(&r7, 39).is_ok());
    assert_eq!(y.conn.status(40).rx_seq(), 8);
}

#[test]
fn cache_acquire_and_probe_writeback() {
    let mut x = make_peer(1, 2);
    let mut y = make_peer(2, 1);
    handshake(&mut x, &mut y);
    let mut mem = Vec::new();
    let mut counts = FlitCounts::default();
    // X writes 1 to 0x100 through its cache: miss, acquire Trunk, write.
    match x.cache.write_step(0x100, 1) {
        CacheWrite::Miss(g) => assert_eq!(g, OmnixtendPermissionChangeGrow::NtoT),
        other => panic!("expected miss: {:?}", other),
    }
    let r = perform(
        &mut x,
        &mut y,
        &mut mem,
        TLOperations::AcquireBlock(PermOp {
            address: 0x100,
            len: 8,
            permissions: OmnixtendPermissionChangeGrow::NtoT,
        }),
        &mut counts,
    )
    .expect("acquire succeeds");
    let block = match r {
        TLResult::Data(d) => d,
        other => panic!("wrong result: {:?}", other),
    };
    assert_eq!(counts.grant_acks, 1);
    x.cache.install(0x100, block, OmnixtendPermissionChangeCap::ToT);
    assert_eq!(x.cache.write_step(0x100, 1), CacheWrite::Done);
    assert_eq!(x.cache.read_step(0x100), CacheAccess::Hit(1));
    // Y probes 0x100 down to Branch (ProbeBlock, opcode 6, param ToB).
    let probe_hdr = ChanABCDTilelinkMessage {
        chan: OmnixtendChannel::B,
        opcode: 6,
        param: 1, // ToB
        size: 3,
        domain: 0,
        err: 0,
        source: 0,
    };
    let mut probe_bytes = Vec::new();
    push_u64_be(&mut probe_bytes, probe_hdr.to_u64());
    push_u64_be(&mut probe_bytes, 0x100);
    let mut msgs = vec![probe_bytes];
    y.conn.send_packet(&mut msgs, false).expect("probe frame");
    let probe_frame = y.conn.get_packet(50).expect("probe on wire");
    feed(&mut x, &probe_frame, 51);
    assert_eq!(x.cache.probe_count(), 1);
    // X answers the probe: dirty Trunk line goes to Branch with writeback.
    x.cache
        .process_probes(&mut x.ops, &mut x.conn.credits_send);
    assert_eq!(x.cache.probe_count(), 0);
    let ack_frame = pump(&mut x, 52).expect("probe ack frame");
    let payload = y.conn.process_packets(&ack_frame, 53).expect("accepted");
    respond_memory(&payload, &mut mem, 9, &mut counts);
    assert_eq!(counts.probe_ack_datas, 1);
    assert_eq!(mem_lookup(&mem, 0x100), 1);
    // The entry is now a clean Branch.
    match x.cache.read_step(0x100) {
        CacheAccess::Hit(v) => assert_eq!(v, 1),
        other => panic!("expected hit: {:?}", other),
    }
    assert_eq!(x.cache.write_step(0x100, 2), CacheWrite::Miss(OmnixtendPermissionChangeGrow::BtoT));
    let overview = x.cache.retrieve_overview();
    assert_eq!(overview.len(), 1);
    assert!(!overview[0].modified);
    assert_eq!(
        overview[0].permissions,
        OmnixtendPermissionChangeCap::ToB
    );
}

#[test]
fn orderly_close() {
    let mut x = make_peer(1, 2);
    let mut y = make_peer(2, 1);
    handshake(&mut x, &mut y);
    // The open frame is acknowledged, so the close may proceed.
    assert!(x.conn.open_frame_acknowledged());
    assert!(!x.conn.close_rejected());
    x.conn.initiate_close_connection().expect("close starts");
    assert_eq!(x.conn.connection_state(), ConnectionState::ClosedByHost);
    // An in-flight operation wakes with ConnectionClosed.
    let source = match x
        .ops
        .submit(
            &TLOperations::Read(ReadOp { address: 0x0 }),
            &mut x.conn.credits_send,
        )
        .expect("packs")
    {
        SubmitOutcome::Submitted { source } => source,
        other => panic!("declined: {:?}", other),
    };
    x.ops.cancel_all();
    let (_, ret) = x.ops.take_completion(source).expect("cancelled");
    assert_eq!(ret, Err(OpError::ConnectionClosed));
    let (concluded, needs_ack) = x.ops.conclude(
        &TLOperations::Read(ReadOp { address: 0x0 }),
        source,
        ret,
    );
    assert!(!needs_ack);
    assert!(matches!(concluded, Err(OpError::ConnectionClosed)));
    // With no pending operations the next frame carries CloseConnection.
    let close_frame = pump(&mut x, 60).expect("close frame");
    let parsed = parse_frame(&close_frame).unwrap();
    assert_eq!(parsed.header.message_type, 3);
    assert_eq!(
        x.conn.connection_state(),
        ConnectionState::ClosedByHostIndicated
    );
    feed(&mut y, &close_frame, 61);
    assert_eq!(y.conn.connection_state(), ConnectionState::ClosedByClient);
    let y_close = pump(&mut y, 62).expect("peer close frame");
    assert_eq!(parse_frame(&y_close).unwrap().header.message_type, 3);
    assert_eq!(y.conn.connection_state(), ConnectionState::Idle);
    feed(&mut x, &y_close, 63);
    assert_eq!(x.conn.connection_state(), ConnectionState::Idle);
}

#[test]
fn denied_flit_surfaces_unaligned_access() {
    let mut x = make_peer(1, 2);
    let mut y = make_peer(2, 1);
    handshake(&mut x, &mut y);
    let op = TLOperations::Read(ReadOp { address: 0x8 });
    let source = match x.ops.submit(&op, &mut x.conn.credits_send).expect("packs") {
        SubmitOutcome::Submitted { source } => source,
        other => panic!("declined: {:?}", other),
    };
    let frame = pump(&mut x, 70).expect("request");
    y.conn.process_packets(&frame, 71).expect("accepted");
    // Y denies the access: err field bit 1 set.
    let hdr = ChanABCDTilelinkMessage {
        chan: OmnixtendChannel::D,
        opcode: 1,
        param: 0,
        size: 3,
        domain: 0,
        err: 2,
        source,
    };
    let mut b = Vec::new();
    push_u64_be(&mut b, hdr.to_u64());
    push_u64_le(&mut b, 0x4242);
    let mut msgs = vec![b];
    y.conn.send_packet(&mut msgs, false).expect("denied frame");
    let back = y.conn.get_packet(72).expect("on wire");
    feed(&mut x, &back, 73);
    let (_, ret) = x.ops.take_completion(source).expect("delivered");
    let (result, _) = x.ops.conclude(&op, source, ret);
    assert!(matches!(result, Err(OpError::UnalignedAccess)));
}

#[test]
fn release_round_trip() {
    let mut x = make_peer(1, 2);
    let mut y = make_peer(2, 1);
    handshake(&mut x, &mut y);
    let mut mem = Vec::new();
    let mut counts = FlitCounts::default();
    // Install a dirty Trunk line locally.
    let block = vec![0u8; 8];
    x.cache.install(0x200, block, OmnixtendPermissionChangeCap::ToT);
    assert_eq!(x.cache.write_step(0x200, 0x77), CacheWrite::Done);
    // Releasing a missing line is refused.
    assert!(x.cache.begin_release(0x300).is_err());
    // Release the dirty line: it owes a writeback.
    let action = x.cache.begin_release(0x200).expect("releasable");
    let data = action.writeback.expect("dirty line writes back");
    assert_eq!(read_u64_le(&data, 0), 0x77);
    let r = perform(
        &mut x,
        &mut y,
        &mut mem,
        TLOperations::ReleaseData(omnixtend_rs::operations::ReleaseDataOp {
            release: omnixtend_rs::operations::ReleaseOp {
                address: 0x200,
                len: action.len,
                perm_from: action.perm_from,
                perm_to: OmnixtendPermissionChangeCap::ToN,
            },
            data,
        }),
        &mut counts,
    )
    .expect("release acknowledged");
    assert!(matches!(r, TLResult::NoData));
    x.cache.finish_release(0x200);
    assert_eq!(mem_lookup(&mem, 0x200), 0x77);
    // The line is gone: a read misses from None.
    assert_eq!(
        x.cache.read_step(0x200),
        CacheAccess::Miss(OmnixtendPermissionChangeGrow::NtoB)
    );
    // The probe queue is empty and a probe on the released line answers NtoN.
    let probe_hdr = ChanABCDTilelinkMessage {
        chan: OmnixtendChannel::B,
        opcode: 6,
        param: 2, // ToN
        size: 3,
        domain: 0,
        err: 0,
        source: 0,
    };
    x.cache.add_probe((probe_hdr, 0x200));
    let outcome = x.cache.process_probe(
        &probe_hdr,
        0x200,
        &mut x.ops,
        &mut x.conn.credits_send,
    );
    assert_eq!(outcome, ProbeOutcome::Done);
}

#[test]
fn grant_ack_flit_encodes_sink() {
    let msg = ChanETilelinkMessage {
        chan: OmnixtendChannel::E,
        sink: 0x123456,
    };
    let w = msg.to_u64();
    let back = ChanETilelinkMessage::from_u64(w);
    assert_eq!(back.chan, OmnixtendChannel::E);
    assert_eq!(back.sink, 0x123456);
}

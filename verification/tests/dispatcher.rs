//! Operation packing and the source-tag dispatcher.

use omnixtend_rs::credits::Credits;
use omnixtend_rs::operations::{
    Error as OpError, Operations, PermOp, ReadOp, ReadOpLen, SubmitOutcome, TLOperations,
    TLResult, WriteOp, WriteOpLen, WriteOpPartial,
};
use omnixtend_rs::tilelink_messages::{ChanABCDTilelinkMessage, OmnixtendChannel, OmnixtendPermissionChangeGrow};
use omnixtend_rs::wire::{read_u64_be, read_u64_le};

#[test]
fn pack_read_64_exact_bytes() {
    let packed = TLOperations::pack_read_64(&ReadOp { address: 0xAB00 }, 9).expect("packs");
    assert_eq!(packed.len(), 16);
    let hdr = ChanABCDTilelinkMessage::from_u64(read_u64_be(&packed, 0));
    assert_eq!(hdr.chan, OmnixtendChannel::A);
    assert_eq!(hdr.opcode, 4);
    assert_eq!(hdr.size, 3);
    assert_eq!(hdr.source, 9);
    assert_eq!(read_u64_be(&packed, 8), 0xAB00);
}

#[test]
fn pack_write_64_carries_the_value() {
    let packed = TLOperations::pack_write_64(
        &WriteOp {
            address: 0x10,
            data: 0x1122334455667788,
        },
        3,
    )
    .expect("packs");
    assert_eq!(packed.len(), 24);
    let hdr = ChanABCDTilelinkMessage::from_u64(read_u64_be(&packed, 0));
    assert_eq!(hdr.opcode, 0);
    assert_eq!(read_u64_be(&packed, 8), 0x10);
    assert_eq!(read_u64_le(&packed, 16), 0x1122334455667788);
}

#[test]
fn pack_write_len_rejects_non_power_of_two() {
    let r = TLOperations::pack_write_len(
        &WriteOpLen {
            address: 0,
            data: vec![1, 2, 3],
        },
        0,
    );
    assert_eq!(r.unwrap_err(), OpError::NotPowTwo { size: 3 });
    let ok = TLOperations::pack_write_len(
        &WriteOpLen {
            address: 0,
            data: vec![0; 16],
        },
        0,
    )
    .expect("16 is a power of two");
    assert_eq!(ok.len(), 32);
    let hdr = ChanABCDTilelinkMessage::from_u64(read_u64_be(&ok, 0));
    assert_eq!(hdr.size, 4);
}

#[test]
fn pack_write_partial_single_byte_mask() {
    // One byte of data: one mask flit with a single bit, one data flit.
    let packed = TLOperations::pack_write_partial(
        &WriteOpPartial {
            address: 0x40,
            data: vec![0xAB],
        },
        2,
    )
    .expect("packs");
    assert_eq!(packed.len(), 32);
    let hdr = ChanABCDTilelinkMessage::from_u64(read_u64_be(&packed, 0));
    assert_eq!(hdr.opcode, 1);
    assert_eq!(hdr.size, 0);
    assert_eq!(read_u64_be(&packed, 8), 0x40);
    assert_eq!(read_u64_le(&packed, 16), 1); // mask: one valid byte
    assert_eq!(read_u64_le(&packed, 24), 0xAB);
}

#[test]
fn pack_write_partial_mask_interleaving() {
    // 100 bytes: next power of two is 128, so 2 mask words and 16 data
    // words; the second mask word marks the 36 bytes beyond the first 64.
    let data: Vec<u8> = (0..100).map(|i| i as u8).collect();
    let packed = TLOperations::pack_write_partial(&WriteOpPartial { address: 0, data }, 0)
        .expect("packs");
    assert_eq!(packed.len(), (2 + 2 + 16) * 8);
    let hdr = ChanABCDTilelinkMessage::from_u64(read_u64_be(&packed, 0));
    assert_eq!(hdr.size, 7); // log2(128)
    // First mask word covers 64 valid bytes, then 8 data words follow.
    assert_eq!(read_u64_le(&packed, 16), u64::MAX);
    assert_eq!(read_u64_le(&packed, 24), read_u64_le(&(0..100).map(|i| i as u8).collect::<Vec<u8>>(), 0));
    // The second mask word sits after the first 8 data words.
    let second_mask = read_u64_le(&packed, 16 + 8 + 8 * 8);
    assert_eq!(second_mask, (1u64 << 36) - 1);
}

#[test]
fn credit_costs_per_operation() {
    let read = TLOperations::Read(ReadOp { address: 0 });
    assert_eq!(read.credits(), (OmnixtendChannel::A, 2));
    let write = TLOperations::Write(WriteOp { address: 0, data: 0 });
    assert_eq!(write.credits(), (OmnixtendChannel::A, 3));
    let ga = TLOperations::GrantAck(1);
    assert_eq!(ga.credits(), (OmnixtendChannel::E, 1));
    let wp = TLOperations::WritePartial(WriteOpPartial {
        address: 0,
        data: vec![0; 100],
    });
    // 2 header flits, 2 mask flits, 16 data flits.
    assert_eq!(wp.credits(), (OmnixtendChannel::A, 20));
}

#[test]
fn submit_declines_without_credits() {
    let mut ops = Operations::new();
    let mut credits = Credits::new(0);
    let r = ops
        .submit(&TLOperations::Read(ReadOp { address: 0 }), &mut credits)
        .expect("packs");
    assert_eq!(r, SubmitOutcome::NoCredits);
    assert_eq!(ops.num_pending(), 0);
    assert_eq!(ops.num_outstanding(), 0);
}

#[test]
fn submit_reports_packing_errors_without_effect() {
    let mut ops = Operations::new();
    let mut credits = Credits::new(16);
    let r = ops.submit(
        &TLOperations::AcquireBlock(PermOp {
            address: 0,
            len: 3,
            permissions: OmnixtendPermissionChangeGrow::NtoB,
        }),
        &mut credits,
    );
    assert_eq!(r.unwrap_err(), OpError::NotPowTwo { size: 3 });
    assert_eq!(ops.num_pending(), 0);
    assert!(credits.take(OmnixtendChannel::A, 16));
}

#[test]
fn source_tags_are_exhaustible_and_distinct() {
    let mut ops = Operations::new();
    let mut credits = Credits::new(100000);
    let mut seen = Vec::new();
    for _ in 0..255 {
        match ops
            .submit(&TLOperations::Read(ReadOp { address: 0 }), &mut credits)
            .expect("packs")
        {
            SubmitOutcome::Submitted { source } => {
                // No source tag is handed out twice while reserved.
                assert!(!seen.contains(&source));
                seen.push(source);
            }
            other => panic!("declined: {:?}", other),
        }
    }
    assert_eq!(ops.num_outstanding(), 255);
    // The 256th operation finds no tag.
    let r = ops
        .submit(&TLOperations::Read(ReadOp { address: 0 }), &mut credits)
        .expect("packs");
    assert_eq!(r, SubmitOutcome::NoSource);
    // Giving one back makes it available again.
    let (result, needs_ack) = ops.conclude(
        &TLOperations::Read(ReadOp { address: 0 }),
        seen[0],
        Ok(vec![1, 0, 0, 0, 0, 0, 0, 0]),
    );
    assert!(!needs_ack);
    match result.expect("ok") {
        TLResult::Data64(v) => assert_eq!(v, 1),
        other => panic!("wrong: {:?}", other),
    }
    match ops
        .submit(&TLOperations::Read(ReadOp { address: 0 }), &mut credits)
        .expect("packs")
    {
        SubmitOutcome::Submitted { source } => assert_eq!(source, seen[0]),
        other => panic!("declined: {:?}", other),
    }
}

#[test]
fn fire_and_forget_uses_source_zero() {
    let mut ops = Operations::new();
    let mut credits = Credits::new(4);
    match ops
        .submit(&TLOperations::GrantAck(0x33), &mut credits)
        .expect("packs")
    {
        SubmitOutcome::Submitted { source } => assert_eq!(source, 0),
        other => panic!("declined: {:?}", other),
    }
    assert_eq!(ops.num_outstanding(), 0);
    assert_eq!(ops.num_pending(), 1);
}

#[test]
fn conclude_maps_results_per_operation() {
    let mut ops = Operations::new();
    let mut credits = Credits::new(100);
    // An acquire returns its block and owes a GrantAck.
    let op = TLOperations::AcquireBlock(PermOp {
        address: 0,
        len: 8,
        permissions: OmnixtendPermissionChangeGrow::NtoT,
    });
    let source = match ops.submit(&op, &mut credits).expect("packs") {
        SubmitOutcome::Submitted { source } => source,
        other => panic!("declined: {:?}", other),
    };
    ops.complete(source, 5, Ok(vec![9, 0, 0, 0, 0, 0, 0, 0]));
    let (sink, ret) = ops.take_completion(source).expect("delivered");
    assert_eq!(sink, 5);
    let (result, needs_ack) = ops.conclude(&op, source, ret);
    assert!(needs_ack);
    match result.expect("ok") {
        TLResult::Data(d) => assert_eq!(d[0], 9),
        other => panic!("wrong: {:?}", other),
    }
    // A closed connection suppresses the follow-up.
    let source2 = match ops.submit(&op, &mut credits).expect("packs") {
        SubmitOutcome::Submitted { source } => source,
        other => panic!("declined: {:?}", other),
    };
    let (result2, needs_ack2) = ops.conclude(&op, source2, Err(OpError::ConnectionClosed));
    assert!(!needs_ack2);
    assert!(matches!(result2, Err(OpError::ConnectionClosed)));
}

#[test]
fn out_of_range_completion_is_ignored() {
    let mut ops = Operations::new();
    ops.complete(10_000_000, 0, Ok(Vec::new()));
    // Slot 255 does not exist; every real slot stays empty.
    assert!(ops.take_completion(0).is_none());
}

#[test]
fn read_len_result_is_variable_data() {
    let op = TLOperations::ReadLen(ReadOpLen {
        address: 0,
        len_bytes: 64,
    });
    let mut ops = Operations::new();
    let mut credits = Credits::new(100);
    let source = match ops.submit(&op, &mut credits).expect("packs") {
        SubmitOutcome::Submitted { source } => source,
        other => panic!("declined: {:?}", other),
    };
    let (result, _) = ops.conclude(&op, source, Ok(vec![7; 64]));
    match result.expect("ok") {
        TLResult::Data(d) => assert_eq!(d.len(), 64),
        other => panic!("wrong: {:?}", other),
    }
}

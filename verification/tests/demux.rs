//! Demultiplexing received payloads into credits, probes and responses.

use omnixtend_rs::channels::{Channel, Error as ChanError};
use omnixtend_rs::connection::Error as ConnError;
use omnixtend_rs::tilelink_messages::{ChanABCDTilelinkMessage, OmnixtendChannel};
use omnixtend_rs::wire::{push_u64_be, push_u64_le};

fn with_mask_trailer(mut payload: Vec<u8>) -> Vec<u8> {
    push_u64_be(&mut payload, 0);
    payload
}

#[test]
fn short_payload_is_rejected() {
    let r = Channel::process_messages(&[0u8; 7]);
    assert_eq!(r.unwrap_err(), ChanError::ShortPayload { pl: 7 });
}

#[test]
fn empty_payload_yields_nothing() {
    let (credits, probes, responses) =
        Channel::process_messages(&[0u8; 8]).expect("just the mask trailer");
    assert!(credits.is_empty());
    assert!(probes.is_empty());
    assert!(responses.is_empty());
}

#[test]
fn probe_fans_out_with_its_credits() {
    let hdr = ChanABCDTilelinkMessage {
        chan: OmnixtendChannel::B,
        opcode: 6,
        param: 1,
        size: 3,
        domain: 0,
        err: 0,
        source: 0,
    };
    let mut payload = Vec::new();
    push_u64_be(&mut payload, hdr.to_u64());
    push_u64_be(&mut payload, 0x1234);
    let (credits, probes, responses) =
        Channel::process_messages(&with_mask_trailer(payload)).expect("parses");
    assert_eq!(credits, vec![(OmnixtendChannel::B, 2)]);
    assert_eq!(probes.len(), 1);
    assert_eq!(probes[0].1, 0x1234);
    assert_eq!(probes[0].0.opcode, 6);
    assert!(responses.is_empty());
}

#[test]
fn access_ack_data_fans_out_as_response() {
    let hdr = ChanABCDTilelinkMessage {
        chan: OmnixtendChannel::D,
        opcode: 1,
        param: 0,
        size: 3,
        domain: 0,
        err: 0,
        source: 17,
    };
    let mut payload = Vec::new();
    push_u64_be(&mut payload, hdr.to_u64());
    push_u64_le(&mut payload, 0xBEEF);
    let (credits, probes, responses) =
        Channel::process_messages(&with_mask_trailer(payload)).expect("parses");
    assert_eq!(credits, vec![(OmnixtendChannel::D, 2)]);
    assert!(probes.is_empty());
    assert_eq!(responses.len(), 1);
    let (source, sink, data) = &responses[0];
    assert_eq!(*source, 17);
    assert_eq!(*sink, 0);
    assert_eq!(data.as_ref().unwrap(), &vec![0xEF, 0xBE, 0, 0, 0, 0, 0, 0]);
}

#[test]
fn requester_rejects_channel_a_traffic() {
    let hdr = ChanABCDTilelinkMessage {
        chan: OmnixtendChannel::A,
        opcode: 4,
        param: 0,
        size: 3,
        domain: 0,
        err: 0,
        source: 0,
    };
    let mut payload = Vec::new();
    push_u64_be(&mut payload, hdr.to_u64());
    push_u64_be(&mut payload, 0);
    let r = Channel::process_messages(&with_mask_trailer(payload));
    assert_eq!(r.unwrap_err(), ChanError::UnexpectedChannel { chan: 1 });
}

#[test]
fn unknown_d_opcode_is_rejected() {
    let hdr = ChanABCDTilelinkMessage {
        chan: OmnixtendChannel::D,
        opcode: 7,
        param: 0,
        size: 3,
        domain: 0,
        err: 0,
        source: 0,
    };
    let mut payload = Vec::new();
    push_u64_be(&mut payload, hdr.to_u64());
    let r = Channel::process_messages(&with_mask_trailer(payload));
    assert_eq!(r.unwrap_err(), ChanError::UnhandledOpcode { opcode: 7 });
}

#[test]
fn truncated_response_is_short() {
    // AccessAckData announcing 16 data bytes that are not there.
    let hdr = ChanABCDTilelinkMessage {
        chan: OmnixtendChannel::D,
        opcode: 1,
        param: 0,
        size: 4,
        domain: 0,
        err: 0,
        source: 0,
    };
    let mut payload = Vec::new();
    push_u64_be(&mut payload, hdr.to_u64());
    push_u64_be(&mut payload, 0); // only the mask trailer follows
    let r = Channel::process_messages(&payload);
    assert_eq!(r.unwrap_err(), ChanError::ShortPayload { pl: 16 });
}

#[test]
fn close_precheck_raises_compat_mode_close() {
    let mut c = omnixtend_rs::connection::Connection::new(true, 0, 1, 2);
    c.establish_connection();
    assert_eq!(c.close_precheck(), Err(ConnError::CompatModeClose));
}

#[test]
fn engine_error_wraps_the_connection_error() {
    let mut conn = omnixtend_rs::connection::Connection::new(true, 0, 1, 2);
    conn.establish_connection();
    let mut cache = omnixtend_rs::cache::Cache::new(0);
    let mut ops = omnixtend_rs::operations::Operations::new();
    let r = omnixtend_rs::utils::process_packet(&[0u8; 4], &mut conn, &mut cache, &mut ops, 1);
    assert_eq!(
        r,
        Err(omnixtend_rs::Error::ConnectionError {
            source: ConnError::NotEthernetPacket
        })
    );
}

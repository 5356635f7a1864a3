//! Probe-queue behavior: blocked probes wait out a release, uncovered
//! acknowledgements wait for credits, answered probes leave the queue.

use omnixtend_rs::cache::{Cache, CacheAccess, ProbeOutcome};
use omnixtend_rs::credits::Credits;
use omnixtend_rs::operations::Operations;
use omnixtend_rs::tilelink_messages::{
    ChanABCDTilelinkMessage, OmnixtendChannel, OmnixtendPermissionChangeCap,
    OmnixtendPermissionChangeGrow,
};

fn probe_header(opcode: u8, param: u8) -> ChanABCDTilelinkMessage {
    ChanABCDTilelinkMessage {
        chan: OmnixtendChannel::B,
        opcode,
        param,
        size: 3,
        domain: 0,
        err: 0,
        source: 0,
    }
}

#[test]
fn blocked_probe_stays_queued_with_line_untouched() {
    let mut cache = Cache::new(0);
    let mut ops = Operations::new();
    let mut credits = Credits::new(16);
    cache.install(0x100, vec![7, 0, 0, 0, 0, 0, 0, 0], OmnixtendPermissionChangeCap::ToT);
    // A release in flight blocks the probe.
    cache.begin_release(0x100).expect("releasable");
    cache.add_probe((probe_header(6, 2), 0x100));
    cache.process_probes(&mut ops, &mut credits);
    assert_eq!(cache.probe_count(), 1);
    assert_eq!(ops.num_pending(), 0);
    // The blocked line is untouched: still release-pending.
    assert_eq!(cache.read_step(0x100), CacheAccess::Blocked);
    // Once the release finished, the retried probe is answered and dropped.
    cache.finish_release(0x100);
    cache.process_probes(&mut ops, &mut credits);
    assert_eq!(cache.probe_count(), 0);
    assert_eq!(ops.num_pending(), 1);
}

#[test]
fn uncovered_probe_waits_for_credits() {
    let mut cache = Cache::new(0);
    let mut ops = Operations::new();
    let mut credits = Credits::new(0);
    cache.install(0x200, vec![0; 8], OmnixtendPermissionChangeCap::ToT);
    let hdr = probe_header(6, 2); // ProbeBlock down to None
    let outcome = cache.process_probe(&hdr, 0x200, &mut ops, &mut credits);
    // No credits: the acknowledgement waits, but the line is already capped.
    assert_eq!(outcome, ProbeOutcome::NoCredits);
    assert_eq!(ops.num_pending(), 0);
    assert_eq!(
        cache.read_step(0x200),
        CacheAccess::Miss(OmnixtendPermissionChangeGrow::NtoB)
    );
    // With credits granted, the retry goes out.
    credits.add(OmnixtendChannel::C, 4);
    let retried = cache.process_probe(&hdr, 0x200, &mut ops, &mut credits);
    assert_eq!(retried, ProbeOutcome::Done);
    assert_eq!(ops.num_pending(), 1);
}

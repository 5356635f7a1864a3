//! Credit-pool behavior: add, take, the any test and the log2-encoded grant
//! extraction with its 5-bit cap.

use omnixtend_rs::credits::Credits;
use omnixtend_rs::tilelink_messages::OmnixtendChannel;

#[test]
fn take_deducts_only_when_covered() {
    let mut c = Credits::new(10);
    assert!(c.take(OmnixtendChannel::A, 10));
    // The pool is empty now; nothing more can leave it.
    assert!(!c.take(OmnixtendChannel::A, 1));
    // Other pools are untouched.
    assert!(c.take(OmnixtendChannel::B, 10));
    // The invalid channel never grants anything.
    assert!(!c.take(OmnixtendChannel::INVALID, 0));
}

#[test]
fn add_is_a_noop_for_invalid() {
    let mut c = Credits::new(0);
    c.add(OmnixtendChannel::INVALID, 100);
    assert!(!c.any());
    c.add(OmnixtendChannel::E, 1);
    assert!(c.any());
    assert!(c.take(OmnixtendChannel::E, 1));
    assert!(!c.any());
}

#[test]
fn get_highest_extracts_a_power_of_two() {
    let mut c = Credits::new(0);
    c.add(OmnixtendChannel::A, 5);
    c.add(OmnixtendChannel::C, 12);
    // Channel C holds the most; floor log2 of 12 is 3, so 8 leaves the pool.
    let (chan, log2) = c.get_highest();
    assert_eq!((chan, log2), (3, 3));
    assert!(c.take(OmnixtendChannel::C, 4));
    assert!(!c.take(OmnixtendChannel::C, 1));
}

#[test]
fn get_highest_on_empty_pools() {
    let mut c = Credits::new(0);
    assert_eq!(c.get_highest(), (0, 0));
}

#[test]
fn get_highest_caps_at_the_wire_encoding() {
    let mut c = Credits::new(0);
    // More than 2^31 credits still encode as a grant of 2^31.
    c.add(OmnixtendChannel::D, 0x100000000);
    let (chan, log2) = c.get_highest();
    assert_eq!((chan, log2), (4, 31));
    // Exactly 2^31 was deducted.
    assert!(c.take(OmnixtendChannel::D, 0x80000000));
    assert!(!c.take(OmnixtendChannel::D, 1));
}

#[test]
fn reset_to_copies_pools() {
    let mut a = Credits::new(7);
    let b = Credits::new(0);
    a.reset_to(&b);
    assert!(!a.any());
}

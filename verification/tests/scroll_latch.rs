use std::time::{Duration, Instant};

use iced_logic::scroll_latch::{
    claim, claim_at, live, live_owner, may_act, may_act_after, owns, owns_after, Id, Latch, IDLE_NANOS,
};

fn ids() -> (Id, Id) {
    (Id::from_raw(0), Id::from_raw(1))
}

#[test]
fn owner_keeps_the_gesture_when_the_pointer_moves_to_a_rival() {
    let mut latch = Latch::new();
    let (owner, rival) = ids();

    assert!(may_act(&latch, owner, true));
    claim(&mut latch, owner);

    assert!(!may_act(&latch, rival, true));
    assert!(may_act(&latch, owner, false));
}

#[test]
fn a_free_gesture_goes_to_whatever_is_hovered() {
    let latch = Latch::new();
    let (hovered, elsewhere) = ids();

    assert!(!may_act(&latch, elsewhere, false));
    assert!(may_act(&latch, hovered, true));
}

#[test]
fn acting_without_consuming_leaves_the_gesture_free() {
    let latch = Latch::new();
    let (passive, rival) = ids();

    assert!(may_act(&latch, passive, true));
    assert!(!owns(&latch, passive));
    assert!(may_act(&latch, rival, true));
}

#[test]
fn an_idle_gesture_is_released() {
    let mut latch = Latch::new();
    let (owner, rival) = ids();

    claim(&mut latch, owner);
    // The hold as it stands once the idle gap and ten more milliseconds
    // have passed.
    let idle = IDLE_NANOS + 10_000_000;

    assert!(may_act_after(&latch, rival, true, idle));
}

#[test]
fn the_idle_bound_is_exclusive() {
    let mut latch = Latch::new();
    let (owner, rival) = ids();
    claim(&mut latch, owner);

    assert!(owns_after(&latch, owner, IDLE_NANOS - 1));
    assert!(!owns_after(&latch, owner, IDLE_NANOS));
    assert!(!may_act_after(&latch, rival, true, IDLE_NANOS - 1));
    assert!(may_act_after(&latch, owner, false, IDLE_NANOS - 1));
    assert!(!may_act_after(&latch, rival, false, IDLE_NANOS + 10_000_000));
}

#[test]
fn a_fresh_hold_is_live() {
    let mut latch = Latch::new();
    let (owner, rival) = ids();
    assert_eq!(live(&latch), None);
    claim(&mut latch, owner);
    assert_eq!(live(&latch), Some(owner));
    assert!(owns(&latch, owner));
    assert!(!owns(&latch, rival));
}

#[test]
fn a_claim_hands_the_gesture_over() {
    let mut latch = Latch::new();
    let (owner, rival) = ids();
    claim(&mut latch, owner);
    claim(&mut latch, rival);
    assert!(owns(&latch, rival));
    assert!(!may_act(&latch, owner, true));
    assert_eq!(latch.last_holder(), Some(rival));
}

#[test]
fn live_owner_expires_at_the_idle_bound() {
    let (owner, _) = ids();
    assert_eq!(live_owner(Some(owner), 0), Some(owner));
    assert_eq!(live_owner(Some(owner), IDLE_NANOS - 1), Some(owner));
    assert_eq!(live_owner(Some(owner), IDLE_NANOS), None);
    assert_eq!(live_owner(None, 0), None);
    assert_eq!(IDLE_NANOS, 150_000_000);
}

#[test]
fn a_renewed_claim_restarts_the_hold() {
    let mut latch = Latch::new();
    let (owner, rival) = ids();
    let long_ago = Instant::now().checked_sub(Duration::from_secs(1)).expect("an instant a second ago");

    claim_at(&mut latch, owner, long_ago);
    assert!(!owns(&latch, owner), "a hold taken a second ago has lapsed");
    assert!(may_act(&latch, rival, true));

    claim_at(&mut latch, owner, Instant::now());
    assert!(owns(&latch, owner), "the renewed hold counts from the new claim");
    assert!(!may_act(&latch, rival, true));
}

#[test]
fn a_hold_idle_for_longer_than_the_gesture_gap_is_released() {
    let mut latch = Latch::new();
    let (owner, rival) = ids();
    let idle = Instant::now().checked_sub(Duration::from_millis(160)).expect("an instant 160 ms ago");
    claim_at(&mut latch, owner, idle);
    assert!(may_act(&latch, rival, true), "the hovered widget takes a released gesture");
    assert!(!may_act(&latch, owner, false), "the old owner no longer holds it");
    assert!(!owns(&latch, owner));
}

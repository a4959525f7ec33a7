//! Ownership of an in-flight scroll gesture: platforms deliver a whole
//! gesture, momentum included, to the widget it started on.
use vstd::prelude::*;

use std::time::Instant;

use crate::clock::{nanos_since, now};

verus! {

/// Longest gap, in nanoseconds, between wheel events that still counts as
/// one gesture: above the finger-lift-to-momentum handoff, below a
/// deliberate re-aim.
pub const IDLE_NANOS: u128 = 150_000_000u128;

/// Identifies a scroll-handling widget.
#[derive(Debug, Clone, Copy, PartialEq, Eq, Structural)]
pub struct Id(u64);

impl Id {
    /// The raw value of the identifier.
    pub closed spec fn raw(self) -> u64 {
        self.0
    }

    /// The identifier with raw value `raw`; distinct raw values give
    /// distinct identifiers.
    pub fn from_raw(raw: u64) -> (id: Id)
        ensures
            id.raw() == raw,
    {
        Id(raw)
    }
}

/// Distinct raw values make distinct identifiers.
pub proof fn lemma_distinct_raw_ids(a: Id, b: Id)
    ensures
        a == b <==> a.raw() == b.raw(),
{
}

/// The hold on the gesture: the widget that last consumed a scroll, and
/// when it did.
pub struct Latch {
    owner: Option<(Id, Instant)>,
}

/// The owner whose hold is `age` nanoseconds old, if it is still live.
pub open spec fn live_at(holder: Option<Id>, age: u128) -> Option<Id> {
    match holder {
        Some(id) => if age < IDLE_NANOS {
            Some(id)
        } else {
            None
        },
        None => None,
    }
}

/// Whether `id` may act on a wheel event, the hold being `age` old.
pub open spec fn may_act_at(holder: Option<Id>, age: u128, id: Id, is_hovered: bool) -> bool {
    match live_at(holder, age) {
        Some(held) => held == id,
        None => is_hovered,
    }
}

impl Latch {
    /// The widget holding or last holding the gesture, if any.
    pub closed spec fn holder(&self) -> Option<Id> {
        match self.owner {
            Some((id, _)) => Some(id),
            None => None,
        }
    }

    /// When the hold was last taken or renewed, if anyone holds the latch.
    pub closed spec fn held_since(&self) -> Option<Instant> {
        match self.owner {
            Some((_, at)) => Some(at),
            None => None,
        }
    }

    /// A latch with the gesture free.
    pub fn new() -> (latch: Latch)
        ensures
            latch.holder() is None,
            latch.held_since() is None,
    {
        Latch { owner: None }
    }
}

/// The owner whose hold is `age` nanoseconds old, if it is still live.
pub fn live_owner(holder: Option<Id>, age: u128) -> (live: Option<Id>)
    ensures
        live == live_at(holder, age),
{
    match holder {
        Some(id) => if age < IDLE_NANOS {
            Some(id)
        } else {
            None
        },
        None => None,
    }
}

/// The holder of `latch` and the age of its hold; the age is zero when
/// no one holds the latch.
fn hold(latch: &Latch) -> (held: (Option<Id>, u128))
    ensures
        held.0 == latch.holder(),
        latch.holder() is None ==> held.1 == 0,
{
    match &latch.owner {
        Some((id, seen)) => (Some(*id), nanos_since(seen)),
        None => (None, 0),
    }
}

/// The owner of the gesture still in flight, if any: the holder, as long
/// as its hold is younger than [`IDLE_NANOS`].
pub fn live(latch: &Latch) -> (live: Option<Id>)
    ensures
        exists|age: u128| live == live_at(latch.holder(), age),
{
    let (holder, age) = hold(latch);
    live_owner(holder, age)
}

/// Whether `id` holds the gesture after `age` nanoseconds.
pub fn owns_after(latch: &Latch, id: Id, age: u128) -> (owns: bool)
    ensures
        owns == (live_at(latch.holder(), age) == Some(id)),
{
    match live_owner(latch.last_holder(), age) {
        Some(held) => held == id,
        None => false,
    }
}

/// Whether `id` may act on a wheel event when the hold is `age` old: it
/// holds the gesture, or no one does and the pointer is over `id`.
pub fn may_act_after(latch: &Latch, id: Id, is_hovered: bool, age: u128) -> (may: bool)
    ensures
        may == may_act_at(latch.holder(), age, id, is_hovered),
{
    match live_owner(latch.last_holder(), age) {
        Some(held) => held == id,
        None => is_hovered,
    }
}

impl Latch {
    /// The widget holding or last holding the gesture, if any.
    pub fn last_holder(&self) -> (holder: Option<Id>)
        ensures
            holder == self.holder(),
    {
        match &self.owner {
            Some((id, _)) => Some(*id),
            None => None,
        }
    }
}

/// Whether `id` holds the gesture, and so must keep scrolling wherever the
/// pointer has since travelled.
pub fn owns(latch: &Latch, id: Id) -> (owns: bool)
    ensures
        exists|age: u128| owns == (live_at(latch.holder(), age) == Some(id)),
{
    let (_, age) = hold(latch);
    owns_after(latch, id, age)
}

/// Whether `id` may act on a wheel event: it holds the gesture, or no one
/// does and the pointer is over `id`.
pub fn may_act(latch: &Latch, id: Id, is_hovered: bool) -> (may: bool)
    ensures
        exists|age: u128| may == may_act_at(latch.holder(), age, id, is_hovered),
        latch.holder() is None ==> may == is_hovered,
{
    let (_, age) = hold(latch);
    may_act_after(latch, id, is_hovered, age)
}

/// Takes or renews `id`'s hold as of the instant `at`, whoever held the
/// latch before: a renewed hold is measured from `at`, not from the claim
/// it renews.
pub fn claim_at(latch: &mut Latch, id: Id, at: Instant)
    ensures
        final(latch).holder() == Some(id),
        final(latch).held_since() == Some(at),
{
    latch.owner = Some((id, at));
}

/// Takes or renews `id`'s hold, only ever after consuming a scroll, so that a
/// widget with nothing left to scroll still chains to its parent. The hold
/// is stamped with the current instant of the monotonic clock.
pub fn claim(latch: &mut Latch, id: Id)
    ensures
        final(latch).holder() == Some(id),
        final(latch).held_since() is Some,
{
    claim_at(latch, id, now());
}

/// A live hold keeps the gesture with its owner wherever the pointer is:
/// the owner may act, and every other widget may not, hovered or not.
pub proof fn law_owner_keeps_the_gesture(owner: Id, rival: Id, age: u128, is_hovered: bool)
    requires
        owner != rival,
        age < IDLE_NANOS,
    ensures
        may_act_at(Some(owner), age, owner, is_hovered),
        !may_act_at(Some(owner), age, rival, is_hovered),
        live_at(Some(owner), age) == Some(owner),
{
}

/// A free gesture goes to whatever is hovered.
pub proof fn law_free_gesture_goes_to_the_hovered(holder: Option<Id>, age: u128, id: Id, is_hovered: bool)
    requires
        live_at(holder, age) is None,
    ensures
        may_act_at(holder, age, id, is_hovered) == is_hovered,
{
}

/// A hold left idle for [`IDLE_NANOS`] or longer releases the gesture.
pub proof fn law_idle_gesture_is_released(holder: Option<Id>, age: u128, id: Id, is_hovered: bool)
    requires
        age >= IDLE_NANOS,
    ensures
        live_at(holder, age) is None,
        may_act_at(holder, age, id, is_hovered) == is_hovered,
{
}

/// Whoever owns the gesture may act on it.
pub proof fn law_owner_may_act(holder: Option<Id>, age: u128, id: Id, is_hovered: bool)
    requires
        live_at(holder, age) == Some(id),
    ensures
        may_act_at(holder, age, id, is_hovered),
{
}

} // verus!

//! The hierarchical timing wheel of one domain.
//!
//! The wheel itself is hierarchical_hash_wheel_timer's cancellable four-level
//! wheel, keyed by handle. Its state is modelled as the map from each pending
//! handle to the number of ticks left until it is due.
use hierarchical_hash_wheel_timer::wheels::cancellable::QuadWheelWithOverflow;
use hierarchical_hash_wheel_timer::IdOnlyTimerEntry;
use std::time::Duration;
use vstd::prelude::*;

verus! {

/// A four-level wheel whose entries are bare handles. It is modelled by
/// `wheel_due`, which the operations below keep.
#[verifier::external_body]
pub struct Wheel {
    inner: QuadWheelWithOverflow<IdOnlyTimerEntry<u128>>,
}

/// Delays the wheel takes in one insertion, in units: below 2^31. Longer waits
/// go in as several segments, one after the other.
///
/// The wheel places an entry by the highest byte in which its due time and the
/// current time (both taken modulo 2^32) differ. Below this bound that byte is
/// the right level wherever the wheel stands in its cycle, so the entry comes
/// back after exactly `delay` ticks. Longer delays either wrap into too low a
/// level or go to the overflow list, whose re-insertion subtracts a `Duration`
/// that can underflow.
pub const WHEEL_SPAN: u64 = 2147483648;

/// The pending handles of a wheel, each with the ticks left until it is due.
pub uninterp spec fn wheel_due(w: Wheel) -> Map<u128, nat>;

/// The pending map after one tick: what was one tick away is gone, the rest is
/// one tick closer.
pub open spec fn after_tick(m: Map<u128, nat>) -> Map<u128, nat> {
    Map::new(|k: u128| m.contains_key(k) && m[k] > 1, |k: u128| (m[k] - 1) as nat)
}

/// Relies on QuadWheelWithOverflow::new: a wheel with nothing pending.
#[verifier::external_body]
pub(crate) fn wheel_new() -> (r: Wheel)
    ensures
        wheel_due(r) =~= Map::empty(),
{
    Wheel { inner: QuadWheelWithOverflow::new() }
}

/// Relies on QuadWheelWithOverflow::insert: an entry with a delay of at least
/// one unit and below `WHEEL_SPAN` is placed in the four byte-sized wheels (not
/// the overflow list) and returned by the tick that ends that many units later.
#[verifier::external_body]
pub(crate) fn wheel_insert(w: &mut Wheel, id: u128, delay: u64)
    requires
        1 <= delay < WHEEL_SPAN,
        !wheel_due(*old(w)).contains_key(id),
    ensures
        wheel_due(*final(w)) == wheel_due(*old(w)).insert(id, delay as nat),
{
    let _ = w.inner.insert(IdOnlyTimerEntry::new(id, Duration::from_millis(delay)));
}

/// Relies on QuadWheelWithOverflow::cancel: the handle is dropped from the
/// lookup table, so it is never returned by a tick.
#[verifier::external_body]
pub(crate) fn wheel_cancel(w: &mut Wheel, id: u128)
    ensures
        wheel_due(*final(w)) == wheel_due(*old(w)).remove(id),
{
    let _ = w.inner.cancel(&id);
}

/// Relies on QuadWheelWithOverflow::tick: one unit passes, and every pending
/// entry that is due now is returned, once, and leaves the wheel. Every entry
/// went in with a delay below `WHEEL_SPAN`, so none sits in the overflow list.
#[verifier::external_body]
pub(crate) fn wheel_tick(w: &mut Wheel) -> (r: Vec<u128>)
    requires
        forall|k: u128| #[trigger] wheel_due(*old(w)).contains_key(k) ==> wheel_due(*old(w))[k] < WHEEL_SPAN,
    ensures
        r@.no_duplicates(),
        forall|k: u128|
            r@.contains(k) <==> (wheel_due(*old(w)).contains_key(k) && wheel_due(*old(w))[k] <= 1),
        wheel_due(*final(w)) == after_tick(wheel_due(*old(w))),
{
    w.inner.tick().into_iter().map(|e| e.id).collect()
}

} // verus!

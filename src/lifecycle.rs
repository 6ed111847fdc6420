//! What the operations of a domain guarantee over a timer's whole life: when
//! it fires, how often, and that its action is released once.
use crate::domain::{continues, due_now, due_ticks, settled, ticked, Firing, Outcome, TimerDomain, TimerEntry};
use crate::handles::{domain_of, text_of, TimerType, TIMER_CANCEL};
use crate::scheduler::{cancelled, other, scheduled_as, Scheduler};
use crate::wheel::after_tick;
use vstd::prelude::*;

verus! {

/// The ticks left of each pending handle after `k` ticks with nothing
/// scheduled or cancelled in between.
pub open spec fn after_ticks(due: Map<u128, nat>, k: nat) -> Map<u128, nat>
    decreases k,
{
    if k == 0 {
        due
    } else {
        after_tick(after_ticks(due, (k - 1) as nat))
    }
}

/// A handle that is `n` ticks away is still pending, `n - k` ticks away,
/// after `k < n` ticks.
proof fn lemma_waits(due: Map<u128, nat>, id: u128, k: nat)
    requires
        due.contains_key(id),
        k < due[id],
    ensures
        after_ticks(due, k).contains_key(id),
        after_ticks(due, k)[id] == due[id] - k,
    decreases k,
{
    if k > 0 {
        lemma_waits(due, id, (k - 1) as nat);
    }
}

/// A pending handle `n` ticks away is handed out by the `n`-th tick that
/// follows, and by no earlier one.
pub proof fn lemma_fires_on_due_tick(due: Map<u128, nat>, id: u128, t: nat)
    requires
        due.contains_key(id),
        1 <= t <= due[id],
    ensures
        due_now(after_ticks(due, (t - 1) as nat)).contains(id) <==> t == due[id],
{
    lemma_waits(due, id, (t - 1) as nat);
}

/// Once its due tick has passed, a handle is gone from the wheel.
proof fn lemma_gone_after_due(due: Map<u128, nat>, id: u128, k: nat)
    requires
        due.contains_key(id),
        due[id] >= 1,
        k >= due[id],
    ensures
        !after_ticks(due, k).contains_key(id),
    decreases k,
{
    if k == due[id] {
        lemma_waits(due, id, (k - 1) as nat);
    } else {
        lemma_gone_after_due(due, id, (k - 1) as nat);
    }
}

/// A handle that is not pending is never handed out by later ticks.
pub proof fn lemma_absent_never_fires(due: Map<u128, nat>, id: u128, k: nat)
    requires
        !due.contains_key(id),
    ensures
        !after_ticks(due, k).contains_key(id),
        !due_now(after_ticks(due, k)).contains(id),
    decreases k,
{
    if k > 0 {
        lemma_absent_never_fires(due, id, (k - 1) as nat);
    }
}

/// A one-shot timer scheduled with delay `d` (due in `due_ticks(d)` ticks) is
/// handed out by exactly one of the ticks that follow, however many there are:
/// the one at which at least `d` units have passed. After it runs it is never
/// rescheduled, whatever its action did.
pub proof fn lemma_one_shot_fires_once(due: Map<u128, nat>, id: u128, d: u64, resource: u64, outcome: Outcome)
    requires
        due.contains_key(id),
        due[id] == due_ticks(d),
    ensures
        due_ticks(d) >= d,
        forall|t: nat| 1 <= t ==> (#[trigger] due_now(after_ticks(due, (t - 1) as nat)).contains(id) <==> t == due_ticks(d)),
        !continues((TimerEntry { period: None, resource }), outcome),
{
    assert forall|t: nat| 1 <= t implies (#[trigger] due_now(after_ticks(due, (t - 1) as nat)).contains(id) <==> t == due_ticks(d)) by {
        if t <= due[id] {
            lemma_fires_on_due_tick(due, id, t);
        } else {
            lemma_gone_after_due(due, id, (t - 1) as nat);
        }
    }
}

/// A periodic timer with period `p > 0` that runs and asks to continue is
/// handed out again by exactly the `p`-th tick after, by no tick before it
/// (nor, without another run, after); a run that returns the cancel text, or
/// fails, ends it.
pub proof fn lemma_periodic_spacing(a: TimerDomain, b: TimerDomain, id: u128, outcome: Outcome, released: Option<u64>)
    requires
        a.in_flight().contains_key(id),
        a.in_flight()[id].period is Some,
        a.in_flight()[id].period->0 > 0,
        settled(a, b, id, outcome, released),
    ensures
        continues(a.in_flight()[id], outcome) ==> {
            &&& b.due().contains_key(id)
            &&& b.due()[id] == a.in_flight()[id].period->0
            &&& forall|t: nat| 1 <= t ==> (#[trigger] due_now(after_ticks(b.due(), (t - 1) as nat)).contains(id) <==> t == a.in_flight()[id].period->0)
        },
        outcome is Failed ==> !continues(a.in_flight()[id], outcome),
        (outcome matches Outcome::Returned(ret) && text_of(ret) == Some(TIMER_CANCEL@)) ==> !continues(a.in_flight()[id], outcome),
{
    if continues(a.in_flight()[id], outcome) {
        assert forall|t: nat| 1 <= t implies (#[trigger] due_now(after_ticks(b.due(), (t - 1) as nat)).contains(id) <==> t == a.in_flight()[id].period->0) by {
            if t <= b.due()[id] {
                lemma_fires_on_due_tick(b.due(), id, t);
            } else {
                lemma_gone_after_due(b.due(), id, (t - 1) as nat);
            }
        }
    }
}

/// A timer cancelled while pending is gone from its domain's wheel, so no later
/// tick hands it out.
pub proof fn lemma_cancelled_never_fires(a: Scheduler, b: Scheduler, id: u128, r: Option<u64>, k: nat)
    requires
        cancelled(a, b, id, r),
        a.timers(domain_of(id)).pending().contains_key(id),
    ensures
        r is Some,
        !due_now(after_ticks(b.timers(domain_of(id)).due(), k)).contains(id),
{
    lemma_absent_never_fires(b.timers(domain_of(id)).due(), id, k);
}

/// Settling a fired timer releases its action exactly when the timer ends, and
/// then the handle is no longer live, so no later settle or cancel can release
/// it a second time.
pub proof fn lemma_settle_releases_once(a: TimerDomain, b: TimerDomain, id: u128, outcome: Outcome, released: Option<u64>)
    requires
        a.in_flight().contains_key(id),
        settled(a, b, id, outcome, released),
    ensures
        released is Some <==> !continues(a.in_flight()[id], outcome),
        released is Some ==> !b.holds(id) && !b.pending().contains_key(id) && !b.in_flight().contains_key(id),
        released is None ==> b.live() == a.live(),
{
    if released is Some {
        assert(!b.live().contains_key(id));
    }
}

/// Cancelling releases a pending timer's action once: after it, the handle is
/// no longer live in its domain, so a second cancel returns nothing.
pub proof fn lemma_cancel_releases_once(a: Scheduler, b: Scheduler, id: u128, r: Option<u64>)
    requires
        cancelled(a, b, id, r),
        !a.timers(domain_of(id)).in_flight().contains_key(id),
    ensures
        r is Some <==> a.timers(domain_of(id)).live().contains_key(id),
        !b.timers(domain_of(id)).holds(id),
        !b.timers(domain_of(id)).pending().contains_key(id),
{
}

/// Cancelling the handle of a timer that was just scheduled, in either domain,
/// reaches that domain, hands back that timer's own resource token, and leaves
/// both domains holding exactly the timers they held before it was scheduled.
pub proof fn lemma_schedule_then_cancel(
    a: Scheduler,
    b: Scheduler,
    c: Scheduler,
    t: TimerType,
    id: u128,
    delay: u64,
    entry: TimerEntry,
    r: Option<u64>,
)
    requires
        scheduled_as(a, b, t, id, delay, entry),
        cancelled(b, c, id, r),
    ensures
        r == Some(entry.resource),
        c.timers(t).live() == a.timers(t).live(),
        c.timers(t).pending() == a.timers(t).pending(),
        c.timers(other(t)) == a.timers(other(t)),
{
    assert(b.timers(t).pending().contains_key(id));
    assert(c.timers(t).live() =~= a.timers(t).live());
    assert(c.timers(t).pending() =~= a.timers(t).pending());
}

/// Of two timers handed out by the same tick, the one scheduled first (with
/// the smaller schedule number) is handed out first.
pub proof fn lemma_first_scheduled_first(a: TimerDomain, b: TimerDomain, fired: Seq<Firing>, x: int, y: int)
    requires
        ticked(a, b, fired),
        0 <= x < fired.len(),
        0 <= y < fired.len(),
        a.scheduled_at()[fired[x].id] < a.scheduled_at()[fired[y].id],
    ensures
        x < y,
{
    if y <= x {
        assert(fired[y].seq <= fired[x].seq);
    }
}

} // verus!

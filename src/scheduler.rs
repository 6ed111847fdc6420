//! The two domains side by side, and the operations a host calls: schedule in
//! either domain, cancel by handle text, advance either clock, settle a firing.
use crate::domain::{
    due_ticks, schedule_oneshot_timer, schedule_periodic_timer, settled, ticked, Firing, Outcome, TimerDomain,
    TimerEntry,
};
use crate::handles::{
    domain_of, handle_string, handle_text, lemma_probes_distinct, minted, parse_handle, parsed_uuid, probe,
    random_bits, tag_of, tagged_id, TimerType, TimerTypable,
};
use vstd::prelude::*;

verus! {

/// Why a timer was not scheduled.
#[derive(Clone, Copy, Debug, PartialEq, Eq, Structural)]
pub enum ScheduleError {
    /// The owner or the proc path of the action is null.
    InvalidAction,
}

/// The domain that is not `t`.
pub open spec fn other(t: TimerType) -> TimerType {
    match t {
        TimerType::RealTime => TimerType::ByondTick,
        TimerType::ByondTick => TimerType::RealTime,
    }
}

/// The views of a domain agree: same domain, same pending and in-flight timers,
/// same ticks left.
pub open spec fn same_timers(a: TimerDomain, b: TimerDomain) -> bool {
    &&& a.domain() == b.domain()
    &&& a.pending() == b.pending()
    &&& a.due() == b.due()
    &&& a.in_flight() == b.in_flight()
}

/// `b` is `a` with `entry` scheduled in domain `t` under the fresh handle `id`,
/// due `delay` units from now.
pub open spec fn scheduled_as(a: Scheduler, b: Scheduler, t: TimerType, id: u128, delay: u64, entry: TimerEntry) -> bool {
    &&& tag_of(id) == t.tag()
    &&& domain_of(id) == t
    &&& !a.timers(t).holds(id)
    &&& b.timers(t).domain() == t
    &&& b.timers(t).pending() == a.timers(t).pending().insert(id, entry)
    &&& b.timers(t).due() == a.timers(t).due().insert(id, due_ticks(delay))
    &&& b.timers(t).in_flight() == a.timers(t).in_flight()
    &&& b.timers(t).live() == a.timers(t).live().insert(id, entry)
    &&& b.timers(other(t)) == a.timers(other(t))
}

/// Whether `id` is the first of the candidates drawn from `bits` for `t` that
/// `timers` does not hold.
pub open spec fn first_free_of(timers: TimerDomain, t: TimerType, bits: u128, id: u128) -> bool {
    exists|j: u128|
        #![trigger probe(t, bits, j)]
        {
            &&& j < 0x0100_0000_0000_0000_0000_0000_0000_0000u128
            &&& id == probe(t, bits, j)
            &&& !timers.holds(id)
            &&& forall|k: u128| k < j ==> timers.holds(#[trigger] probe(t, bits, k))
        }
}

/// What scheduling `entry` in domain `t` from the drawn `bits` does, from `a`
/// to `b` with result `r`: a null owner or proc path is refused and nothing
/// changes; otherwise the timer is scheduled under the first free handle drawn
/// from `bits`, whose hyphenated text is returned.
pub open spec fn scheduled_from(
    a: Scheduler,
    b: Scheduler,
    r: Result<String, ScheduleError>,
    t: TimerType,
    delay: u64,
    entry: TimerEntry,
    owner_is_null: bool,
    proc_is_null: bool,
    bits: u128,
) -> bool {
    if owner_is_null || proc_is_null {
        r == Err::<String, ScheduleError>(ScheduleError::InvalidAction) && b == a
    } else {
        &&& r is Ok
        &&& exists|id: u128|
            #![trigger scheduled_as(a, b, t, id, delay, entry)]
            {
                &&& r->Ok_0@ == handle_text(id)
                &&& first_free_of(a.timers(t), t, bits, id)
                &&& scheduled_as(a, b, t, id, delay, entry)
            }
    }
}

/// What scheduling does whatever random bits were drawn.
pub open spec fn schedule_result(
    a: Scheduler,
    b: Scheduler,
    r: Result<String, ScheduleError>,
    t: TimerType,
    delay: u64,
    entry: TimerEntry,
    owner_is_null: bool,
    proc_is_null: bool,
) -> bool {
    exists|bits: u128| #[trigger] scheduled_from(a, b, r, t, delay, entry, owner_is_null, proc_is_null, bits)
}

/// No finite set of at most `n` handles holds all of the first `n + 1`
/// candidates drawn from the same bits.
proof fn lemma_probe_pigeonhole(utype: TimerType, bits: u128, n: u128, s: Set<u128>)
    requires
        s.finite(),
        s.len() <= n,
        n < 0x0100_0000_0000_0000_0000_0000_0000_0000u128,
    ensures
        exists|k: u128| k <= n && !s.contains(#[trigger] probe(utype, bits, k)),
{
    if forall|k: u128| k <= n ==> s.contains(#[trigger] probe(utype, bits, k)) {
        let cands = Seq::new((n + 1) as nat, |k: int| probe(utype, bits, k as u128));
        assert forall|x: int, y: int| 0 <= x < cands.len() && 0 <= y < cands.len() && x != y implies cands[x] != cands[y] by {
            lemma_probes_distinct(utype, bits, x as u128, y as u128);
        }
        assert(cands.no_duplicates());
        cands.unique_seq_to_set();
        assert forall|h: u128| cands.to_set().contains(h) implies s.contains(h) by {
            let k = choose|k: int| 0 <= k < cands.len() && cands[k] == h;
            assert(s.contains(probe(utype, bits, k as u128)));
        }
        vstd::set_lib::lemma_len_subset(cands.to_set(), s);
    }
}

/// The first candidate handle drawn from `bits` that `timers` does not hold.
/// There are more candidates than live timers, so one is always free.
pub fn first_free(timers: &TimerDomain, utype: TimerType, bits: u128) -> (r: u128)
    requires
        timers.wf(),
    ensures
        first_free_of(*timers, utype, bits, r),
        !timers.holds(r),
        exists|b: u128| r == minted(utype, b),
        tag_of(r) == utype.tag(),
        domain_of(r) == utype,
{
    let n = timers.live_count();
    let mut j: u128 = 0;
    while j < n
        invariant
            j <= n,
            n < 0x0100_0000_0000_0000_0000_0000_0000_0000u128,
            timers.wf(),
            timers.live().dom().finite(),
            timers.live().dom().len() <= n,
            forall|k: u128| k < j ==> timers.holds(#[trigger] probe(utype, bits, k)),
        decreases n - j,
    {
        let id = tagged_id(utype, bits ^ j);
        if !timers.contains(id) {
            assert(id == minted(utype, bits ^ j));
            assert(id == probe(utype, bits, j));
            return id;
        }
        j = j + 1;
    }
    let id = tagged_id(utype, bits ^ n);
    assert(id == minted(utype, bits ^ n));
    proof {
        lemma_probe_pigeonhole(utype, bits, n, timers.live().dom());
        let k = choose|k: u128| k <= n && !timers.live().dom().contains(#[trigger] probe(utype, bits, k));
        if k < n {
            assert(timers.holds(probe(utype, bits, k)));
        }
        assert(id == probe(utype, bits, n));
    }
    id
}

/// What cancelling handle `id` does, from `a` to `b` with result `r`: the
/// handle's own domain drops the timer if it is pending there and hands back
/// its resource token; otherwise nothing changes. The other domain is untouched.
pub open spec fn cancelled(a: Scheduler, b: Scheduler, id: u128, r: Option<u64>) -> bool {
    let t = domain_of(id);
    &&& b.timers(other(t)) == a.timers(other(t))
    &&& b.timers(t).in_flight() == a.timers(t).in_flight()
    &&& b.timers(t).domain() == a.timers(t).domain()
    &&& if a.timers(t).pending().contains_key(id) {
        &&& r == Some(a.timers(t).pending()[id].resource)
        &&& b.timers(t).live() == a.timers(t).live().remove(id)
        &&& b.timers(t).pending() == a.timers(t).pending().remove(id)
        &&& b.timers(t).due() == a.timers(t).due().remove(id)
    } else {
        &&& r is None
        &&& b.timers(t).live() == a.timers(t).live()
        &&& same_timers(b.timers(t), a.timers(t))
    }
}

/// A real-time domain (units of milliseconds) and an external-tick domain
/// (units of host ticks).
pub struct Scheduler {
    realtime: TimerDomain,
    byond: TimerDomain,
}

impl Scheduler {
    /// The timers of one domain.
    pub closed spec fn timers(&self, t: TimerType) -> TimerDomain {
        match t {
            TimerType::RealTime => self.realtime,
            TimerType::ByondTick => self.byond,
        }
    }

    /// Both domains are well formed, and each holds only handles tagged for it.
    pub closed spec fn wf(&self) -> bool {
        &&& self.realtime.wf()
        &&& self.byond.wf()
        &&& self.realtime.domain() == TimerType::RealTime
        &&& self.byond.domain() == TimerType::ByondTick
        &&& forall|id: u128| #[trigger] self.realtime.live().contains_key(id) ==> domain_of(id) == TimerType::RealTime
        &&& forall|id: u128| #[trigger] self.byond.live().contains_key(id) ==> domain_of(id) == TimerType::ByondTick
    }

    /// Both domains, with nothing scheduled.
    pub fn new() -> (r: Scheduler)
        ensures
            r.wf(),
            r.timers(TimerType::RealTime).live().is_empty(),
            r.timers(TimerType::ByondTick).live().is_empty(),
            r.timers(TimerType::RealTime).pending().is_empty(),
            r.timers(TimerType::ByondTick).pending().is_empty(),
    {
        let r = Scheduler { realtime: TimerDomain::new(TimerType::RealTime), byond: TimerDomain::new(TimerType::ByondTick) };
        assert(r.timers(TimerType::RealTime).live() =~= Map::empty());
        assert(r.timers(TimerType::ByondTick).live() =~= Map::empty());
        r
    }

    /// Schedules `entry` in domain `utype` under the first free handle drawn
    /// from `bits`, unless the owner or the proc path is null.
    pub fn schedule_with_bits(
        &mut self,
        utype: TimerType,
        delay: u64,
        entry: TimerEntry,
        owner_is_null: bool,
        proc_is_null: bool,
        bits: u128,
    ) -> (r: Result<String, ScheduleError>)
        requires
            old(self).wf(),
        ensures
            final(self).wf(),
            scheduled_from(*old(self), *final(self), r, utype, delay, entry, owner_is_null, proc_is_null, bits),
    {
        if owner_is_null || proc_is_null {
            return Err(ScheduleError::InvalidAction);
        }
        let id = match utype {
            TimerType::RealTime => first_free(&self.realtime, utype, bits),
            TimerType::ByondTick => first_free(&self.byond, utype, bits),
        };
        assert(entry.period is None ==> entry == (TimerEntry { period: None, resource: entry.resource }));
        assert(entry.period is Some ==> entry == (TimerEntry { period: Some(entry.period->0), resource: entry.resource }));
        match utype {
            TimerType::RealTime => match entry.period {
                None => schedule_oneshot_timer(&mut self.realtime, id, delay, entry.resource),
                Some(period) => schedule_periodic_timer(&mut self.realtime, id, delay, period, entry.resource),
            },
            TimerType::ByondTick => match entry.period {
                None => schedule_oneshot_timer(&mut self.byond, id, delay, entry.resource),
                Some(period) => schedule_periodic_timer(&mut self.byond, id, delay, period, entry.resource),
            },
        }
        let text = handle_string(id);
        assert(scheduled_as(*old(self), *self, utype, id, delay, entry));
        Ok(text)
    }

    fn schedule_in(
        &mut self,
        utype: TimerType,
        delay: u64,
        entry: TimerEntry,
        owner_is_null: bool,
        proc_is_null: bool,
    ) -> (r: Result<String, ScheduleError>)
        requires
            old(self).wf(),
        ensures
            final(self).wf(),
            schedule_result(*old(self), *final(self), r, utype, delay, entry, owner_is_null, proc_is_null),
    {
        let bits = random_bits();
        let r = self.schedule_with_bits(utype, delay, entry, owner_is_null, proc_is_null, bits);
        assert(scheduled_from(*old(self), *self, r, utype, delay, entry, owner_is_null, proc_is_null, bits));
        r
    }

    /// Schedules a one-shot real-time timer, due `delay` milliseconds from now.
    pub fn schedule_once(&mut self, delay: u64, resource: u64, owner_is_null: bool, proc_is_null: bool) -> (r: Result<String, ScheduleError>)
        requires
            old(self).wf(),
        ensures
            final(self).wf(),
            schedule_result(*old(self), *final(self), r, TimerType::RealTime, delay, (TimerEntry { period: None, resource }), owner_is_null, proc_is_null),
    {
        self.schedule_in(TimerType::RealTime, delay, TimerEntry { period: None, resource }, owner_is_null, proc_is_null)
    }

    /// Schedules a periodic real-time timer: first due `delay` milliseconds from
    /// now, then every `period` milliseconds.
    pub fn schedule_periodic(&mut self, delay: u64, period: u64, resource: u64, owner_is_null: bool, proc_is_null: bool) -> (r: Result<String, ScheduleError>)
        requires
            old(self).wf(),
        ensures
            final(self).wf(),
            schedule_result(*old(self), *final(self), r, TimerType::RealTime, delay, (TimerEntry { period: Some(period), resource }), owner_is_null, proc_is_null),
    {
        self.schedule_in(TimerType::RealTime, delay, TimerEntry { period: Some(period), resource }, owner_is_null, proc_is_null)
    }

    /// Schedules a one-shot timer in host ticks, due `delay` ticks from now.
    pub fn schedule_once_tick(&mut self, delay: u64, resource: u64, owner_is_null: bool, proc_is_null: bool) -> (r: Result<String, ScheduleError>)
        requires
            old(self).wf(),
        ensures
            final(self).wf(),
            schedule_result(*old(self), *final(self), r, TimerType::ByondTick, delay, (TimerEntry { period: None, resource }), owner_is_null, proc_is_null),
    {
        self.schedule_in(TimerType::ByondTick, delay, TimerEntry { period: None, resource }, owner_is_null, proc_is_null)
    }

    /// Schedules a periodic timer in host ticks: first due `delay` ticks from
    /// now, then every `period` ticks.
    pub fn schedule_periodic_tick(&mut self, delay: u64, period: u64, resource: u64, owner_is_null: bool, proc_is_null: bool) -> (r: Result<String, ScheduleError>)
        requires
            old(self).wf(),
        ensures
            final(self).wf(),
            schedule_result(*old(self), *final(self), r, TimerType::ByondTick, delay, (TimerEntry { period: Some(period), resource }), owner_is_null, proc_is_null),
    {
        self.schedule_in(TimerType::ByondTick, delay, TimerEntry { period: Some(period), resource }, owner_is_null, proc_is_null)
    }

    /// Cancels the timer with handle `id` in the domain its tag names. Returns
    /// the resource token to release, or `None` where the handle is not pending.
    pub fn cancel_handle(&mut self, id: u128) -> (r: Option<u64>)
        requires
            old(self).wf(),
        ensures
            final(self).wf(),
            cancelled(*old(self), *final(self), id, r),
    {
        let r = match id.timertype() {
            TimerType::RealTime => self.realtime.cancel_timer(id),
            TimerType::ByondTick => self.byond.cancel_timer(id),
        };
        r
    }

    /// Cancels a timer by the text of its handle. Text that is no handle, and a
    /// handle that is not pending, are ignored: nothing changes and `None` comes
    /// back. Otherwise the resource token of the cancelled action is returned.
    pub fn cancel_timer(&mut self, strid: &str) -> (r: Option<u64>)
        requires
            old(self).wf(),
        ensures
            final(self).wf(),
            (match parsed_uuid(strid@) {
                Some(id) => cancelled(*old(self), *final(self), id, r),
                None => r is None && *final(self) == *old(self),
            }),
            forall|id: u128| #[trigger] handle_text(id) == strid@ ==> cancelled(*old(self), *final(self), id, r),
    {
        match parse_handle(strid) {
            Some(id) => self.cancel_handle(id),
            None => None,
        }
    }

    /// Advances the external-tick domain by one tick and hands out the timers
    /// that came due, to be invoked and then settled.
    pub fn tick_byondtick(&mut self) -> (r: Vec<Firing>)
        requires
            old(self).wf(),
        ensures
            final(self).wf(),
            ticked(old(self).timers(TimerType::ByondTick), final(self).timers(TimerType::ByondTick), r@),
            final(self).timers(TimerType::RealTime) == old(self).timers(TimerType::RealTime),
    {
        self.byond.tick()
    }

    /// Advances the real-time domain by one millisecond and hands out the
    /// timers that came due, to be invoked and then settled.
    pub fn tick_realtime(&mut self) -> (r: Vec<Firing>)
        requires
            old(self).wf(),
        ensures
            final(self).wf(),
            ticked(old(self).timers(TimerType::RealTime), final(self).timers(TimerType::RealTime), r@),
            final(self).timers(TimerType::ByondTick) == old(self).timers(TimerType::ByondTick),
    {
        self.realtime.tick()
    }

    /// Whether the timer with handle `id` has fired and waits to be settled.
    pub fn is_in_flight(&self, id: u128) -> (r: bool)
        requires
            self.wf(),
        ensures
            r == self.timers(domain_of(id)).in_flight().contains_key(id),
    {
        match id.timertype() {
            TimerType::RealTime => self.realtime.is_in_flight(id),
            TimerType::ByondTick => self.byond.is_in_flight(id),
        }
    }

    /// Settles a fired timer of either domain after its action ran: a periodic
    /// timer that is to continue goes back into its wheel, anything else is
    /// done and its resource token is returned, to be released.
    pub fn settle(&mut self, id: u128, outcome: Outcome) -> (r: Option<u64>)
        requires
            old(self).wf(),
            old(self).timers(domain_of(id)).in_flight().contains_key(id),
        ensures
            final(self).wf(),
            settled(old(self).timers(domain_of(id)), final(self).timers(domain_of(id)), id, outcome, r),
            final(self).timers(other(domain_of(id))) == old(self).timers(other(domain_of(id))),
    {
        match id.timertype() {
            TimerType::RealTime => self.realtime.settle(id, outcome),
            TimerType::ByondTick => self.byond.settle(id, outcome),
        }
    }
}

} // verus!

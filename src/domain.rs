//! One time domain: its wheel, the actions of its pending timers, and the
//! dispatcher that decides what happens to a timer after it fires.
use crate::handles::{should_reschedule, signal_of, text_of, TimerReturn, TimerType};
use crate::wheel::{after_tick, wheel_cancel, wheel_due, wheel_insert, wheel_new, wheel_tick, Wheel, WHEEL_SPAN};
use std::collections::HashMap;
use vstd::prelude::*;

verus! {

broadcast use vstd::std_specs::hash::group_hash_axioms;

/// What a timer runs and how it recurs.
#[derive(Clone, Copy, Debug, PartialEq, Eq)]
pub struct TimerEntry {
    /// `None` for a one-shot timer, the period in units for a periodic one.
    pub period: Option<u64>,
    /// The caller's token for the captured action and the resources it holds.
    pub resource: u64,
}

/// A timer that has come due: its handle, what it runs, and its place in the
/// order in which this domain's timers were scheduled.
#[derive(Clone, Copy, Debug, PartialEq, Eq)]
pub struct Firing {
    pub id: u128,
    pub entry: TimerEntry,
    pub seq: u64,
}

/// How one invocation of a timer's action ended.
#[derive(Debug)]
pub enum Outcome {
    /// The action ran and returned this text, or none.
    Returned(Option<String>),
    /// The action could not be invoked, or failed.
    Failed,
}

/// Ticks until a timer scheduled with `delay` is due: a zero delay waits for
/// the next tick, never fires inside the call that schedules it.
pub open spec fn due_ticks(delay: u64) -> nat {
    if delay == 0 {
        1
    } else {
        delay as nat
    }
}

/// The part of `ticks` that goes into the wheel at once: all of it, or just
/// under `WHEEL_SPAN` for longer waits, whose rest waits for later rounds.
pub open spec fn segment(ticks: u64) -> u64 {
    if ticks < WHEEL_SPAN {
        ticks
    } else {
        (WHEEL_SPAN - 1) as u64
    }
}

/// Whether a timer runs again after an invocation that ended with `outcome`:
/// only a periodic timer whose action returned something other than the cancel
/// text does.
pub open spec fn continues(entry: TimerEntry, outcome: Outcome) -> bool {
    &&& entry.period is Some
    &&& match outcome {
        Outcome::Returned(ret) => signal_of(text_of(ret)) == TimerReturn::Reschedule,
        Outcome::Failed => false,
    }
}

/// The handles of a sequence of firings, in order.
pub open spec fn ids_of(fs: Seq<Firing>) -> Seq<u128> {
    fs.map_values(|f: Firing| f.id)
}

/// The handles that a tick of a wheel in state `due` hands out.
pub open spec fn due_now(due: Map<u128, nat>) -> Set<u128> {
    due.dom().filter(|k: u128| due[k] <= 1)
}

/// The next schedule number after `n`; it stays at the largest value.
pub open spec fn bump(n: u64) -> u64 {
    if n < u64::MAX {
        (n + 1) as u64
    } else {
        n
    }
}

/// Firings in the order they were scheduled: first scheduled, first handed out.
pub open spec fn in_schedule_order(fired: Seq<Firing>) -> bool {
    forall|i: int, j: int| 0 <= i < j < fired.len() ==> #[trigger] fired[i].seq <= #[trigger] fired[j].seq
}

/// What one tick does to a domain `a`, leaving `b` and handing out `fired`,
/// first-scheduled first.
pub open spec fn ticked(a: TimerDomain, b: TimerDomain, fired: Seq<Firing>) -> bool {
    &&& b.domain() == a.domain()
    &&& ids_of(fired).no_duplicates()
    &&& ids_of(fired).to_set() == due_now(a.due())
    &&& forall|i: int| 0 <= i < fired.len() ==> #[trigger] fired[i].entry == a.pending()[fired[i].id]
    &&& forall|i: int| 0 <= i < fired.len() ==> #[trigger] fired[i].seq == a.scheduled_at()[fired[i].id]
    &&& in_schedule_order(fired)
    &&& b.scheduled_at() == a.scheduled_at()
    &&& b.next_seq() == a.next_seq()
    &&& b.due() == after_tick(a.due())
    &&& b.live() == a.live()
    &&& b.pending() == a.pending().remove_keys(due_now(a.due()))
    &&& b.in_flight() == a.in_flight().union_prefer_right(a.pending().restrict(due_now(a.due())))
}

/// What settling the fired timer `id` after `outcome` does to a domain `a`,
/// leaving `b` and returning `released`.
pub open spec fn settled(a: TimerDomain, b: TimerDomain, id: u128, outcome: Outcome, released: Option<u64>) -> bool {
    let entry = a.in_flight()[id];
    &&& b.domain() == a.domain()
    &&& b.in_flight() == a.in_flight().remove(id)
    &&& if continues(entry, outcome) {
        &&& released is None
        &&& b.scheduled_at() == a.scheduled_at().insert(id, a.next_seq())
        &&& b.next_seq() == bump(a.next_seq())
        &&& b.live() == a.live()
        &&& b.pending() == a.pending().insert(id, entry)
        &&& b.due() == a.due().insert(id, due_ticks(entry.period->0))
    } else {
        &&& released == Some(entry.resource)
        &&& released == Some(a.live()[id].resource)
        &&& b.live() == a.live().remove(id)
        &&& b.scheduled_at() == a.scheduled_at().remove(id)
        &&& b.next_seq() == a.next_seq()
        &&& b.pending() == a.pending()
        &&& b.due() == a.due()
    }
}

/// The handles in `p` whose wait is over: no extra ticks are left beside them.
spec fn fired_of(p: Set<u128>, extra: Map<u128, u64>) -> Set<u128> {
    p.filter(|k: u128| extra[k] == 0)
}

/// The handles in `p` that still wait: they go back into the wheel.
spec fn carried_of(p: Set<u128>, extra: Map<u128, u64>) -> Set<u128> {
    p.filter(|k: u128| extra[k] > 0)
}

/// The wheel after a tick from `w`, once the handles in `p` that still wait
/// are back in it for their next segment.
spec fn rewound(w: Map<u128, nat>, p: Set<u128>, extra: Map<u128, u64>) -> Map<u128, nat> {
    after_tick(w).union_prefer_right(
        Map::new(|k: u128| carried_of(p, extra).contains(k), |k: u128| segment(extra[k]) as nat),
    )
}

/// The extra ticks once the handles in `p` have been handed out or carried.
spec fn extra_after(extra: Map<u128, u64>, p: Set<u128>) -> Map<u128, u64> {
    Map::new(
        |k: u128| extra.contains_key(k) && !fired_of(p, extra).contains(k),
        |k: u128|
            if carried_of(p, extra).contains(k) {
                (extra[k] - segment(extra[k])) as u64
            } else {
                extra[k]
            },
    )
}

/// Where a firing numbered `seq` goes in `fired`, which is in schedule order:
/// after every firing numbered `seq` or less, before every later one.
fn insert_position(fired: &Vec<Firing>, seq: u64) -> (r: usize)
    requires
        in_schedule_order(fired@),
    ensures
        r <= fired@.len(),
        forall|q: int| 0 <= q < r ==> #[trigger] fired@[q].seq <= seq,
        forall|q: int| r <= q < fired@.len() ==> #[trigger] fired@[q].seq > seq,
{
    let mut p: usize = 0;
    while p < fired.len() && fired[p].seq <= seq
        invariant
            p <= fired@.len(),
            in_schedule_order(fired@),
            forall|q: int| 0 <= q < p ==> #[trigger] fired@[q].seq <= seq,
        decreases fired@.len() - p,
    {
        p = p + 1;
    }
    proof {
        assert forall|q: int| p <= q < fired@.len() implies #[trigger] fired@[q].seq > seq by {
            assert(fired@[p as int].seq <= fired@[q].seq);
        }
    }
    p
}

/// The timers of one domain.
pub struct TimerDomain {
    kind: TimerType,
    wheel: Wheel,
    entries: HashMap<u128, TimerEntry>,
    in_flight: HashMap<u128, TimerEntry>,
    order: HashMap<u128, u64>,
    next_seq: u64,
    extra: HashMap<u128, u64>,
}

impl TimerDomain {
    /// The domain these timers belong to.
    pub closed spec fn domain(&self) -> TimerType {
        self.kind
    }

    /// The timers waiting in the wheel, by handle.
    pub closed spec fn pending(&self) -> Map<u128, TimerEntry> {
        self.entries@
    }

    /// Ticks left until each pending timer is due.
    pub closed spec fn due(&self) -> Map<u128, nat> {
        Map::new(
            |k: u128| wheel_due(self.wheel).contains_key(k),
            |k: u128| (wheel_due(self.wheel)[k] + self.extra@[k]) as nat,
        )
    }

    /// Timers handed out by a tick whose invocation has not been settled yet.
    pub closed spec fn in_flight(&self) -> Map<u128, TimerEntry> {
        self.in_flight@
    }

    /// The schedule number of each live timer: timers scheduled later have
    /// larger numbers (until the numbers run out at `u64::MAX`).
    pub closed spec fn scheduled_at(&self) -> Map<u128, u64> {
        self.order@
    }

    /// The number the next scheduled timer gets.
    pub closed spec fn next_seq(&self) -> u64 {
        self.next_seq
    }

    /// Whether a handle is in use here, pending or in flight.
    pub open spec fn holds(&self, id: u128) -> bool {
        self.live().contains_key(id)
    }

    /// Every timer whose action is still held: pending or in flight. An
    /// action's resources are acquired when it enters this map and released
    /// when it leaves it.
    pub open spec fn live(&self) -> Map<u128, TimerEntry> {
        self.in_flight().union_prefer_right(self.pending())
    }

    /// Every pending timer sits in the wheel between one tick and `WHEEL_SPAN`
    /// ticks away, with the rest of its wait kept beside it, and no timer is
    /// both pending and in flight.
    pub closed spec fn wf(&self) -> bool {
        &&& self.entries@.dom() == wheel_due(self.wheel).dom()
        &&& self.extra@.dom() == wheel_due(self.wheel).dom()
        &&& forall|k: u128| #[trigger] wheel_due(self.wheel).contains_key(k) ==> 1 <= wheel_due(self.wheel)[k] < WHEEL_SPAN
        &&& forall|k: u128| #[trigger] self.entries@.contains_key(k) ==> !self.in_flight@.contains_key(k)
        &&& self.order@.dom() == self.entries@.dom().union(self.in_flight@.dom())
        &&& forall|k: u128| #[trigger] self.order@.contains_key(k) ==> (self.order@[k] < self.next_seq || self.next_seq == u64::MAX)
    }

    /// An empty domain.
    pub fn new(kind: TimerType) -> (r: TimerDomain)
        ensures
            r.wf(),
            r.domain() == kind,
            r.pending().is_empty(),
            r.in_flight().is_empty(),
    {
        let r = TimerDomain {
            kind,
            wheel: wheel_new(),
            entries: HashMap::new(),
            in_flight: HashMap::new(),
            order: HashMap::new(),
            next_seq: 0,
            extra: HashMap::new(),
        };
        assert(r.entries@.dom() =~= wheel_due(r.wheel).dom());
        assert(r.extra@.dom() =~= wheel_due(r.wheel).dom());
        assert(r.order@.dom() =~= r.entries@.dom().union(r.in_flight@.dom()));
        r
    }

    /// The domain these timers belong to.
    pub fn kind(&self) -> (r: TimerType)
        ensures
            r == self.domain(),
    {
        self.kind
    }

    /// Whether a handle is in use here, pending or in flight.
    pub fn contains(&self, id: u128) -> (r: bool)
        ensures
            r == self.holds(id),
    {
        self.entries.contains_key(&id) || self.in_flight.contains_key(&id)
    }

    /// Whether the timer with handle `id` has fired and waits to be settled.
    pub fn is_in_flight(&self, id: u128) -> (r: bool)
        ensures
            r == self.in_flight().contains_key(id),
    {
        self.in_flight.contains_key(&id)
    }

    /// A handle in flight is not pending.
    pub proof fn lemma_in_flight_not_pending(&self, id: u128)
        requires
            self.wf(),
            self.in_flight().contains_key(id),
        ensures
            !self.pending().contains_key(id),
    {
    }

    /// Every live timer was scheduled before the next one will be: its number
    /// is smaller, while numbers have not run out.
    pub proof fn lemma_numbered_before_next(&self, id: u128)
        requires
            self.wf(),
            self.scheduled_at().contains_key(id),
            self.next_seq() < u64::MAX,
        ensures
            self.scheduled_at()[id] < self.next_seq(),
    {
    }

    /// Every live timer has a schedule number.
    pub proof fn lemma_live_numbered(&self, id: u128)
        requires
            self.wf(),
            self.holds(id),
        ensures
            self.scheduled_at().contains_key(id),
    {
    }

    /// An upper bound on the number of live timers.
    pub fn live_count(&self) -> (r: u128)
        ensures
            self.live().dom().finite(),
            self.live().dom().len() <= r,
            r < 0x0100_0000_0000_0000_0000_0000_0000_0000u128,
    {
        proof {
            assert(self.live().dom() =~= self.in_flight@.dom().union(self.entries@.dom()));
            vstd::set_lib::lemma_len_union(self.in_flight@.dom(), self.entries@.dom());
        }
        self.entries.len() as u128 + self.in_flight.len() as u128
    }

    /// Puts a timer into the wheel, due `delay` units from now (the next tick
    /// for a zero delay).
    pub fn schedule(&mut self, id: u128, delay: u64, entry: TimerEntry)
        requires
            old(self).wf(),
            !old(self).holds(id),
        ensures
            final(self).wf(),
            final(self).domain() == old(self).domain(),
            final(self).pending() == old(self).pending().insert(id, entry),
            final(self).due() == old(self).due().insert(id, due_ticks(delay)),
            final(self).in_flight() == old(self).in_flight(),
            final(self).live() == old(self).live().insert(id, entry),
            final(self).scheduled_at() == old(self).scheduled_at().insert(id, old(self).next_seq()),
            final(self).next_seq() == bump(old(self).next_seq()),
    {
        let ticks: u64 = if delay == 0 {
            1
        } else {
            delay
        };
        let seg: u64 = if ticks < WHEEL_SPAN {
            ticks
        } else {
            WHEEL_SPAN - 1
        };
        wheel_insert(&mut self.wheel, id, seg);
        self.extra.insert(id, ticks - seg);
        self.entries.insert(id, entry);
        self.order.insert(id, self.next_seq);
        if self.next_seq < u64::MAX {
            self.next_seq = self.next_seq + 1;
        }
        assert(self.entries@.dom() =~= wheel_due(self.wheel).dom());
        assert(self.extra@.dom() =~= wheel_due(self.wheel).dom());
        assert(self.due() =~= old(self).due().insert(id, due_ticks(delay)));
        assert(self.live() =~= old(self).live().insert(id, entry));
        assert(self.order@.dom() =~= self.entries@.dom().union(self.in_flight@.dom()));
    }

    /// Cancels a pending timer. Returns the resource token of its action, to be
    /// released, or `None` where the handle is not pending here (unknown, fired,
    /// or running now): then nothing changes.
    pub fn cancel_timer(&mut self, id: u128) -> (r: Option<u64>)
        requires
            old(self).wf(),
        ensures
            final(self).wf(),
            final(self).domain() == old(self).domain(),
            final(self).in_flight() == old(self).in_flight(),
            final(self).next_seq() == old(self).next_seq(),
            old(self).pending().contains_key(id) ==> final(self).scheduled_at() == old(self).scheduled_at().remove(id),
            !old(self).pending().contains_key(id) ==> final(self).scheduled_at() == old(self).scheduled_at(),
            old(self).pending().contains_key(id) ==> {
                &&& r == Some(old(self).pending()[id].resource)
                &&& r == Some(old(self).live()[id].resource)
                &&& final(self).live() == old(self).live().remove(id)
                &&& final(self).pending() == old(self).pending().remove(id)
                &&& final(self).due() == old(self).due().remove(id)
            },
            !old(self).pending().contains_key(id) ==> {
                &&& r is None
                &&& final(self).live() == old(self).live()
                &&& final(self).pending() == old(self).pending()
                &&& final(self).due() == old(self).due()
            },
    {
        match self.entries.remove(&id) {
            Some(entry) => {
                wheel_cancel(&mut self.wheel, id);
                self.order.remove(&id);
                self.extra.remove(&id);
                assert(self.extra@.dom() =~= wheel_due(self.wheel).dom());
                assert(self.due() =~= old(self).due().remove(id));
                assert(self.entries@.dom() =~= wheel_due(self.wheel).dom());
                assert(self.order@.dom() =~= self.entries@.dom().union(self.in_flight@.dom()));
                assert(!old(self).in_flight@.contains_key(id));
                assert(self.live() =~= old(self).live().remove(id));
                Some(entry.resource)
            },
            None => {
                assert(self.entries@ =~= old(self).entries@);
                None
            },
        }
    }

    /// Advances the wheel by one tick. Every pending timer that is due now is
    /// handed out once, with what it runs, and moves from pending to in flight
    /// until it is settled; every other pending timer comes one tick closer.
    pub fn tick(&mut self) -> (r: Vec<Firing>)
        requires
            old(self).wf(),
        ensures
            final(self).wf(),
            ticked(*old(self), *final(self), r@),
    {
        let ghost old_w = wheel_due(self.wheel);
        let ghost old_extra = self.extra@;
        let ghost old_entries = self.entries@;
        let ghost old_in = self.in_flight@;
        let ghost old_order = self.order@;
        let ghost now = due_now(old_w);
        let ids = wheel_tick(&mut self.wheel);
        assert(ids@.to_set() =~= now);
        let mut out: Vec<Firing> = Vec::new();
        let mut i: usize = 0;
        proof {
            let p0 = ids@.subrange(0, 0).to_set();
            assert(p0 =~= Set::empty());
            assert(ids_of(out@).to_set() =~= fired_of(p0, old_extra));
            assert(wheel_due(self.wheel) =~= rewound(old_w, p0, old_extra));
            assert(self.extra@ =~= extra_after(old_extra, p0));
            assert(self.entries@ =~= old_entries.remove_keys(fired_of(p0, old_extra)));
            assert(self.in_flight@ =~= old_in.union_prefer_right(old_entries.restrict(fired_of(p0, old_extra))));
        }
        while i < ids.len()
            invariant
                ids@.no_duplicates(),
                ids@.to_set() == now,
                now == due_now(old_w),
                old_entries.dom() == old_w.dom(),
                old_extra.dom() == old_w.dom(),
                forall|k: u128| #[trigger] old_w.contains_key(k) ==> 1 <= old_w[k] < WHEEL_SPAN,
                forall|k: u128| #[trigger] old_entries.contains_key(k) ==> !old_in.contains_key(k),
                old_order.dom() == old_entries.dom().union(old_in.dom()),
                0 <= i <= ids@.len(),
                self.kind == old(self).kind,
                self.order@ == old_order,
                self.next_seq == old(self).next_seq,
                wheel_due(self.wheel) == rewound(old_w, ids@.subrange(0, i as int).to_set(), old_extra),
                self.extra@ == extra_after(old_extra, ids@.subrange(0, i as int).to_set()),
                self.entries@ == old_entries.remove_keys(fired_of(ids@.subrange(0, i as int).to_set(), old_extra)),
                self.in_flight@ == old_in.union_prefer_right(
                    old_entries.restrict(fired_of(ids@.subrange(0, i as int).to_set(), old_extra)),
                ),
                ids_of(out@).no_duplicates(),
                ids_of(out@).to_set() == fired_of(ids@.subrange(0, i as int).to_set(), old_extra),
                forall|j: int| 0 <= j < out@.len() ==> #[trigger] out@[j].entry == old_entries[out@[j].id],
                forall|j: int| 0 <= j < out@.len() ==> #[trigger] out@[j].seq == old_order[out@[j].id],
                in_schedule_order(out@),
            decreases ids@.len() - i,
        {
            let id = ids[i];
            let ghost done = ids@.subrange(0, i as int).to_set();
            let ghost next = ids@.subrange(0, i + 1).to_set();
            proof {
                assert(ids@.to_set().contains(id));
                if done.contains(id) {
                    let j = choose|j: int| 0 <= j < i && ids@.subrange(0, i as int)[j] == id;
                    assert(ids@[j] == ids@[i as int]);
                }
                assert(!done.contains(id));
                let nx = ids@.subrange(0, i + 1);
                let pv = ids@.subrange(0, i as int);
                assert forall|k: u128| nx.to_set().contains(k) <==> done.insert(id).contains(k) by {
                    if nx.contains(k) {
                        let j = choose|j: int| 0 <= j < nx.len() && nx[j] == k;
                        if j < i {
                            assert(pv[j] == k);
                        }
                    }
                    if done.contains(k) {
                        let j = choose|j: int| 0 <= j < pv.len() && pv[j] == k;
                        assert(nx[j] == k);
                    }
                    if k == id {
                        assert(nx[i as int] == k);
                    }
                }
                assert(next =~= done.insert(id));
                assert(old_w.contains_key(id));
                assert(self.extra@.contains_key(id));
                assert(self.extra@[id] == old_extra[id]);
            }
            let more: u64 = match self.extra.get(&id) {
                Some(e) => *e,
                None => 0,
            };
            if more > 0 {
                let seg: u64 = if more < WHEEL_SPAN {
                    more
                } else {
                    WHEEL_SPAN - 1
                };
                wheel_insert(&mut self.wheel, id, seg);
                self.extra.insert(id, more - seg);
                proof {
                    assert(fired_of(next, old_extra) =~= fired_of(done, old_extra));
                    assert(wheel_due(self.wheel) =~= rewound(old_w, next, old_extra));
                    assert(self.extra@ =~= extra_after(old_extra, next));
                }
            } else {
                self.extra.remove(&id);
                proof {
                    assert(fired_of(next, old_extra) =~= fired_of(done, old_extra).insert(id));
                    assert(carried_of(next, old_extra) =~= carried_of(done, old_extra));
                    assert(rewound(old_w, next, old_extra) =~= rewound(old_w, done, old_extra));
                    assert(self.extra@ =~= extra_after(old_extra, next));
                    assert(old_entries.contains_key(id));
                    assert(self.entries@.contains_key(id));
                    assert(self.order@.contains_key(id));
                }
                let seq: u64 = match self.order.get(&id) {
                    Some(n) => *n,
                    None => 0,
                };
                let removed = self.entries.remove(&id);
                if let Some(entry) = removed {
                    self.in_flight.insert(id, entry);
                    let at = insert_position(&out, seq);
                    let ghost before = out@;
                    let f = Firing { id, entry, seq };
                    out.insert(at, f);
                    proof {
                        assert(ids_of(out@) =~= ids_of(before).insert(at as int, id));
                        assert(!ids_of(before).to_set().contains(id));
                        assert forall|x: int, y: int| 0 <= x < y < ids_of(out@).len() implies ids_of(out@)[x] != ids_of(out@)[y] by {
                            if x == at as int {
                                assert(ids_of(before).contains(ids_of(out@)[y]));
                            } else if y == at as int {
                                assert(ids_of(before).contains(ids_of(out@)[x]));
                            }
                        }
                        assert forall|h: u128| ids_of(out@).to_set().contains(h) <==> ids_of(before).to_set().insert(id).contains(h) by {
                            if ids_of(out@).contains(h) {
                                let x = choose|x: int| 0 <= x < ids_of(out@).len() && ids_of(out@)[x] == h;
                                if x < at as int {
                                    assert(ids_of(before)[x] == h);
                                } else if x > at as int {
                                    assert(ids_of(before)[x - 1] == h);
                                }
                            }
                            if ids_of(before).contains(h) {
                                let x = choose|x: int| 0 <= x < ids_of(before).len() && ids_of(before)[x] == h;
                                if x < at as int {
                                    assert(ids_of(out@)[x] == h);
                                } else {
                                    assert(ids_of(out@)[x + 1] == h);
                                }
                            }
                            if h == id {
                                assert(ids_of(out@)[at as int] == h);
                            }
                        }
                        assert(ids_of(out@).to_set() =~= fired_of(next, old_extra));
                        assert forall|x: int, y: int| 0 <= x < y < out@.len() implies #[trigger] out@[x].seq <= #[trigger] out@[y].seq by {
                            if y < at as int {
                                assert(before[x].seq <= before[y].seq);
                            } else if x > at as int {
                                assert(before[x - 1].seq <= before[y - 1].seq);
                            } else if x < at as int && y > at as int {
                                assert(before[x].seq <= before[y - 1].seq);
                            }
                        }
                        assert forall|j: int| 0 <= j < out@.len() implies #[trigger] out@[j].entry == old_entries[out@[j].id] && out@[j].seq == old_order[out@[j].id] by {
                            if j < at as int {
                                assert(out@[j] == before[j]);
                            } else if j > at as int {
                                assert(out@[j] == before[j - 1]);
                            }
                        }
                    }
                }
                proof {
                    assert(self.entries@ =~= old_entries.remove_keys(fired_of(next, old_extra)));
                    assert(self.in_flight@ =~= old_in.union_prefer_right(
                        old_entries.restrict(fired_of(next, old_extra)),
                    ));
                }
            }
            i = i + 1;
        }
        proof {
            assert(ids@.subrange(0, ids@.len() as int) =~= ids@);
            let a_due = old(self).due();
            assert forall|k: u128| due_now(a_due).contains(k) <==> fired_of(now, old_extra).contains(k) by {
                if old_w.contains_key(k) {
                    assert(a_due[k] == old_w[k] + old_extra[k]);
                }
            }
            assert(due_now(a_due) =~= fired_of(now, old_extra));
            assert(self.entries@.dom() =~= wheel_due(self.wheel).dom());
            assert(self.extra@.dom() =~= wheel_due(self.wheel).dom());
            assert forall|k: u128| self.due().contains_key(k) <==> after_tick(a_due).contains_key(k) by {
                if old_w.contains_key(k) {
                    assert(a_due[k] == old_w[k] + old_extra[k]);
                }
            }
            assert forall|k: u128| self.due().contains_key(k) implies self.due()[k] == after_tick(a_due)[k] by {
                assert(a_due[k] == old_w[k] + old_extra[k]);
            }
            assert(self.due() =~= after_tick(a_due));
            assert(self.live() =~= old(self).live());
            assert(self.order@.dom() =~= self.entries@.dom().union(self.in_flight@.dom()));
        }
        out
    }

    /// Settles a fired timer once its action has run. A periodic timer whose
    /// action returned anything but the cancel text goes back into the wheel,
    /// due one period from now, keeping its action: nothing is released. Any
    /// other timer (one-shot, cancelled by its action, or failed) is done, and
    /// the resource token of its action is returned, to be released.
    pub fn settle(&mut self, id: u128, outcome: Outcome) -> (r: Option<u64>)
        requires
            old(self).wf(),
            old(self).in_flight().contains_key(id),
        ensures
            final(self).wf(),
            settled(*old(self), *final(self), id, outcome, r),
    {
        let taken = self.in_flight.remove(&id);
        self.order.remove(&id);
        let entry = match taken {
            Some(e) => e,
            None => {
                proof {
                    assert(false);
                }
                return None;
            },
        };
        assert(!self.entries@.contains_key(id));
        assert(forall|k: u128| #[trigger] self.entries@.contains_key(k) ==> !self.in_flight@.contains_key(k));
        assert(self.order@.dom() =~= self.entries@.dom().union(self.in_flight@.dom()));
        match entry.period {
            Some(period) => {
                let again = match outcome {
                    Outcome::Returned(ret) => should_reschedule(ret) == TimerReturn::Reschedule,
                    Outcome::Failed => false,
                };
                if again {
                    self.schedule(id, period, entry);
                    assert(self.live() =~= old(self).live());
                    assert(self.order@ =~= old(self).order@.insert(id, old(self).next_seq));
                    None
                } else {
                    assert(self.live() =~= old(self).live().remove(id));
                    assert(self.order@ =~= old(self).order@.remove(id));
                    Some(entry.resource)
                }
            },
            None => {
                assert(self.live() =~= old(self).live().remove(id));
                assert(self.order@ =~= old(self).order@.remove(id));
                Some(entry.resource)
            },
        }
    }
}

/// Schedules a one-shot timer under handle `id`, due `delay` units from now.
pub fn schedule_oneshot_timer(timers: &mut TimerDomain, id: u128, delay: u64, resource: u64)
    requires
        old(timers).wf(),
        !old(timers).holds(id),
    ensures
        final(timers).wf(),
        final(timers).domain() == old(timers).domain(),
        final(timers).pending() == old(timers).pending().insert(id, (TimerEntry { period: None, resource })),
        final(timers).due() == old(timers).due().insert(id, due_ticks(delay)),
        final(timers).in_flight() == old(timers).in_flight(),
        final(timers).live() == old(timers).live().insert(id, (TimerEntry { period: None, resource })),
{
    timers.schedule(id, delay, TimerEntry { period: None, resource });
}

/// Schedules a periodic timer under handle `id`: first due `delay` units from
/// now, then every `period` units after each run that asks to continue.
pub fn schedule_periodic_timer(timers: &mut TimerDomain, id: u128, delay: u64, period: u64, resource: u64)
    requires
        old(timers).wf(),
        !old(timers).holds(id),
    ensures
        final(timers).wf(),
        final(timers).domain() == old(timers).domain(),
        final(timers).pending() == old(timers).pending().insert(id, (TimerEntry { period: Some(period), resource })),
        final(timers).due() == old(timers).due().insert(id, due_ticks(delay)),
        final(timers).in_flight() == old(timers).in_flight(),
        final(timers).live() == old(timers).live().insert(id, (TimerEntry { period: Some(period), resource })),
{
    timers.schedule(id, delay, TimerEntry { period: Some(period), resource });
}

} // verus!

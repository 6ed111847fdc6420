use rustick::domain::{Firing, Outcome, TimerDomain};
use rustick::handles::{get_uuid, should_reschedule, tagged_id, TimerReturn, TimerType, TimerTypable};
use rustick::scheduler::{ScheduleError, Scheduler};

fn run_realtime(s: &mut Scheduler, ticks: u64, log: &mut Vec<(u64, u64)>, start: u64) {
    for t in 1..=ticks {
        for f in s.tick_realtime() {
            log.push((start + t, f.entry.resource));
            s.settle(f.id, Outcome::Returned(None));
        }
    }
}

fn parse_hex(text: &str) -> u128 {
    u128::from_str_radix(&text.replace('-', ""), 16).unwrap()
}

#[test]
fn signal_reschedule_by_default() {
    assert_eq!(should_reschedule(None), TimerReturn::Reschedule);
    assert_eq!(should_reschedule(Some("TIMER_RESCHEDULE".to_string())), TimerReturn::Reschedule);
    assert_eq!(should_reschedule(Some(String::new())), TimerReturn::Reschedule);
    assert_eq!(should_reschedule(Some("timer_cancel".to_string())), TimerReturn::Reschedule);
    assert_eq!(should_reschedule(Some("TIMER_CANCEL ".to_string())), TimerReturn::Reschedule);
}

#[test]
fn signal_cancel_exact_text() {
    assert_eq!(should_reschedule(Some("TIMER_CANCEL".to_string())), TimerReturn::Cancel);
}

#[test]
fn tagged_id_keeps_fifteen_bytes() {
    assert_eq!(tagged_id(TimerType::RealTime, u128::MAX), 0x00ff_ffff_ffff_ffff_ffff_ffff_ffff_ffff);
    assert_eq!(tagged_id(TimerType::ByondTick, 0), 0xbd00_0000_0000_0000_0000_0000_0000_0000);
    assert_eq!(
        tagged_id(TimerType::ByondTick, 0x0123_4567_89ab_cdef_0123_4567_89ab_cdef),
        0xbd23_4567_89ab_cdef_0123_4567_89ab_cdef
    );
    assert_eq!(tagged_id(TimerType::RealTime, 0xbd00_0000_0000_0000_0000_0000_0000_0001), 1);
}

#[test]
fn minted_handles_carry_their_domain() {
    for _ in 0..50 {
        let r = get_uuid(TimerType::RealTime);
        let b = get_uuid(TimerType::ByondTick);
        assert_eq!(r >> 120, 0);
        assert_eq!(b >> 120, 0xbd);
        assert_ne!(r, b);
        assert_eq!(r.timertype(), TimerType::RealTime);
        assert_eq!(b.timertype(), TimerType::ByondTick);
    }
    assert_ne!(get_uuid(TimerType::RealTime), get_uuid(TimerType::RealTime));
}

#[test]
fn foreign_tags_route_to_realtime() {
    assert_eq!(0u128.timertype(), TimerType::RealTime);
    assert_eq!((0x01u128 << 120).timertype(), TimerType::RealTime);
    assert_eq!((0xbcu128 << 120).timertype(), TimerType::RealTime);
    assert_eq!((0xbdu128 << 120).timertype(), TimerType::ByondTick);
    assert_eq!(u128::MAX.timertype(), TimerType::RealTime);
}

#[test]
fn handle_text_is_hyphenated_lowercase() {
    let mut s = Scheduler::new();
    let text = s.schedule_once_tick(5, 1, false, false).unwrap();
    assert_eq!(text.len(), 36);
    for (i, c) in text.chars().enumerate() {
        if i == 8 || i == 13 || i == 18 || i == 23 {
            assert_eq!(c, '-');
        } else {
            assert!(c.is_ascii_digit() || ('a'..='f').contains(&c));
        }
    }
    assert!(text.starts_with("bd"));
    let rt = s.schedule_once(5, 2, false, false).unwrap();
    assert!(rt.starts_with("00"));
}

#[test]
fn null_target_is_rejected() {
    let mut s = Scheduler::new();
    assert_eq!(s.schedule_once(10, 1, true, false), Err(ScheduleError::InvalidAction));
    assert_eq!(s.schedule_once(10, 1, false, true), Err(ScheduleError::InvalidAction));
    assert_eq!(s.schedule_periodic(10, 10, 1, true, true), Err(ScheduleError::InvalidAction));
    assert_eq!(s.schedule_once_tick(10, 1, true, false), Err(ScheduleError::InvalidAction));
    assert_eq!(s.schedule_periodic_tick(10, 10, 1, false, true), Err(ScheduleError::InvalidAction));
    for _ in 0..20 {
        assert!(s.tick_realtime().is_empty());
        assert!(s.tick_byondtick().is_empty());
    }
}

#[test]
fn cancel_before_due_never_fires() {
    let mut s = Scheduler::new();
    let a = s.schedule_once(50, 7, false, false).unwrap();
    assert_eq!(s.cancel_timer(&a), Some(7));
    let mut log = Vec::new();
    run_realtime(&mut s, 100, &mut log, 0);
    assert!(log.is_empty());
}

#[test]
fn one_shot_fires_once_after_delay() {
    let mut s = Scheduler::new();
    let b = s.schedule_once(10, 8, false, false).unwrap();
    let id = parse_hex(&b);
    let mut fired = Vec::new();
    for t in 1..=100u64 {
        for f in s.tick_realtime() {
            assert_eq!(f, Firing { id, entry: f.entry, seq: f.seq });
            fired.push(t);
            assert_eq!(s.settle(f.id, Outcome::Returned(None)), Some(8));
        }
    }
    assert_eq!(fired, vec![10]);
}

#[test]
fn periodic_fires_every_period() {
    let mut s = Scheduler::new();
    s.schedule_periodic(10, 10, 9, false, false).unwrap();
    let mut log = Vec::new();
    run_realtime(&mut s, 55, &mut log, 0);
    let times: Vec<u64> = log.iter().map(|p| p.0).collect();
    assert_eq!(times, vec![10, 20, 30, 40, 50]);
    assert!(times.len() >= 4);
    for w in times.windows(2) {
        assert!(w[1] - w[0] >= 10);
    }
}

#[test]
fn periodic_stops_on_cancel_text() {
    let mut s = Scheduler::new();
    s.schedule_periodic(10, 10, 11, false, false).unwrap();
    let mut runs = 0;
    let mut released = Vec::new();
    for _ in 0..200 {
        for f in s.tick_realtime() {
            runs += 1;
            let ret = if runs == 3 { Some("TIMER_CANCEL".to_string()) } else { Some("TIMER_RESCHEDULE".to_string()) };
            if let Some(r) = s.settle(f.id, Outcome::Returned(ret)) {
                released.push(r);
            }
        }
    }
    assert_eq!(runs, 3);
    assert_eq!(released, vec![11]);
}

#[test]
fn periodic_failure_ends_timer() {
    let mut s = Scheduler::new();
    let h = s.schedule_periodic_tick(2, 3, 12, false, false).unwrap();
    let mut runs = 0;
    let mut released = Vec::new();
    for _ in 0..30 {
        for f in s.tick_byondtick() {
            runs += 1;
            if let Some(r) = s.settle(f.id, Outcome::Failed) {
                released.push(r);
            }
        }
    }
    assert_eq!(runs, 1);
    assert_eq!(released, vec![12]);
    assert_eq!(s.cancel_timer(&h), None);
}

#[test]
fn zero_delay_fires_on_next_tick() {
    let mut s = Scheduler::new();
    s.schedule_once_tick(0, 13, false, false).unwrap();
    let first = s.tick_byondtick();
    assert_eq!(first.len(), 1);
    assert_eq!(first[0].entry.resource, 13);
    assert_eq!(first[0].entry.period, None);
}

#[test]
fn cancel_fired_or_unknown_is_noop() {
    let mut s = Scheduler::new();
    let h = s.schedule_once(1, 14, false, false).unwrap();
    let fired = s.tick_realtime();
    assert_eq!(fired.len(), 1);
    assert_eq!(s.cancel_timer(&h), None);
    assert_eq!(s.settle(fired[0].id, Outcome::Returned(None)), Some(14));
    assert_eq!(s.cancel_timer(&h), None);
    assert_eq!(s.cancel_timer("not a handle"), None);
    assert_eq!(s.cancel_timer(""), None);
    assert_eq!(s.cancel_timer("00000000-0000-8000-8000-000000000000"), None);
    assert_eq!(s.cancel_handle(0xbd00_0000_0000_8000_8000_0000_0000_0001), None);
}

#[test]
fn cancel_routes_by_handle_domain() {
    let mut s = Scheduler::new();
    let tick_handle = s.schedule_once_tick(5, 21, false, false).unwrap();
    let real_handle = s.schedule_once(5, 22, false, false).unwrap();
    assert_ne!(tick_handle, real_handle);
    assert_eq!(s.cancel_timer(&tick_handle), Some(21));
    let mut real = Vec::new();
    let mut tick = Vec::new();
    for _ in 0..10 {
        real.extend(s.tick_realtime());
        tick.extend(s.tick_byondtick());
    }
    assert!(tick.is_empty());
    assert_eq!(real.len(), 1);
    assert_eq!(real[0].id, parse_hex(&real_handle));
}

#[test]
fn cancel_accepts_other_uuid_forms() {
    let mut s = Scheduler::new();
    let h = s.schedule_once_tick(5, 23, false, false).unwrap();
    let simple = h.replace('-', "").to_uppercase();
    assert_eq!(s.cancel_timer(&simple), Some(23));
}

#[test]
fn domains_advance_independently() {
    let mut s = Scheduler::new();
    s.schedule_once_tick(3, 31, false, false).unwrap();
    s.schedule_once(3, 32, false, false).unwrap();
    for _ in 0..10 {
        assert!(s.tick_realtime().iter().all(|f| f.entry.resource == 32));
    }
    let mut got = Vec::new();
    for _ in 0..3 {
        got.extend(s.tick_byondtick());
    }
    assert_eq!(got.len(), 1);
    assert_eq!(got[0].entry.resource, 31);
}

#[test]
fn resources_released_once_on_every_path() {
    let mut s = Scheduler::new();
    let mut acquired = vec![41u64, 42, 43, 44];
    acquired.sort();
    s.schedule_once(2, 41, false, false).unwrap();
    s.schedule_periodic(2, 2, 42, false, false).unwrap();
    let external = s.schedule_periodic(2, 2, 43, false, false).unwrap();
    let early = s.schedule_once(50, 44, false, false).unwrap();
    let mut released = Vec::new();
    released.extend(s.cancel_timer(&early));
    released.extend(s.cancel_timer(&early));
    let mut runs_42 = 0;
    for t in 1..=20 {
        if t == 7 {
            released.extend(s.cancel_timer(&external));
            released.extend(s.cancel_timer(&external));
        }
        for f in s.tick_realtime() {
            let ret = if f.entry.resource == 42 {
                runs_42 += 1;
                if runs_42 == 2 { Some("TIMER_CANCEL".to_string()) } else { None }
            } else {
                None
            };
            released.extend(s.settle(f.id, Outcome::Returned(ret)));
        }
    }
    released.sort();
    assert_eq!(released, acquired);
}

#[test]
fn large_delay_stays_pending() {
    let mut s = Scheduler::new();
    let h = s.schedule_once(2_147_483_647, 51, false, false).unwrap();
    let long = s.schedule_periodic_tick(4_294_967_294, 2_147_483_648, 52, false, false).unwrap();
    let t = s.schedule_periodic_tick(10, 2_147_483_647, 53, false, false).unwrap();
    for _ in 0..1000 {
        assert!(s.tick_realtime().is_empty());
    }
    for _ in 0..9 {
        assert!(s.tick_byondtick().is_empty());
    }
    assert_eq!(s.cancel_timer(&h), Some(51));
    assert_eq!(s.cancel_timer(&long), Some(52));
    let fired = s.tick_byondtick();
    assert_eq!(fired.len(), 1);
    assert_eq!(fired[0].entry.resource, 53);
}

#[test]
fn any_delay_or_period_is_accepted() {
    let mut s = Scheduler::new();
    let a = s.schedule_once(2_147_483_648, 1, false, false).unwrap();
    let b = s.schedule_once_tick(u64::MAX, 2, false, false).unwrap();
    let c = s.schedule_once_tick(4_294_967_295, 3, false, false).unwrap();
    let d = s.schedule_periodic(1, u64::MAX, 4, false, false).unwrap();
    assert_eq!(s.schedule_periodic(u64::MAX, 1, 5, true, false), Err(ScheduleError::InvalidAction));
    let first = s.tick_realtime();
    assert_eq!(first.len(), 1);
    assert_eq!(first[0].entry.resource, 4);
    assert_eq!(first[0].entry.period, Some(u64::MAX));
    assert_eq!(s.settle(first[0].id, Outcome::Returned(None)), None);
    for _ in 0..1000 {
        assert!(s.tick_realtime().is_empty());
        assert!(s.tick_byondtick().is_empty());
    }
    assert_eq!(s.cancel_timer(&a), Some(1));
    assert_eq!(s.cancel_timer(&b), Some(2));
    assert_eq!(s.cancel_timer(&c), Some(3));
    assert_eq!(s.cancel_timer(&d), Some(4));
}

#[test]
fn domain_tick_hands_out_due_timers() {
    let mut d = TimerDomain::new(TimerType::ByondTick);
    d.schedule(0xbd01, 2, rustick::domain::TimerEntry { period: None, resource: 61 });
    d.schedule(0xbd02, 1, rustick::domain::TimerEntry { period: Some(4), resource: 62 });
    assert!(d.contains(0xbd01));
    let first = d.tick();
    assert_eq!(first, vec![Firing { id: 0xbd02, entry: rustick::domain::TimerEntry { period: Some(4), resource: 62 }, seq: 1 }]);
    assert!(d.is_in_flight(0xbd02));
    assert_eq!(d.settle(0xbd02, Outcome::Returned(None)), None);
    let second = d.tick();
    assert_eq!(second.len(), 1);
    assert_eq!(second[0].id, 0xbd01);
    assert_eq!(d.settle(0xbd01, Outcome::Returned(Some("TIMER_CANCEL".to_string()))), Some(61));
    assert!(!d.contains(0xbd01));
    assert!(d.tick().is_empty());
    assert!(d.tick().is_empty());
    let third = d.tick();
    assert_eq!(third.len(), 1);
    assert_eq!(third[0].id, 0xbd02);
    assert_eq!(d.cancel_timer(0xbd02), None);
    assert_eq!(d.settle(0xbd02, Outcome::Returned(Some("TIMER_CANCEL".to_string()))), Some(62));
    assert_eq!(d.kind(), TimerType::ByondTick);
}

#[test]
fn same_tick_fires_in_schedule_order() {
    let mut s = Scheduler::new();
    let mut handles = Vec::new();
    for r in 0..20u64 {
        let delay = if r % 2 == 0 { 7 } else { 0 };
        let h = s.schedule_once_tick(delay, 100 + r, false, false).unwrap();
        handles.push(h);
    }
    s.schedule_once_tick(7, 200, false, false).unwrap();
    let first = s.tick_byondtick();
    let got: Vec<u64> = first.iter().map(|f| f.entry.resource).collect();
    assert_eq!(got, vec![101, 103, 105, 107, 109, 111, 113, 115, 117, 119]);
    for _ in 0..5 {
        assert!(s.tick_byondtick().is_empty());
    }
    let later = s.tick_byondtick();
    let got: Vec<u64> = later.iter().map(|f| f.entry.resource).collect();
    assert_eq!(got, vec![100, 102, 104, 106, 108, 110, 112, 114, 116, 118, 200]);
    for w in later.windows(2) {
        assert!(w[0].seq < w[1].seq);
    }
}

#[test]
fn handle_is_first_free_candidate_of_draw() {
    let mut s = Scheduler::new();
    let entry = rustick::domain::TimerEntry { period: None, resource: 71 };
    let bits: u128 = 0x0011_2233_4455_6677_8899_aabb_ccdd_eeff;
    let first = s.schedule_with_bits(TimerType::ByondTick, 5, entry, false, false, bits).unwrap();
    assert_eq!(first, "bd112233-4455-6677-8899-aabbccddeeff");
    assert_eq!(parse_hex(&first), tagged_id(TimerType::ByondTick, bits));
    let second = s.schedule_with_bits(TimerType::ByondTick, 5, entry, false, false, bits).unwrap();
    assert_eq!(second, "bd112233-4455-6677-8899-aabbccddeefe");
    let other = s.schedule_with_bits(TimerType::RealTime, 5, entry, false, false, bits).unwrap();
    assert_eq!(other, "00112233-4455-6677-8899-aabbccddeeff");
    assert_eq!(
        s.schedule_with_bits(TimerType::RealTime, 5, entry, true, false, bits),
        Err(ScheduleError::InvalidAction)
    );
    let d = TimerDomain::new(TimerType::ByondTick);
    assert_eq!(rustick::scheduler::first_free(&d, TimerType::ByondTick, bits), tagged_id(TimerType::ByondTick, bits));
}

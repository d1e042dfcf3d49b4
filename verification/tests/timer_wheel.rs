use std::time::{Duration, Instant};
use my_mio::timer::{Timer, Builder, check_registration, duration_to_tick, wakeup_step, wakeup_earlier, WakeupAction, current_tick};
use my_mio::sys::duration::millis;

#[test]
fn millis_rounds_nanos_up() {
    assert_eq!(millis(Duration::from_millis(100)), 100);
    assert_eq!(millis(Duration::new(1, 1)), 1001);
    assert_eq!(millis(Duration::new(2, 999_999_999)), 3000);
    assert_eq!(millis(Duration::new(u64::MAX, 0)), u64::MAX);
}

#[test]
fn duration_to_tick_rounds_up() {
    assert_eq!(duration_to_tick(Duration::from_millis(120), 100), 2);
    assert_eq!(duration_to_tick(Duration::from_millis(101), 100), 2);
    assert_eq!(duration_to_tick(Duration::from_millis(100), 100), 1);
    assert_eq!(duration_to_tick(Duration::from_millis(1), 100), 1);
    assert_eq!(duration_to_tick(Duration::from_millis(0), 100), 0);
    assert_eq!(duration_to_tick(Duration::new(u64::MAX, 0), 1), u64::MAX);
    assert_eq!(duration_to_tick(Duration::new(u64::MAX, 0), 2), u64::MAX / 2 + 1);
}

#[test]
fn timeouts_fire_in_tick_order() {
    let mut t: Timer<u32> = Timer::new(100, 8, 16, Instant::now());
    let _a = t.set_timeout_at(Duration::from_millis(300), 3).ok().unwrap();
    let _b = t.set_timeout_at(Duration::from_millis(100), 1).ok().unwrap();
    let _c = t.set_timeout_at(Duration::from_millis(200), 2).ok().unwrap();
    assert_eq!(t.len_pending(), 3);
    assert_eq!(t.poll_to(0), None);
    assert_eq!(t.poll_to(1), Some(1));
    assert_eq!(t.poll_to(1), None);
    assert_eq!(t.poll_to(3), Some(2));
    assert_eq!(t.poll_to(3), Some(3));
    assert_eq!(t.poll_to(3), None);
    assert_eq!(t.len_pending(), 0);
}

#[test]
fn timeouts_beyond_one_turn_wait_their_round() {
    let mut t: Timer<u32> = Timer::new(100, 4, 16, Instant::now());
    let _a = t.set_timeout_at(Duration::from_millis(500), 5).ok().unwrap();
    assert_eq!(t.poll_to(4), None);
    assert_eq!(t.len_pending(), 1);
    assert_eq!(t.poll_to(5), Some(5));
}

#[test]
fn cancel_hands_back_state_once() {
    let mut t: Timer<&str> = Timer::new(100, 8, 16, Instant::now());
    let a = t.set_timeout_at(Duration::from_millis(200), "a").ok().unwrap();
    let b = t.set_timeout_at(Duration::from_millis(200), "b").ok().unwrap();
    assert_eq!(t.cancel_timeout(&a), Some("a"));
    assert_eq!(t.cancel_timeout(&a), None);
    assert_eq!(t.poll_to(2), Some("b"));
    assert_eq!(t.cancel_timeout(&b), None);
}

#[test]
fn past_deadline_goes_to_next_tick() {
    let mut t: Timer<u8> = Timer::new(100, 8, 16, Instant::now());
    assert_eq!(t.poll_to(5), None);
    let _a = t.set_timeout_at(Duration::from_millis(100), 9).ok().unwrap();
    assert_eq!(t.poll_to(6), None);
    assert_eq!(t.poll_to(7), Some(9));
}

#[test]
fn next_tick_reports_the_earliest_slot() {
    let mut t: Timer<u8> = Timer::new(100, 8, 16, Instant::now());
    assert_eq!(t.next_tick(), Some(u64::MAX));
    let _a = t.set_timeout_at(Duration::from_millis(300), 1).ok().unwrap();
    let _b = t.set_timeout_at(Duration::from_millis(500), 2).ok().unwrap();
    assert_eq!(t.next_tick(), Some(3));
}

#[test]
fn set_timeout_from_now_and_poll() {
    let mut t: Timer<u8> = Builder::default().tick_duration(Duration::from_millis(10)).num_slots(16).capacity(32).build();
    let a = t.set_timeout(Duration::from_millis(0), 1).ok().unwrap();
    assert_eq!(t.cancel_timeout(&a), Some(1));
    let _b = t.set_timeout(Duration::from_millis(0), 2).ok().unwrap();
    let started = Instant::now();
    let mut got = None;
    while started.elapsed() < Duration::from_secs(2) {
        if let Some(v) = t.poll() {
            got = Some(v);
            break;
        }
    }
    assert_eq!(got, Some(2));
}

#[test]
fn default_timer_is_empty() {
    let mut t: Timer<u8> = Timer::default();
    assert_eq!(t.len_pending(), 0);
    assert_eq!(t.poll(), None);
    let _ = current_tick(Instant::now(), 100);
}

#[test]
fn wakeup_thread_decisions() {
    assert_eq!(wakeup_step(0, 5, 100), WakeupAction::Terminate);
    assert_eq!(wakeup_step(10, 5, 100), WakeupAction::SleepFor(500));
    assert_eq!(wakeup_step(u64::MAX, 0, 100), WakeupAction::Park);
    assert_eq!(wakeup_step(5, 5, 100), WakeupAction::Fire);
    assert!(wakeup_earlier(10, 3));
    assert!(!wakeup_earlier(3, 3));
}

#[test]
fn due_timeouts_come_back_before_the_wheel_passes_them() {
    let start = Instant::now();
    let mut t: Timer<u8> = Timer::new(10, 4, 16, start);
    assert_eq!(t.tick_ms(), 10);
    assert_eq!(t.start(), start);
    let a = t.set_timeout_at(Duration::from_millis(50), 1).ok().unwrap();
    let b = t.set_timeout_at(Duration::from_millis(90), 2).ok().unwrap();
    assert_eq!(a.tick(), 5);
    assert_eq!(b.tick(), 9);
    assert_eq!(t.poll_to(9), Some(1));
    assert_eq!(t.poll_to(9), Some(2));
    assert_eq!(t.poll_to(9), None);
    assert_eq!(t.len_pending(), 0);
}

#[test]
fn timeout_past_the_end_of_time_is_refused() {
    let start = Instant::now() - Duration::from_millis(5);
    let mut t: Timer<u8> = Timer::new(10, 4, 16, start);
    assert!(t.set_timeout(Duration::MAX, 1).is_err());
    assert_eq!(t.len_pending(), 0);
    assert!(t.set_timeout(Duration::from_millis(10), 2).is_ok());
    assert_eq!(t.len_pending(), 1);
}

#[test]
fn timeout_due_now_is_always_accepted() {
    let mut t: Timer<u8> = Timer::new(10, 4, 16, Instant::now());
    let a = t.set_timeout(Duration::from_millis(0), 7).ok().unwrap();
    assert_eq!(t.cancel_timeout(&a), Some(7));
}

#[test]
fn same_tick_timeouts_come_back_on_consecutive_polls() {
    let mut t: Timer<&str> = Timer::new(100, 4, 16, Instant::now());
    let _x = t.set_timeout_at(Duration::from_millis(200), "x").ok().unwrap();
    let _y = t.set_timeout_at(Duration::from_millis(600), "y").ok().unwrap();
    let _z = t.set_timeout_at(Duration::from_millis(200), "z").ok().unwrap();
    assert_eq!(t.poll_to(2), Some("z"));
    assert_eq!(t.poll_to(2), Some("x"));
    assert_eq!(t.current(), 2);
    assert_eq!(t.poll_to(2), None);
    assert_eq!(t.current(), 3);
    assert_eq!(t.len_pending(), 1);
    let late = t.set_timeout_at(Duration::from_millis(200), "late").ok().unwrap();
    assert_eq!(late.tick(), 4);
    assert_eq!(t.poll_to(6), Some("late"));
    assert_eq!(t.poll_to(6), Some("y"));
}

#[test]
fn timer_registration_is_refused_when_it_does_not_fit() {
    assert!(check_registration(false, true).is_ok());
    assert!(check_registration(true, false).is_ok());
    let twice = check_registration(true, true).err().unwrap();
    assert_eq!(twice.kind(), std::io::ErrorKind::Other);
    assert_eq!(twice.to_string(), "timer alreay registered");
    let missing = check_registration(false, false).err().unwrap();
    assert_eq!(missing.kind(), std::io::ErrorKind::Other);
    assert_eq!(missing.to_string(), "receiver not register");
}

#[test]
fn next_tick_follows_new_and_skipped_timeouts() {
    let mut t: Timer<u8> = Timer::new(100, 4, 16, Instant::now());
    let a = t.set_timeout_at(Duration::from_millis(900), 1).ok().unwrap();
    assert_eq!(a.tick(), 9);
    assert_eq!(t.next_tick(), Some(9));
    let b = t.set_timeout_at(Duration::from_millis(500), 2).ok().unwrap();
    assert_eq!(b.tick(), 5);
    assert_eq!(t.next_tick(), Some(5));
    assert_eq!(t.poll_to(3), None);
    assert_eq!(t.next_tick(), Some(5));
    assert_eq!(t.poll_to(5), Some(2));
    assert_eq!(t.poll_to(5), None);
    assert_eq!(t.next_tick(), Some(9));
    assert_eq!(t.poll_to(9), Some(1));
    assert_eq!(t.poll_to(9), None);
    assert_eq!(t.next_tick(), Some(u64::MAX));
}

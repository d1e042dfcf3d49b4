use std::time::Duration;
use my_mio::event_imp::{Ready, PollOpt, TokenEntry, TokenType};
use my_mio::token::Token;
use my_mio::poll::queue::ReadinessQueue;
use my_mio::poll::lock::{LockStep, lock_step, release_wakes, remaining_timeout, after_interrupt, sleep_timeout};
use my_mio::poll::registration::new_registration;
use my_mio::sys::epoll::{select_timeout_ms, Interest};
use my_mio::channel::ReceiverCtl;

fn te(n: usize) -> TokenEntry {
    TokenEntry { ttype: TokenType::SocketEvent, token: Token(n) }
}

#[test]
fn free_lock_is_taken() {
    assert_eq!(lock_step(0, false, false), LockStep::Acquire { expected: 0, next: 1 });
    assert_eq!(lock_step(0, false, true), LockStep::Acquire { expected: 0, next: 1 });
    assert_eq!(lock_step(6, false, false), LockStep::Acquire { expected: 6, next: 7 });
}

#[test]
fn registered_waiter_stops_counting_when_it_takes_the_lock() {
    assert_eq!(lock_step(4, true, false), LockStep::Acquire { expected: 4, next: 3 });
    assert_eq!(lock_step(2, true, true), LockStep::Acquire { expected: 2, next: 1 });
}

#[test]
fn held_lock_makes_threads_register_then_wait() {
    assert_eq!(lock_step(1, false, false), LockStep::Register { expected: 1, next: 3 });
    assert_eq!(lock_step(3, true, false), LockStep::Wait);
}

#[test]
fn immediate_poll_gives_up_on_a_held_lock() {
    assert_eq!(lock_step(1, false, true), LockStep::GiveUp { withdraw: false });
    assert_eq!(lock_step(5, true, true), LockStep::GiveUp { withdraw: true });
}

#[test]
fn release_wakes_only_with_waiters() {
    assert!(!release_wakes(1));
    assert!(release_wakes(3));
    assert!(release_wakes(5));
}

#[test]
fn remaining_timeout_counts_down_to_zero() {
    assert_eq!(remaining_timeout(Duration::from_millis(100), Duration::from_millis(30)), Duration::from_millis(70));
    assert_eq!(remaining_timeout(Duration::from_millis(100), Duration::from_millis(100)), Duration::from_millis(0));
    assert_eq!(remaining_timeout(Duration::from_millis(100), Duration::from_millis(250)), Duration::from_millis(0));
}

#[test]
fn interrupted_select_retries_with_what_is_left() {
    assert_eq!(after_interrupt(None, Duration::from_millis(5)), Some(None));
    assert_eq!(after_interrupt(Some(Duration::from_millis(50)), Duration::from_millis(20)), Some(Some(Duration::from_millis(30))));
    assert_eq!(after_interrupt(Some(Duration::from_millis(50)), Duration::from_millis(50)), None);
    assert_eq!(after_interrupt(Some(Duration::from_millis(50)), Duration::from_millis(80)), None);
}

#[test]
fn empty_queue_lets_the_poller_sleep() {
    let mut q = ReadinessQueue::new();
    let t = sleep_timeout(&mut q, Some(Duration::from_millis(40)));
    assert_eq!(t, Some(Duration::from_millis(40)));
    let (_r, s) = new_registration(&mut q, te(1), Ready::readable(), PollOpt::edge());
    assert!(s.set_readiness(&mut q, Ready::readable()));
    let mut q2 = ReadinessQueue::new();
    assert_eq!(sleep_timeout(&mut q2, None), None);
}

#[test]
fn queued_readiness_makes_the_poll_immediate() {
    let mut q = ReadinessQueue::new();
    let (_r, s) = new_registration(&mut q, te(1), Ready::readable(), PollOpt::edge());
    s.set_readiness(&mut q, Ready::readable());
    let t = sleep_timeout(&mut q, Some(Duration::from_millis(40)));
    assert_eq!(t, Some(Duration::from_millis(0)));
}

#[test]
fn immediate_poll_leaves_the_queue_alone() {
    let mut q = ReadinessQueue::new();
    let t = sleep_timeout(&mut q, Some(Duration::from_millis(0)));
    assert_eq!(t, Some(Duration::from_millis(0)));
    let (_r, s) = new_registration(&mut q, te(1), Ready::readable(), PollOpt::edge());
    assert!(!s.set_readiness(&mut q, Ready::readable()));
}

#[test]
fn select_timeout_in_milliseconds() {
    assert_eq!(select_timeout_ms(None), -1);
    assert_eq!(select_timeout_ms(Some(Duration::from_millis(250))), 250);
    assert_eq!(select_timeout_ms(Some(Duration::from_micros(1))), 1);
    assert_eq!(select_timeout_ms(Some(Duration::from_secs(u64::MAX))), i32::MAX);
}

#[test]
fn interest_names() {
    assert_eq!(Interest::readable().describe(), "READABLE");
    assert_eq!(Interest::readable().add(Interest::writable()).describe(), "READABLE | WRITABLE");
    assert_eq!(Interest::writable().add(Interest::priority()).describe(), "WRITABLE | PRIORITY");
    assert_eq!(Interest::priority().add(Interest::readable()).add(Interest::writable()).describe(), "READABLE | WRITABLE | PRIORITY");
}

#[test]
fn receiver_registers_once() {
    let mut q = ReadinessQueue::new();
    let mut rx = ReceiverCtl::new();
    assert!(rx.reregister(&mut q, te(2), Ready::readable(), PollOpt::edge()).is_err());
    assert!(rx.deregister(&mut q).is_err());
    assert_eq!(rx.deregister(&mut q).err().unwrap().kind(), std::io::ErrorKind::Other);
    assert_eq!(rx.register(&mut q, te(2), Ready::readable(), PollOpt::edge()).ok(), Some(false));
    assert_eq!(q.num_nodes(), 1);
    assert!(rx.register(&mut q, te(3), Ready::readable(), PollOpt::edge()).is_err());
    assert_eq!(q.num_nodes(), 1);
    assert!(rx.reregister(&mut q, te(4), Ready::readable(), PollOpt::level()).is_ok());
    assert!(rx.deregister(&mut q).is_ok());
}

#[test]
fn first_message_makes_the_receiver_readable() {
    let mut q = ReadinessQueue::new();
    let mut rx = ReceiverCtl::new();
    rx.register(&mut q, te(2), Ready::readable(), PollOpt::edge()).ok().unwrap();
    assert!(q.prepare_for_sleep());
    assert!(rx.inc(&mut q));
    assert_eq!(q.readiness(0), Ready::readable());
    assert!(!rx.inc(&mut q));
    assert!(!rx.dec(&mut q));
    assert_eq!(q.readiness(0), Ready::readable());
    assert!(!rx.dec(&mut q));
    assert_eq!(q.readiness(0), Ready::empty());
}

#[test]
fn pending_messages_make_a_new_registration_readable() {
    let mut q = ReadinessQueue::new();
    let mut rx = ReceiverCtl::new();
    assert!(!rx.inc(&mut q));
    assert_eq!(q.num_nodes(), 0);
    rx.register(&mut q, te(7), Ready::readable(), PollOpt::edge()).ok().unwrap();
    assert_eq!(q.readiness(0), Ready::readable());
}

#[test]
fn last_sender_gone_wakes_the_receiver() {
    let mut q = ReadinessQueue::new();
    let mut rx = ReceiverCtl::new();
    rx.register(&mut q, te(2), Ready::readable(), PollOpt::edge()).ok().unwrap();
    rx.sender_cloned();
    rx.sender_dropped(&mut q);
    assert_eq!(q.readiness(0), Ready::empty());
    rx.sender_dropped(&mut q);
    assert_eq!(q.readiness(0), Ready::readable());
}

#[test]
fn released_receiver_node_is_discarded() {
    let mut q = ReadinessQueue::new();
    let mut rx = ReceiverCtl::new();
    rx.register(&mut q, te(5), Ready::readable(), PollOpt::edge()).ok().unwrap();
    assert!(!q.node(0).state.is_dropped());
    rx.release(&mut q);
    assert!(q.node(0).state.is_dropped());
    let unregistered = ReceiverCtl::new();
    assert!(!unregistered.release(&mut q));
}

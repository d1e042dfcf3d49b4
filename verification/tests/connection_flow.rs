use std::time::Duration;
use bytes::BytesMut;
use my_mio::event_imp::{Ready, PollOpt, TokenEntry, TokenType, EDGE, ONESHOT, opt_from_usize};
use my_mio::token::Token;
use my_mio::poll::queue::ReadyEntry;
use my_mio::net::connection::{
    TcpConnection, StateE, ReadOutcome, ReadAction, WriteOutcome, WriteAction, EventPlan, event_plan,
};
use my_mio::net::event_loop::{
    Config, Dispatch, dispatch_for, notify_registration, timer_registration, timer_for,
};
use my_mio::net::acceptor::{AcceptOutcome, accept_again, acceptor_registration};
use my_mio::net::tcp_server::{socket_registration, connector_registration};
use my_mio::timer::Timer;
use my_mio::deprecated::{target_of, Target, NOTIFY, TIMER};

fn connected() -> TcpConnection<u32> {
    let mut c = TcpConnection::new(7u32);
    c.set_state(StateE::Connected);
    c
}

#[test]
fn new_connection_is_connecting() {
    let c = TcpConnection::new(3u8);
    assert_eq!(c.tcp_stream, 3);
    assert!(!c.connected());
    assert!(!c.disconnected());
    assert!(!c.has_pending_writes());
}

#[test]
fn nothing_is_sent_before_connecting() {
    let mut c = TcpConnection::new(1u8);
    assert_eq!(c.queue_send(BytesMut::from(&b"abc"[..])), 0);
    assert!(c.begin_write().is_none());
    assert!(!c.has_pending_writes());
}

#[test]
fn empty_sends_queue_nothing() {
    let mut c = connected();
    assert_eq!(c.queue_send(BytesMut::new()), 0);
    assert!(c.begin_write().is_none());
}

#[test]
fn queued_bytes_go_out_in_order() {
    let mut c = connected();
    assert_eq!(c.queue_send(BytesMut::from(&b"hello "[..])), 6);
    assert_eq!(c.queue_send(BytesMut::from(&b"world"[..])), 5);
    assert!(c.has_pending_writes());
    let out = c.begin_write().unwrap();
    assert_eq!(&out[..], b"hello world");
}

#[test]
fn partial_write_goes_first_next_time() {
    let mut c = connected();
    c.queue_send(BytesMut::from(&b"abcdef"[..]));
    let mut out = c.begin_write().unwrap();
    let _written = out.split_to(2);
    assert_eq!(c.after_write(out, WriteOutcome::Wrote), WriteAction::Done);
    c.queue_send(BytesMut::from(&b"gh"[..]));
    assert!(c.has_pending_writes());
    let next = c.begin_write().unwrap();
    assert_eq!(&next[..], b"cdef");
    assert_eq!(c.after_write(BytesMut::new(), WriteOutcome::Wrote), WriteAction::Flushed);
    let last = c.begin_write().unwrap();
    assert_eq!(&last[..], b"gh");
}

#[test]
fn blocked_write_keeps_every_byte() {
    let mut c = connected();
    c.queue_send(BytesMut::from(&b"xyz"[..]));
    let out = c.begin_write().unwrap();
    assert_eq!(c.after_write(out, WriteOutcome::WouldBlock), WriteAction::Done);
    let again = c.begin_write().unwrap();
    assert_eq!(&again[..], b"xyz");
}

#[test]
fn full_write_asks_for_the_written_callback() {
    let mut c = connected();
    c.queue_send(BytesMut::from(&b"q"[..]));
    let mut out = c.begin_write().unwrap();
    let _ = out.split();
    assert_eq!(c.after_write(out, WriteOutcome::Wrote), WriteAction::Flushed);
    assert!(!c.has_pending_writes());
    assert!(c.begin_write().is_none());
}

#[test]
fn failed_write_drops_what_was_handed_out() {
    let mut c = connected();
    c.queue_send(BytesMut::from(&b"lost"[..]));
    let out = c.begin_write().unwrap();
    assert_eq!(c.after_write(out, WriteOutcome::Failed), WriteAction::Done);
    c.set_state(StateE::Disconnected);
    assert!(c.begin_write().is_none());
}

#[test]
fn reads_continue_until_blocked() {
    let mut c = connected();
    let mut buf = c.take_read_buffer().unwrap();
    buf.extend_from_slice(b"in");
    assert_eq!(c.after_read(buf, ReadOutcome::Read(2)), ReadAction::Again);
    let buf = c.take_read_buffer().unwrap();
    assert_eq!(&buf[..], b"in");
    assert!(c.take_read_buffer().is_none());
    assert_eq!(c.after_read(buf, ReadOutcome::WouldBlock), ReadAction::Stop);
    assert!(c.take_read_buffer().is_some());
}

#[test]
fn closed_peer_or_failed_read_closes() {
    let mut c = connected();
    let buf = c.take_read_buffer().unwrap();
    assert_eq!(c.after_read(buf, ReadOutcome::Read(0)), ReadAction::Close);
    assert!(c.take_read_buffer().is_some());
    let mut d = connected();
    let buf = d.take_read_buffer().unwrap();
    assert_eq!(d.after_read(buf, ReadOutcome::Failed), ReadAction::Close);
    assert!(d.take_read_buffer().is_none());
}

#[test]
fn close_and_hangup_disconnect() {
    let mut c = connected();
    c.on_readable();
    c.on_writable();
    c.handle_close();
    assert!(c.disconnected());
    let mut d = connected();
    d.set_enabled(false);
    d.on_hangup();
    assert!(d.disconnected());
    assert!(!d.connected());
}

#[test]
fn events_choose_handlers() {
    assert_eq!(event_plan(0b0001), EventPlan { read: true, write: false, hangup: false });
    assert_eq!(event_plan(0b0011), EventPlan { read: true, write: true, hangup: false });
    assert_eq!(event_plan(0b0100), EventPlan { read: false, write: false, hangup: true });
    assert_eq!(event_plan(0b1000), EventPlan { read: false, write: false, hangup: true });
    assert_eq!(event_plan(0), EventPlan { read: false, write: false, hangup: false });
}

#[test]
fn loop_registrations() {
    let n = notify_registration();
    assert_eq!(n.token, TokenEntry { ttype: TokenType::NotifyEvent, token: Token(0) });
    assert_eq!(n.interest, Ready::readable());
    assert_eq!(n.opt, opt_from_usize(EDGE | ONESHOT));
    let t = timer_registration();
    assert_eq!(t.token, TokenEntry { ttype: TokenType::TimersEvent, token: Token(0) });
    assert_eq!(t.opt, PollOpt::edge());
    let a = acceptor_registration();
    assert_eq!(a.token.ttype, TokenType::AcceptEvent);
    assert_eq!(a.interest, Ready::readable());
    let s = socket_registration(41);
    assert_eq!(s.token, TokenEntry { ttype: TokenType::SocketEvent, token: Token(42) });
    assert_eq!(s.interest, Ready::readable() | Ready::writable());
    assert_eq!(s.opt, PollOpt::edge());
    let k = connector_registration();
    assert_eq!(k.token, TokenEntry { ttype: TokenType::SocketEvent, token: Token(0) });
    assert_eq!(k.opt, PollOpt::edge() | PollOpt::oneshot());
}

#[test]
fn accept_loop_decisions() {
    assert!(accept_again(AcceptOutcome::Accepted));
    assert!(accept_again(AcceptOutcome::Interrupted));
    assert!(!accept_again(AcceptOutcome::WouldBlock));
    assert!(!accept_again(AcceptOutcome::Failed));
}

#[test]
fn polled_entries_are_dispatched() {
    let timer = ReadyEntry {
        token_entry: TokenEntry { ttype: TokenType::TimersEvent, token: Token(0) },
        ready: Ready::readable(),
        node: 0,
    };
    assert_eq!(dispatch_for(&timer), Dispatch::DrainTimers);
    let sock = ReadyEntry {
        token_entry: TokenEntry { ttype: TokenType::SocketEvent, token: Token(3) },
        ready: Ready::readable() | Ready::writable(),
        node: 1,
    };
    assert_eq!(dispatch_for(&sock), Dispatch::RunJob(3));
}

#[test]
fn loop_timer_follows_the_config() {
    let config = Config {
        notify_capacity: 16,
        messages_per_tick: 4,
        timer_tick: Duration::from_millis(50),
        timer_wheel_size: 10,
        timer_capacity: 20,
    };
    let mut t: Timer<u8> = timer_for(&config);
    assert_eq!(t.len_pending(), 0);
    let _a = t.set_timeout_at(Duration::from_millis(120), 5).ok().unwrap();
    assert_eq!(t.poll_to(2), None);
    assert_eq!(t.poll_to(3), Some(5));
}

#[test]
fn write_buffer_presence_and_waiting_length() {
    let mut c = connected();
    assert!(c.write_buffer_ready());
    assert_eq!(c.waiting_len(), 0);
    c.queue_send(BytesMut::from(&b"abcd"[..]));
    assert_eq!(c.waiting_len(), 4);
    let out = c.begin_write().unwrap();
    assert!(!c.write_buffer_ready());
    assert_eq!(c.waiting_len(), 0);
    c.after_write(out, WriteOutcome::Failed);
    assert!(!c.write_buffer_ready());
}

#[test]
fn older_loop_routes_tokens() {
    assert_eq!(target_of(Token(NOTIFY)), Target::Notify);
    assert_eq!(target_of(Token(TIMER)), Target::Timer);
    assert_eq!(target_of(Token(0)), Target::Io);
    assert_eq!(target_of(Token(usize::MAX)), Target::Io);
}

#[test]
fn buffer_length_counts_bytes() {
    assert_eq!(my_mio::net::connection::buffer_len(&BytesMut::from(&b"abc"[..])), 3);
    assert_eq!(my_mio::net::connection::buffer_len(&BytesMut::new()), 0);
}

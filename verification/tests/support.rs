use std::collections::HashMap;
use std::io::{Error, ErrorKind};
use my_mio::event_imp::{Ready, PollOpt, TokenEntry, TokenType};
use my_mio::token::Token;
use my_mio::io::{MapNonBlock, would_block};
use my_mio::lazycell::{LazyCell, AtomicLazyCell};
use my_mio::poll::ids::{IdAllocator, TokenAllocator, SelectorId, validate_args, AWAKEN};
use my_mio::sys::epoll::{self, EpollEvent, Events, Interest, ioevent_to_epoll, ready_from_epoll, interests_to_epoll};
use my_mio::sys::ready::UnixReady;
use my_mio::channel::{CtlState, SendError, format_send_error, TrySendError};
use my_mio::net::event_loop::{NotifyError, EventLoopBuilder, Config};
use my_mio::net::connection::StateE;

#[test]
fn map_non_block_turns_would_block_into_none() {
    let ok: Result<u8, Error> = Ok(3);
    assert_eq!(ok.map_non_block().unwrap(), Some(3));
    let wb: Result<u8, Error> = Err(would_block());
    assert_eq!(wb.map_non_block().unwrap(), None);
    let other: Result<u8, Error> = Err(Error::new(ErrorKind::Other, "x"));
    assert!(other.map_non_block().is_err());
    assert_eq!(would_block().kind(), ErrorKind::WouldBlock);
    assert_eq!(would_block().kind(), ErrorKind::WouldBlock);
}

#[test]
fn lazy_cell_fills_once() {
    let mut c: LazyCell<u32> = LazyCell::new();
    assert!(!c.filled());
    assert_eq!(c.borrow(), None);
    assert!(c.fill(1).is_ok());
    assert_eq!(c.fill(2), Err(2));
    assert_eq!(c.get(), Some(1));
    assert_eq!(c.replace(5), Some(1));
    *c.borrow_mut().unwrap() = 6;
    assert_eq!(c.into_inner(), Some(6));
}

#[test]
fn lazy_cell_borrow_with_fills_when_empty() {
    let mut c: LazyCell<u32> = LazyCell::new();
    assert_eq!(*c.borrow_with(|| 7), 7);
    assert_eq!(*c.borrow_with(|| 8), 7);
    let mut d: LazyCell<u32> = LazyCell::new();
    *d.borrow_mut_with(|| 1) += 1;
    assert_eq!(d.get(), Some(2));
    let mut e: LazyCell<u32> = LazyCell::new();
    let r: Result<&u32, &str> = e.try_borrow_with(|| Err("no"));
    assert_eq!(r, Err("no"));
    assert!(!e.filled());
    assert_eq!(*e.try_borrow_with::<&str, _>(|| Ok(4)).unwrap(), 4);
    let mut f: LazyCell<u32> = LazyCell::new();
    *f.try_borrow_mut_with::<(), _>(|| Ok(9)).unwrap() += 1;
    assert_eq!(f.get(), Some(10));
}

#[test]
fn atomic_lazy_cell_fills_once() {
    let mut c: AtomicLazyCell<u32> = AtomicLazyCell::new();
    assert!(!c.filled());
    assert_eq!(c.get(), None);
    assert!(c.fill(1).is_ok());
    assert_eq!(c.fill(2), Err(2));
    assert_eq!(c.borrow(), Some(&1));
    assert_eq!(c.replace(3), Some(1));
    assert_eq!(c.into_inner(), Some(3));
}

#[test]
fn id_allocator_reuses_last_freed() {
    let mut ids = IdAllocator::new();
    assert_eq!(ids.allocate(), 0);
    assert_eq!(ids.allocate(), 1);
    ids.kill(0);
    assert_eq!(ids.allocate(), 0);
    assert_eq!(ids.allocate(), 2);
}

#[test]
fn token_allocator_roundtrip() {
    let mut t = TokenAllocator::new();
    let id = t.allocate(TokenType::TimersEvent, Token(5));
    assert_eq!(t.get(id), TokenEntry { ttype: TokenType::TimersEvent, token: Token(5) });
    t.dealloc(id);
    assert_eq!(t.get_entry(id), None);
    let id2 = t.allocate(TokenType::SocketEvent, Token(6));
    assert_eq!(id2, id);
}

#[test]
fn validate_args_refuses_awaken() {
    assert!(validate_args(Token(AWAKEN)).is_err());
    assert!(validate_args(Token(1)).is_ok());
    assert_eq!(validate_args(Token(AWAKEN)).err().unwrap().kind(), ErrorKind::Other);
}

#[test]
fn selector_id_associates_once() {
    let mut s = SelectorId::new();
    assert!(s.associate_selector(3).is_ok());
    assert!(s.associate_selector(3).is_ok());
    assert!(s.associate_selector(4).is_err());
    assert_eq!(s.associate_selector(5).err().unwrap().kind(), ErrorKind::Other);
    assert!(s.associate_selector(3).is_ok());
    let c = s.clone();
    let mut c2 = c;
    assert!(c2.associate_selector(4).is_err());
}

#[test]
fn epoll_flags_from_interest() {
    assert_eq!(ioevent_to_epoll(Ready::readable(), PollOpt::edge()), 0x1 | 0x8000_0000);
    assert_eq!(ioevent_to_epoll(Ready::writable(), PollOpt::edge() | PollOpt::level()), 0x4);
    assert_eq!(ioevent_to_epoll(Ready::readable() | Ready::writable(), PollOpt::oneshot()), 0x5 | 0x4000_0000);
    assert_eq!(ioevent_to_epoll(UnixReady::priority(), PollOpt::empty()), 0x2);
    assert!(UnixReady(UnixReady::priority()).is_priority());
}

#[test]
fn readiness_from_epoll_flags() {
    assert_eq!(ready_from_epoll(0x1).bits(), 1);
    assert_eq!(ready_from_epoll(0x4).bits(), 2);
    assert_eq!(ready_from_epoll(0x2).bits(), 1 | 0x48);
    assert_eq!(ready_from_epoll(0x8 | 0x10).bits(), 4 | 8);
    assert_eq!(UnixReady::error().bits(), 4);
    assert_eq!(UnixReady::hup().bits(), 8);
}

#[test]
fn epoll_event_predicates() {
    let ev = EpollEvent { events: 0x1 | 0x2000, data: 11 };
    assert_eq!(epoll::token(&ev), Token(11));
    assert!(epoll::is_readable(&ev));
    assert!(!epoll::is_writable(&ev));
    assert!(epoll::is_read_closed(&ev));
    assert!(!epoll::is_write_closed(&ev));
    assert!(!epoll::is_error(&ev));
    assert!(!epoll::is_priority(&ev));
    let err = EpollEvent { events: 0x8, data: 0 };
    assert!(epoll::is_write_closed(&err));
    assert!(epoll::is_error(&err));
    let hup = EpollEvent { events: 0x10, data: 0 };
    assert!(epoll::is_read_closed(&hup));
    assert!(epoll::is_write_closed(&hup));
}

#[test]
fn interest_sets() {
    let rw = Interest::readable().add(Interest::writable());
    assert!(rw.is_readable());
    assert!(rw.is_writable());
    assert!(!rw.is_priority());
    let r = rw.remove(Interest::writable()).unwrap();
    assert!(r.is_readable() && !r.is_writable());
    assert!(r.remove(Interest::readable()).is_none());
    assert_eq!(interests_to_epoll(Interest::readable()), 0x8000_0000 | 0x1 | 0x2000);
    assert_eq!(interests_to_epoll(Interest::writable().add(Interest::priority())), 0x8000_0000 | 0x4 | 0x2);
}

#[test]
fn select_entries_maps_descriptors() {
    let mut map: HashMap<i32, TokenEntry> = HashMap::new();
    map.insert(5, TokenEntry { ttype: TokenType::SocketEvent, token: Token(1) });
    map.insert(6, TokenEntry { ttype: TokenType::NotifyEvent, token: Token(0) });
    let mut evs = Events::with_capacity(8);
    evs.push_raw(EpollEvent { events: 0x1, data: 5 });
    evs.push_raw(EpollEvent { events: 0x1, data: 6 });
    evs.push_raw(EpollEvent { events: 0x4, data: 9 });
    assert!(evs.select_entries(&map));
    assert_eq!(evs.len(), 1);
    let e = evs.get(0).unwrap();
    assert_eq!(e.token_entry.token, Token(1));
    assert_eq!(e.ready, Ready::readable());
    assert_eq!(evs.get_ready(1), Some(Ready::writable()));
    assert_eq!(evs.get_ready(2), None);
    assert!(evs.capacity() >= 1);
    evs.clear();
    assert!(evs.is_empty());
    evs.push_event(Ready::readable(), TokenEntry { ttype: TokenType::TimersEvent, token: Token(3) }, 0);
    assert_eq!(evs.get(0).unwrap().ready, Ready::empty());
    assert_eq!(evs.get_ready(0), Some(Ready::readable()));
}

#[test]
fn channel_counters_signal_readiness() {
    let mut c = CtlState::ctl_pair();
    assert_eq!(c.inc(), Some(Ready::readable()));
    assert_eq!(c.inc(), None);
    assert_eq!(c.dec(), None);
    assert_eq!(c.dec(), Some(Ready::empty()));
    c.sender_cloned();
    assert_eq!(c.sender_dropped(), None);
    assert_eq!(c.sender_dropped(), Some(Ready::readable()));
}

#[test]
fn send_error_text() {
    let e: SendError<u8> = SendError::Disconnected(1);
    assert_eq!(format_send_error(&e), "Disconnected");
    let io: SendError<u8> = SendError::Io(Error::new(ErrorKind::Other, "boom"));
    assert_eq!(format_send_error(&io), "boom");
}

#[test]
fn notify_error_from_try_send_error() {
    let full: NotifyError<u8> = NotifyError::from(TrySendError::Full(1));
    assert!(matches!(full, NotifyError::Full(1)));
    assert_eq!(full.description(), "Queue is full");
    let closed: NotifyError<u8> = NotifyError::from(TrySendError::Disconnected(2));
    assert!(matches!(closed, NotifyError::Closed(Some(2))));
    assert_eq!(closed.description(), "The receiving end has hung up");
    let io: NotifyError<u8> = NotifyError::from(TrySendError::Io(Error::new(ErrorKind::Other, "e")));
    assert!(matches!(io, NotifyError::Io(_)));
}

#[test]
fn event_loop_builder_sets_config() {
    let mut b = EventLoopBuilder::new();
    b.notify_capacity(8).messages_per_tick(4).timer_wheel_size(16).timer_capacity(32)
        .timer_tick(std::time::Duration::from_millis(5));
    assert_eq!(b.config.notify_capacity, 8);
    assert_eq!(b.config.messages_per_tick, 4);
    assert_eq!(b.config.timer_wheel_size, 16);
    assert_eq!(b.config.timer_capacity, 32);
    assert_eq!(b.config.timer_tick, std::time::Duration::from_millis(5));
    let d = Config::default();
    assert_eq!(d.notify_capacity, 4096);
    assert_eq!(d.timer_tick, std::time::Duration::from_millis(100));
    assert_ne!(StateE::Connected, StateE::Disconnected);
}

#[test]
fn handed_out_ids_are_never_live() {
    let mut ta = TokenAllocator::new();
    let a = ta.allocate(TokenType::SocketEvent, Token(1));
    let b = ta.allocate(TokenType::SocketEvent, Token(2));
    assert_ne!(a, b);
    ta.dealloc(a);
    let c = ta.allocate(TokenType::TimersEvent, Token(3));
    assert_eq!(c, a);
    assert_ne!(c, b);
    let d = ta.allocate(TokenType::TimersEvent, Token(4));
    assert!(d != b && d != c);
    assert_eq!(ta.get_entry(b), Some(TokenEntry { ttype: TokenType::SocketEvent, token: Token(2) }));
}

#[test]
fn live_ids_never_collide() {
    let mut a = IdAllocator::new();
    let x = a.allocate();
    let y = a.allocate();
    let z = a.allocate();
    assert_eq!((x, y, z), (0, 1, 2));
    a.kill(y);
    let w = a.allocate();
    assert_eq!(w, 1);
    let v = a.allocate();
    assert_eq!(v, 3);
    let live = [x, z, w, v];
    for i in 0..live.len() {
        for j in 0..live.len() {
            if i != j {
                assert_ne!(live[i], live[j]);
            }
        }
    }
}

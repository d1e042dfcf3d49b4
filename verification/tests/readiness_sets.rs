use my_mio::event_imp::{Ready, PollOpt, Event, ready_as_usize, ready_from_usize, opt_as_usize, opt_from_usize};
use my_mio::token::Token;

#[test]
fn ready_constructors_have_their_bits() {
    assert_eq!(Ready::empty().bits(), 0);
    assert_eq!(Ready::none().bits(), 0);
    assert_eq!(Ready::readable().bits(), 1);
    assert_eq!(Ready::writable().bits(), 2);
    assert_eq!(Ready::error().bits(), 4);
    assert_eq!(Ready::hup().bits(), 8);
    assert_eq!(Ready::all().bits(), 0x6f);
}

#[test]
fn ready_queries() {
    let r = Ready::readable() | Ready::hup();
    assert!(r.is_readable());
    assert!(!r.is_writable());
    assert!(!r.is_error());
    assert!(r.is_hup());
    assert!(!r.is_empty());
    assert!(Ready::empty().is_empty());
    assert!(Ready::none().is_none());
    assert!(r.contains(Ready::hup()));
    assert!(!r.contains(Ready::writable() | Ready::readable()));
}

#[test]
fn ready_insert_then_contains_and_remove_clears() {
    let mut r = Ready::readable();
    r.insert(Ready::writable());
    assert!(r.contains(Ready::writable()));
    assert!(r.contains(Ready::readable()));
    r.remove(Ready::readable());
    assert!(!r.is_readable());
    assert!(r.is_writable());
    assert_eq!(r.as_usize(), 2);
}

#[test]
fn ready_insert_remove_same_set() {
    let mut a = Ready::from_usize(0b1010);
    a.insert(Ready::readable());
    a.remove(Ready::readable());
    let mut b = Ready::from_usize(0b1010);
    b.remove(Ready::readable());
    assert_eq!(a, b);
}

#[test]
fn ready_and_or() {
    assert_eq!((Ready::readable() | Ready::writable()).bits(), 3);
    assert_eq!((Ready::from_usize(0b111) & Ready::from_usize(0b101)).bits(), 0b101);
}

#[test]
fn ready_usize_roundtrip() {
    let r = ready_from_usize(13);
    assert_eq!(ready_as_usize(r), 13);
    assert_eq!(ready_from_usize(ready_as_usize(Ready::hup())), Ready::hup());
}

#[test]
fn poll_opt_values() {
    assert_eq!(PollOpt::empty().bits(), 0);
    assert_eq!(PollOpt::edge().bits(), 1);
    assert_eq!(PollOpt::level().bits(), 2);
    assert_eq!(PollOpt::oneshot().bits(), 4);
    assert_eq!(PollOpt::urgent().bits(), 8);
    assert_eq!(PollOpt::all().bits(), 7);
    let o = PollOpt::edge() | PollOpt::oneshot();
    assert!(o.is_edge());
    assert!(o.is_oneshot());
    assert!(!o.is_level());
    assert!(!o.is_urgent());
    assert!(o.contains(PollOpt::edge()));
    assert_eq!(opt_as_usize(opt_from_usize(6)), 6);
}

#[test]
fn poll_opt_insert_remove() {
    let mut o = PollOpt::empty();
    o.insert(PollOpt::level());
    assert!(o.is_level());
    o.remove(PollOpt::level());
    assert_eq!(o, PollOpt::empty());
}

#[test]
fn event_keeps_kind_and_token() {
    let e = Event::new(Ready::writable(), Token(7));
    assert_eq!(e.readiness(), Ready::writable());
    assert_eq!(e.kind(), Ready::writable());
    assert_eq!(e.token(), Token(7));
}

#[test]
fn token_usize_conversions() {
    let t: Token = Token::from(42usize);
    assert_eq!(t, Token(42));
    let u: usize = usize::from(Token(9));
    assert_eq!(u, 9);
}

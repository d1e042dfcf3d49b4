use vstd::prelude::*;
use vstd::string::StringExecFns;
use std::collections::HashMap;
use crate::token::Token;
use crate::event_imp::{Ready, PollOpt, TokenEntry, TokenType, bits_contain, READABLE, WRITABLE, EDGE, LEVEL, ONESHOT};
use crate::sys::ready::{PRI, ERROR, HUP, UnixReady};
use crate::poll::queue::ReadyEntry;
use std::time::Duration;
use crate::sys::duration::{millis, millis_spec, duration_secs, duration_nanos};

verus! {

broadcast use vstd::std_specs::hash::group_hash_axioms;

/// `libc::EPOLLIN`, which libc defines as 0x1.
#[verifier::external_body]
fn epoll_in() -> (r: i32)
    ensures
        r == 0x1,
{
    libc::EPOLLIN
}

/// `libc::EPOLLPRI`, which libc defines as 0x2.
#[verifier::external_body]
fn epoll_pri() -> (r: i32)
    ensures
        r == 0x2,
{
    libc::EPOLLPRI
}

/// `libc::EPOLLOUT`, which libc defines as 0x4.
#[verifier::external_body]
fn epoll_out() -> (r: i32)
    ensures
        r == 0x4,
{
    libc::EPOLLOUT
}

/// `libc::EPOLLERR`, which libc defines as 0x8.
#[verifier::external_body]
fn epoll_err() -> (r: i32)
    ensures
        r == 0x8,
{
    libc::EPOLLERR
}

/// `libc::EPOLLHUP`, which libc defines as 0x10.
#[verifier::external_body]
fn epoll_hup() -> (r: i32)
    ensures
        r == 0x10,
{
    libc::EPOLLHUP
}

/// `libc::EPOLLRDHUP`, which libc defines as 0x2000.
#[verifier::external_body]
fn epoll_rdhup() -> (r: i32)
    ensures
        r == 0x2000,
{
    libc::EPOLLRDHUP
}

/// `libc::EPOLLONESHOT`, which libc defines as 0x4000_0000.
#[verifier::external_body]
fn epoll_oneshot() -> (r: i32)
    ensures
        r == 0x4000_0000,
{
    libc::EPOLLONESHOT
}

/// `libc::EPOLLET`, which libc defines as 0x8000_0000 read as a `c_int`.
#[verifier::external_body]
fn epoll_et() -> (r: i32)
    ensures
        r == i32::MIN,
{
    libc::EPOLLET
}

/// A flag as the `u32` that goes into an epoll event.
fn flag(f: i32) -> (r: u32)
    requires
        f == 0x1 || f == 0x2 || f == 0x4 || f == 0x8 || f == 0x10 || f == 0x2000 || f == 0x4000_0000 || f == i32::MIN,
    ensures
        f >= 0 ==> r == f,
        f == i32::MIN ==> r == 0x8000_0000,
{
    assert(f == i32::MIN ==> (f as u32) == 0x8000_0000u32) by (bit_vector);
    f as u32
}

pub const IN_BIT: u32 = 0x1;
pub const PRI_BIT: u32 = 0x2;
pub const OUT_BIT: u32 = 0x4;
pub const ERR_BIT: u32 = 0x8;
pub const HUP_BIT: u32 = 0x10;
pub const RDHUP_BIT: u32 = 0x2000;
pub const ONESHOT_BIT: u32 = 0x4000_0000;
pub const ET_BIT: u32 = 0x8000_0000;

/// One event as epoll reports it: its flags and its data word.
#[derive(Clone, Copy, Debug, PartialEq, Eq, Structural)]
pub struct EpollEvent {
    pub events: u32,
    pub data: u64,
}

pub open spec fn bit_if(c: bool, b: u32) -> u32 {
    if c {
        b
    } else {
        0
    }
}

/// The epoll flags for a registration with `interest` and `opts`:
/// edge-triggered unless level is asked for too.
pub open spec fn ioevent_bits(interest: usize, opts: usize) -> u32 {
    bit_if(bits_contain(interest, READABLE), IN_BIT) | bit_if(bits_contain(interest, WRITABLE), OUT_BIT)
        | bit_if(bits_contain(interest, PRI), PRI_BIT)
        | bit_if(bits_contain(opts, EDGE) && !bits_contain(opts, LEVEL), ET_BIT)
        | bit_if(bits_contain(opts, ONESHOT), ONESHOT_BIT)
}

/// The epoll flags for a registration with `interest` and `opts`.
pub fn ioevent_to_epoll(interest: Ready, opts: PollOpt) -> (r: u32)
    ensures
        r == ioevent_bits(interest@, opts@),
{
    let i_in = flag(epoll_in());
    let i_out = flag(epoll_out());
    let i_pri = flag(epoll_pri());
    let i_et = flag(epoll_et());
    let i_one = flag(epoll_oneshot());
    let mut kind: u32 = 0;
    if interest.is_readable() {
        kind = kind | i_in;
    }
    if interest.is_writable() {
        kind = kind | i_out;
    }
    if UnixReady(interest).is_priority() {
        kind = kind | i_pri;
    }
    if opts.is_edge() {
        kind = kind | i_et;
    }
    if opts.is_level() {
        kind = kind & !i_et;
    }
    if opts.is_oneshot() {
        kind = kind | i_one;
    }
    proof {
        let a = bits_contain(interest@, READABLE);
        let b = bits_contain(interest@, WRITABLE);
        let c = bits_contain(interest@, PRI);
        let d = bits_contain(opts@, EDGE);
        let e = bits_contain(opts@, LEVEL);
        let f = bits_contain(opts@, ONESHOT);
        let k1: u32 = if a { 0u32 | 1u32 } else { 0 };
        let k2: u32 = if b { k1 | 4 } else { k1 };
        let k3: u32 = if c { k2 | 2 } else { k2 };
        let k4: u32 = if d { k3 | 0x8000_0000 } else { k3 };
        let k5: u32 = if e { k4 & !0x8000_0000u32 } else { k4 };
        let k6: u32 = if f { k5 | 0x4000_0000 } else { k5 };
        assert(k6 == (if a { 1u32 } else { 0u32 }) | (if b { 4u32 } else { 0u32 }) | (if c { 2u32 } else { 0u32 })
            | (if d && !e { 0x8000_0000u32 } else { 0u32 }) | (if f { 0x4000_0000u32 } else { 0u32 })) by (bit_vector)
            requires
                k1 == (if a { 0u32 | 1u32 } else { 0u32 }),
                k2 == (if b { k1 | 4u32 } else { k1 }),
                k3 == (if c { k2 | 2u32 } else { k2 }),
                k4 == (if d { k3 | 0x8000_0000u32 } else { k3 }),
                k5 == (if e { k4 & !0x8000_0000u32 } else { k4 }),
                k6 == (if f { k5 | 0x4000_0000u32 } else { k5 }),
        ;
        assert(kind == k6);
    }
    kind
}

/// The readiness that the flags `ev` report.
pub open spec fn ready_bits(ev: u32) -> usize {
    (if ev & IN_BIT != 0 { READABLE } else { 0usize }) | (if ev & OUT_BIT != 0 { WRITABLE } else { 0usize })
        | (if ev & PRI_BIT != 0 { READABLE | PRI } else { 0usize }) | (if ev & ERR_BIT != 0 { ERROR } else { 0usize })
        | (if ev & HUP_BIT != 0 { HUP } else { 0usize })
}

/// Each epoll flag stands for its own kinds of readiness: input for
/// readable, output for writable, error, hang-up, and priority input for
/// readable and priority; nothing else is reported.
pub proof fn law_ready_bits_per_flag(ev: u32)
    ensures
        bits_contain(ready_bits(ev), READABLE) == (ev & IN_BIT != 0 || ev & PRI_BIT != 0),
        bits_contain(ready_bits(ev), WRITABLE) == (ev & OUT_BIT != 0),
        bits_contain(ready_bits(ev), ERROR) == (ev & ERR_BIT != 0),
        bits_contain(ready_bits(ev), HUP) == (ev & HUP_BIT != 0 || ev & PRI_BIT != 0),
        bits_contain(ready_bits(ev), PRI) == (ev & PRI_BIT != 0),
        bits_contain(ready_bits(ev), 0x40) == (ev & PRI_BIT != 0),
        ready_bits(ev) & !0x4fusize == 0,
{
    let a = ev & 1 != 0;
    let b = ev & 4 != 0;
    let c = ev & 2 != 0;
    let d = ev & 8 != 0;
    let e = ev & 0x10 != 0;
    let r = ready_bits(ev);
    assert(r == (if a { 1usize } else { 0usize }) | (if b { 2usize } else { 0usize })
        | (if c { 1usize | 0x48usize } else { 0usize }) | (if d { 4usize } else { 0usize })
        | (if e { 8usize } else { 0usize }));
    assert({
        &&& (r & 1 == 1) == (a || c)
        &&& (r & 2 == 2) == b
        &&& (r & 4 == 4) == d
        &&& (r & 8 == 8) == (e || c)
        &&& (r & 0x48 == 0x48) == c
        &&& (r & 0x40 == 0x40) == c
        &&& r & !0x4fusize == 0
    }) by (bit_vector)
        requires
            r == (if a { 1usize } else { 0usize }) | (if b { 2usize } else { 0usize })
                | (if c { 1usize | 0x48usize } else { 0usize }) | (if d { 4usize } else { 0usize })
                | (if e { 8usize } else { 0usize }),
    ;
}

/// The readiness reported for two sets of flags together is what each
/// reports, together.
pub proof fn law_ready_bits_union(a: u32, b: u32)
    ensures
        ready_bits(a | b) == ready_bits(a) | ready_bits(b),
{
    law_ready_bits_per_flag(a);
    law_ready_bits_per_flag(b);
    law_ready_bits_per_flag(a | b);
    let x = ready_bits(a);
    let y = ready_bits(b);
    let z = ready_bits(a | b);
    assert(((a | b) & 1 != 0) == (a & 1 != 0 || b & 1 != 0)
        && ((a | b) & 2 != 0) == (a & 2 != 0 || b & 2 != 0)
        && ((a | b) & 4 != 0) == (a & 4 != 0 || b & 4 != 0)
        && ((a | b) & 8 != 0) == (a & 8 != 0 || b & 8 != 0)
        && ((a | b) & 0x10 != 0) == (a & 0x10 != 0 || b & 0x10 != 0)) by (bit_vector);
    assert(z == x | y) by (bit_vector)
        requires
            (x & 1 == 1) == (a & 1 != 0 || a & 2 != 0),
            (x & 2 == 2) == (a & 4 != 0),
            (x & 4 == 4) == (a & 8 != 0),
            (x & 8 == 8) == (a & 0x10 != 0 || a & 2 != 0),
            (x & 0x40 == 0x40) == (a & 2 != 0),
            x & !0x4fusize == 0,
            (y & 1 == 1) == (b & 1 != 0 || b & 2 != 0),
            (y & 2 == 2) == (b & 4 != 0),
            (y & 4 == 4) == (b & 8 != 0),
            (y & 8 == 8) == (b & 0x10 != 0 || b & 2 != 0),
            (y & 0x40 == 0x40) == (b & 2 != 0),
            y & !0x4fusize == 0,
            (z & 1 == 1) == ((a | b) & 1 != 0 || (a | b) & 2 != 0),
            (z & 2 == 2) == ((a | b) & 4 != 0),
            (z & 4 == 4) == ((a | b) & 8 != 0),
            (z & 8 == 8) == ((a | b) & 0x10 != 0 || (a | b) & 2 != 0),
            (z & 0x40 == 0x40) == ((a | b) & 2 != 0),
            z & !0x4fusize == 0,
            ((a | b) & 1 != 0) == (a & 1 != 0 || b & 1 != 0),
            ((a | b) & 2 != 0) == (a & 2 != 0 || b & 2 != 0),
            ((a | b) & 4 != 0) == (a & 4 != 0 || b & 4 != 0),
            ((a | b) & 8 != 0) == (a & 8 != 0 || b & 8 != 0),
            ((a | b) & 0x10 != 0) == (a & 0x10 != 0 || b & 0x10 != 0),
    ;
}

/// The readiness that the flags `ev` report.
pub fn ready_from_epoll(ev: u32) -> (r: Ready)
    ensures
        r@ == ready_bits(ev),
        bits_contain(r@, READABLE) == (ev & IN_BIT != 0 || ev & PRI_BIT != 0),
        bits_contain(r@, WRITABLE) == (ev & OUT_BIT != 0),
        bits_contain(r@, ERROR) == (ev & ERR_BIT != 0),
        bits_contain(r@, HUP) == (ev & HUP_BIT != 0 || ev & PRI_BIT != 0),
        bits_contain(r@, PRI) == (ev & PRI_BIT != 0),
        r@ & !0x4fusize == 0,
{
    let mut kind = Ready::empty();
    if ev & flag(epoll_in()) != 0 {
        kind = kind | Ready::readable();
    }
    if ev & flag(epoll_out()) != 0 {
        kind = kind | Ready::writable();
    }
    if ev & flag(epoll_pri()) != 0 {
        kind = kind | Ready::readable() | UnixReady::priority();
    }
    if ev & flag(epoll_err()) != 0 {
        kind = kind | UnixReady::error();
    }
    if ev & flag(epoll_hup()) != 0 {
        kind = kind | UnixReady::hup();
    }
    proof {
        let a = ev & 1 != 0;
        let b = ev & 4 != 0;
        let c = ev & 2 != 0;
        let d = ev & 8 != 0;
        let e = ev & 0x10 != 0;
        let k1: usize = if a { 0usize | 1usize } else { 0 };
        let k2: usize = if b { k1 | 2 } else { k1 };
        let k3: usize = if c { (k2 | 1) | 0x48 } else { k2 };
        let k4: usize = if d { k3 | 4 } else { k3 };
        let k5: usize = if e { k4 | 8 } else { k4 };
        assert(k5 == (if a { 1usize } else { 0usize }) | (if b { 2usize } else { 0usize })
            | (if c { 1usize | 0x48usize } else { 0usize }) | (if d { 4usize } else { 0usize })
            | (if e { 8usize } else { 0usize })) by (bit_vector)
            requires
                k1 == (if a { 0usize | 1usize } else { 0usize }),
                k2 == (if b { k1 | 2usize } else { k1 }),
                k3 == (if c { (k2 | 1usize) | 0x48usize } else { k2 }),
                k4 == (if d { k3 | 4usize } else { k3 }),
                k5 == (if e { k4 | 8usize } else { k4 }),
        ;
        assert(kind@ == k5);
        law_ready_bits_per_flag(ev);
    }
    kind
}

impl UnixReady {
    pub fn priority() -> (r: Ready)
        ensures
            r@ == PRI,
    {
        Ready(PRI)
    }

    pub fn error() -> (r: Ready)
        ensures
            r@ == ERROR,
    {
        Ready(ERROR)
    }

    pub fn hup() -> (r: Ready)
        ensures
            r@ == HUP,
    {
        Ready(HUP)
    }

    pub fn is_priority(&self) -> (r: bool)
        ensures
            r == bits_contain(self.0@, PRI),
    {
        self.0.contains(Ready(PRI))
    }
}

/// The token that an event carries in its data word.
pub fn token(event: &EpollEvent) -> (r: Token)
    ensures
        r.0 == event.data as usize,
{
    Token(event.data as usize)
}

pub fn is_readable(event: &EpollEvent) -> (r: bool)
    ensures
        r == (event.events & IN_BIT != 0 || event.events & PRI_BIT != 0),
{
    (event.events & flag(epoll_in())) != 0 || (event.events & flag(epoll_pri())) != 0
}

pub fn is_writable(event: &EpollEvent) -> (r: bool)
    ensures
        r == (event.events & OUT_BIT != 0),
{
    event.events & flag(epoll_out()) != 0
}

pub fn is_error(event: &EpollEvent) -> (r: bool)
    ensures
        r == (event.events & ERR_BIT != 0),
{
    event.events & flag(epoll_err()) != 0
}

/// Hang-up, or readable with the peer's write side shut.
pub fn is_read_closed(event: &EpollEvent) -> (r: bool)
    ensures
        r == (event.events & HUP_BIT != 0 || (event.events & IN_BIT != 0 && event.events & RDHUP_BIT != 0)),
{
    event.events & flag(epoll_hup()) != 0 || (event.events & flag(epoll_in()) != 0
        && event.events & flag(epoll_rdhup()) != 0)
}

/// Hang-up, writable with an error, or an error alone.
pub fn is_write_closed(event: &EpollEvent) -> (r: bool)
    ensures
        r == (event.events & HUP_BIT != 0 || (event.events & OUT_BIT != 0 && event.events & ERR_BIT != 0)
            || event.events == ERR_BIT),
{
    event.events & flag(epoll_hup()) != 0 || (event.events & flag(epoll_out()) != 0
        && event.events & flag(epoll_err()) != 0) || event.events == flag(epoll_err())
}

pub fn is_priority(event: &EpollEvent) -> (r: bool)
    ensures
        r == (event.events & PRI_BIT != 0),
{
    event.events & flag(epoll_pri()) != 0
}

pub const INTEREST_READABLE: u8 = 0b0001;
pub const INTEREST_WRITABLE: u8 = 0b0010;
pub const INTEREST_PRIORITY: u8 = 0b0100;

/// A non-empty set of interests: readable, writable, priority.
#[derive(Clone, Copy, Debug, PartialEq, Eq, Structural)]
pub struct Interest(u8);

impl View for Interest {
    type V = u8;

    closed spec fn view(&self) -> u8 {
        self.0
    }
}

impl Interest {
    #[verifier::type_invariant]
    closed spec fn nonzero(self) -> bool {
        self.0 != 0
    }

    pub fn readable() -> (r: Interest)
        ensures
            r@ == INTEREST_READABLE,
    {
        Interest(INTEREST_READABLE)
    }

    pub fn writable() -> (r: Interest)
        ensures
            r@ == INTEREST_WRITABLE,
    {
        Interest(INTEREST_WRITABLE)
    }

    pub fn priority() -> (r: Interest)
        ensures
            r@ == INTEREST_PRIORITY,
    {
        Interest(INTEREST_PRIORITY)
    }

    /// Both sets of interests.
    pub fn add(self, other: Interest) -> (r: Interest)
        ensures
            r@ == self@ | other@,
    {
        proof {
            use_type_invariant(&self);
            let a = self.0;
            let b = other.0;
            assert(a != 0 ==> a | b != 0) by (bit_vector);
        }
        Interest(self.0 | other.0)
    }

    /// The interests of `self` that are not in `other`; `None` when none
    /// are left.
    pub fn remove(self, other: Interest) -> (r: Option<Interest>)
        ensures
            match r {
                Some(i) => i@ == self@ & !other@ && i@ != 0,
                None => self@ & !other@ == 0,
            },
    {
        let v = self.0 & !other.0;
        if v == 0 {
            None
        } else {
            Some(Interest(v))
        }
    }

    pub fn is_readable(self) -> (r: bool)
        ensures
            r == (self@ & INTEREST_READABLE != 0),
    {
        (self.0 & INTEREST_READABLE) != 0
    }

    pub fn is_writable(self) -> (r: bool)
        ensures
            r == (self@ & INTEREST_WRITABLE != 0),
    {
        (self.0 & INTEREST_WRITABLE) != 0
    }

    pub fn is_priority(self) -> (r: bool)
        ensures
            r == (self@ & INTEREST_PRIORITY != 0),
    {
        (self.0 & INTEREST_PRIORITY) != 0
    }

    /// The names of the interests, in the order readable, writable,
    /// priority, joined by " | ".
    pub fn describe(self) -> (r: String)
        ensures
            r@ == interest_text(self@),
    {
        proof {
            reveal_strlit("READABLE");
            reveal_strlit("WRITABLE");
            reveal_strlit("PRIORITY");
        }
        let mut text = String::new();
        let mut one = false;
        if self.is_readable() {
            text.append("READABLE");
            one = true;
        }
        if self.is_writable() {
            if one {
                text.append(" | ");
            }
            text.append("WRITABLE");
            one = true;
        }
        if self.is_priority() {
            if one {
                text.append(" | ");
            }
            text.append("PRIORITY");
        }
        text
    }
}

/// `acc` with `name` added when `on`, after " | " when `acc` holds a name.
pub open spec fn with_name(acc: Seq<char>, on: bool, name: Seq<char>) -> Seq<char> {
    if !on {
        acc
    } else if acc.len() == 0 {
        name
    } else {
        acc + " | "@ + name
    }
}

/// The names of the interests in `i`.
pub open spec fn interest_text(i: u8) -> Seq<char> {
    with_name(
        with_name(with_name(Seq::empty(), i & INTEREST_READABLE != 0, "READABLE"@), i & INTEREST_WRITABLE != 0, "WRITABLE"@),
        i & INTEREST_PRIORITY != 0,
        "PRIORITY"@,
    )
}

/// The epoll flags for `interests`: always edge-triggered, and readable
/// interest also asks to hear of the peer shutting its write side.
pub open spec fn interest_bits(i: u8) -> u32 {
    ET_BIT | bit_if(i & INTEREST_READABLE != 0, IN_BIT | RDHUP_BIT) | bit_if(i & INTEREST_WRITABLE != 0, OUT_BIT)
        | bit_if(i & INTEREST_PRIORITY != 0, PRI_BIT)
}

pub fn interests_to_epoll(interests: Interest) -> (r: u32)
    ensures
        r == interest_bits(interests@),
{
    let mut kind = flag(epoll_et());
    if interests.is_readable() {
        kind = kind | flag(epoll_in()) | flag(epoll_rdhup());
    }
    if interests.is_writable() {
        kind = kind | flag(epoll_out());
    }
    if interests.is_priority() {
        kind = kind | flag(epoll_pri());
    }
    proof {
        let a = interests@ & 1 != 0;
        let b = interests@ & 2 != 0;
        let c = interests@ & 4 != 0;
        let k1: u32 = if a { 0x8000_0000u32 | 1 | 0x2000 } else { 0x8000_0000u32 };
        let k2: u32 = if b { k1 | 4 } else { k1 };
        let k3: u32 = if c { k2 | 2 } else { k2 };
        assert(k3 == 0x8000_0000u32 | (if a { 1u32 | 0x2000u32 } else { 0u32 }) | (if b { 4u32 } else { 0u32 })
            | (if c { 2u32 } else { 0u32 })) by (bit_vector)
            requires
                k1 == (if a { 0x8000_0000u32 | 1u32 | 0x2000u32 } else { 0x8000_0000u32 }),
                k2 == (if b { k1 | 4u32 } else { k1 }),
                k3 == (if c { k2 | 2u32 } else { k2 }),
        ;
    }
    kind
}

/// Calls `Vec::capacity`, which the standard library documents as the
/// number of elements the vector can hold without reallocating, never
/// below its length.
#[verifier::external_body]
fn vec_capacity<T>(v: &Vec<T>) -> (r: usize)
    ensures
        r >= v@.len(),
{
    v.capacity()
}

/// What a selection reports for the raw event `ev`, looked up in `map`:
/// its token entry and readiness, unless the descriptor is unknown or is the
/// notification descriptor.
pub open spec fn selected(ev: EpollEvent, map: Map<i32, TokenEntry>) -> Option<ReadyEntry> {
    let fd = ev.data as i32;
    if map.contains_key(fd) && map[fd].ttype != TokenType::NotifyEvent {
        Some(ReadyEntry { token_entry: map[fd], ready: Ready(ready_bits(ev.events)), node: fd as usize })
    } else {
        None
    }
}

/// The entries that the raw events `evs` give, in order.
pub open spec fn selected_all(evs: Seq<EpollEvent>, map: Map<i32, TokenEntry>) -> Seq<ReadyEntry>
    decreases evs.len(),
{
    if evs.len() == 0 {
        Seq::empty()
    } else {
        let r = selected_all(evs.drop_last(), map);
        match selected(evs.last(), map) {
            Some(e) => r.push(e),
            None => r,
        }
    }
}

/// Whether `ev` comes from the notification descriptor.
pub open spec fn is_notify(ev: EpollEvent, map: Map<i32, TokenEntry>) -> bool {
    let fd = ev.data as i32;
    map.contains_key(fd) && map[fd].ttype == TokenType::NotifyEvent
}

/// The position of the last notification event among `evs`, if any.
pub open spec fn last_notify(evs: Seq<EpollEvent>, map: Map<i32, TokenEntry>) -> Option<int>
    decreases evs.len(),
{
    if evs.len() == 0 {
        None
    } else if is_notify(evs.last(), map) {
        Some(evs.len() - 1)
    } else {
        last_notify(evs.drop_last(), map)
    }
}

proof fn lemma_last_notify_bound(evs: Seq<EpollEvent>, map: Map<i32, TokenEntry>)
    ensures
        last_notify(evs, map) matches Some(i) ==> 0 <= i < evs.len(),
    decreases evs.len(),
{
    if evs.len() > 0 {
        lemma_last_notify_bound(evs.drop_last(), map);
    }
}

/// The raw events of one selection and the entries made from them.
pub struct Events {
    events: Vec<EpollEvent>,
    entries: Vec<ReadyEntry>,
}

impl Events {
    pub closed spec fn events_spec(&self) -> Seq<EpollEvent> {
        self.events@
    }

    pub closed spec fn entries_spec(&self) -> Seq<ReadyEntry> {
        self.entries@
    }

    pub fn with_capacity(u: usize) -> (r: Events)
        ensures
            r.events_spec() == Seq::<EpollEvent>::empty(),
            r.entries_spec() == Seq::<ReadyEntry>::empty(),
    {
        Events { events: Vec::with_capacity(u), entries: Vec::with_capacity(u) }
    }

    pub fn len(&self) -> (r: usize)
        ensures
            r == self.entries_spec().len(),
    {
        self.entries.len()
    }

    pub fn capacity(&self) -> (r: usize)
        ensures
            r >= self.entries_spec().len(),
    {
        vec_capacity(&self.entries)
    }

    pub fn is_empty(&self) -> (r: bool)
        ensures
            r == (self.entries_spec().len() == 0),
    {
        self.entries.len() == 0
    }

    /// Appends a raw event, as the kernel reported it.
    pub fn push_raw(&mut self, ev: EpollEvent)
        ensures
            final(self).events_spec() == old(self).events_spec().push(ev),
            final(self).entries_spec() == old(self).entries_spec(),
    {
        self.events.push(ev);
    }

    /// The readiness that raw event `idx` reports.
    pub fn get_ready(&self, idx: usize) -> (r: Option<Ready>)
        ensures
            r == if idx < self.events_spec().len() {
                Some(Ready(ready_bits(self.events_spec()[idx as int].events)))
            } else {
                None
            },
    {
        if idx < self.events.len() {
            Some(ready_from_epoll(self.events[idx].events))
        } else {
            None
        }
    }

    /// Entry `idx`, if there is one.
    pub fn get(&self, idx: usize) -> (r: Option<ReadyEntry>)
        ensures
            r == if idx < self.entries_spec().len() {
                Some(self.entries_spec()[idx as int])
            } else {
                None
            },
    {
        if idx < self.entries.len() {
            Some(self.entries[idx])
        } else {
            None
        }
    }

    /// Records an event of the user-space queue: a raw event with the
    /// readiness's flags and the token, and an entry with the token and no
    /// readiness.
    pub fn push_event(&mut self, readiness: Ready, token: TokenEntry, node: usize)
        ensures
            final(self).events_spec() == old(self).events_spec().push(
                EpollEvent { events: ioevent_bits(readiness@, 0), data: token.token.0 as u64 },
            ),
            final(self).entries_spec() == old(self).entries_spec().push(
                ReadyEntry { token_entry: token, ready: Ready(0), node },
            ),
    {
        let events = ioevent_to_epoll(readiness, PollOpt::empty());
        self.events.push(EpollEvent { events, data: token.token.0 as u64 });
        self.entries.push(ReadyEntry { token_entry: token, ready: Ready::empty(), node });
    }

    pub fn clear(&mut self)
        ensures
            final(self).events_spec() == Seq::<EpollEvent>::empty(),
            final(self).entries_spec() == Seq::<ReadyEntry>::empty(),
    {
        self.events.clear();
        self.entries.clear();
    }

    /// Turns the raw events of a selection into entries through `map`, from
    /// descriptor to token entry, skipping unknown descriptors and taking
    /// the last notification event out. Answers whether a notification came.
    pub fn select_entries(&mut self, map: &HashMap<i32, TokenEntry>) -> (has_notify: bool)
        ensures
            final(self).entries_spec() == old(self).entries_spec() + selected_all(old(self).events_spec(), map@),
            has_notify == (last_notify(old(self).events_spec(), map@) is Some),
            final(self).events_spec() == match last_notify(old(self).events_spec(), map@) {
                Some(i) => old(self).events_spec().remove(i),
                None => old(self).events_spec(),
            },
    {
        let ghost evs = self.events@;
        let ghost e0 = self.entries@;
        let mut notify_idx: usize = 0;
        let mut has_notify = false;
        let mut i: usize = 0;
        while i < self.events.len()
            invariant
                self.events@ == evs,
                i <= evs.len(),
                self.entries@ == e0 + selected_all(evs.take(i as int), map@),
                has_notify == (last_notify(evs.take(i as int), map@) is Some),
                has_notify ==> last_notify(evs.take(i as int), map@) == Some(notify_idx as int),
            decreases evs.len() - i,
        {
            proof {
                assert(evs.take(i as int + 1).drop_last() =~= evs.take(i as int));
                assert(evs.take(i as int + 1).last() == evs[i as int]);
            }
            let ev = self.events[i];
            let fd = ev.data as i32;
            match map.get(&fd) {
                Some(entry) => {
                    if entry.ttype == TokenType::NotifyEvent {
                        notify_idx = i;
                        has_notify = true;
                    } else {
                        let ready = ready_from_epoll(ev.events);
                        self.entries.push(ReadyEntry { token_entry: *entry, ready, node: fd as usize });
                    }
                },
                None => {},
            }
            proof {
                assert(self.entries@ =~= e0 + selected_all(evs.take(i as int + 1), map@));
            }
            i = i + 1;
        }
        proof {
            assert(evs.take(evs.len() as int) =~= evs);
            lemma_last_notify_bound(evs, map@);
        }
        if has_notify {
            let _ = self.events.remove(notify_idx);
        }
        has_notify
    }
}

/// The timeout handed to `epoll_wait`, in milliseconds: the duration rounded
/// up and capped at the largest `i32`, or -1 to wait without end.
pub fn select_timeout_ms(timeout: Option<Duration>) -> (r: i32)
    ensures
        match timeout {
            None => r == -1,
            Some(d) => {
                let m = millis_spec(duration_secs(d), duration_nanos(d));
                r == if m > i32::MAX { i32::MAX as int } else { m as int }
            },
        },
{
    match timeout {
        None => -1,
        Some(d) => {
            let m = millis(d);
            if m > i32::MAX as u64 {
                i32::MAX
            } else {
                m as i32
            }
        },
    }
}

} // verus!

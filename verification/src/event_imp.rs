use vstd::prelude::*;
use crate::token::Token;
use crate::sys::ready::READY_ALL;

verus! {

pub const READABLE: usize = 0b00001;
pub const WRITABLE: usize = 0b00010;
pub const ERROR: usize = 0b00100;
pub const HUP: usize = 0b01000;

/// A set of readiness kinds, one bit each.
#[derive(Clone, Copy, Debug, PartialEq, Eq, Structural, PartialOrd, Ord, Hash)]
pub struct Ready(pub usize);

impl View for Ready {
    type V = usize;

    open spec fn view(&self) -> usize {
        self.0
    }
}

/// `a` holds every bit of `b`.
pub open spec fn bits_contain(a: usize, b: usize) -> bool {
    a & b == b
}

impl Ready {
    pub fn empty() -> (r: Ready)
        ensures
            r@ == 0,
    {
        Ready(0)
    }

    pub fn none() -> (r: Ready)
        ensures
            r@ == 0,
    {
        Ready::empty()
    }

    pub fn readable() -> (r: Ready)
        ensures
            r@ == READABLE,
    {
        Ready(READABLE)
    }

    pub fn writable() -> (r: Ready)
        ensures
            r@ == WRITABLE,
    {
        Ready(WRITABLE)
    }

    pub fn error() -> (r: Ready)
        ensures
            r@ == ERROR,
    {
        Ready(ERROR)
    }

    pub fn hup() -> (r: Ready)
        ensures
            r@ == HUP,
    {
        Ready(HUP)
    }

    pub fn all() -> (r: Ready)
        ensures
            r@ == READABLE | WRITABLE | READY_ALL,
    {
        Ready(READABLE | WRITABLE | READY_ALL)
    }

    pub fn is_empty(&self) -> (r: bool)
        ensures
            r == (self@ == 0),
    {
        *self == Ready::empty()
    }

    pub fn is_none(&self) -> (r: bool)
        ensures
            r == (self@ == 0),
    {
        self.is_empty()
    }

    pub fn is_readable(&self) -> (r: bool)
        ensures
            r == bits_contain(self@, READABLE),
    {
        self.contains(Ready::readable())
    }

    pub fn is_writable(&self) -> (r: bool)
        ensures
            r == bits_contain(self@, WRITABLE),
    {
        self.contains(Ready::writable())
    }

    pub fn is_error(&self) -> (r: bool)
        ensures
            r == bits_contain(self@, ERROR),
    {
        self.contains(Ready(ERROR))
    }

    pub fn is_hup(&self) -> (r: bool)
        ensures
            r == bits_contain(self@, HUP),
    {
        self.contains(Ready(HUP))
    }

    /// Adds the kinds of `other` to `self`.
    pub fn insert(&mut self, other: Ready)
        ensures
            final(self)@ == old(self)@ | other@,
    {
        self.0 = self.0 | other.0;
    }

    /// Takes the kinds of `other` out of `self`.
    pub fn remove(&mut self, other: Ready)
        ensures
            final(self)@ == old(self)@ & !other@,
    {
        self.0 = self.0 & !other.0;
    }

    pub fn bits(&self) -> (r: usize)
        ensures
            r == self@,
    {
        self.0
    }

    pub fn contains(&self, other: Ready) -> (r: bool)
        ensures
            r == bits_contain(self@, other@),
    {
        (self.0 & other.0) == other.0
    }

    pub fn from_usize(val: usize) -> (r: Ready)
        ensures
            r@ == val,
    {
        Ready(val)
    }

    pub fn as_usize(&self) -> (r: usize)
        ensures
            r == self@,
    {
        self.0
    }
}

impl core::ops::BitOr for Ready {
    type Output = Ready;

    fn bitor(self, other: Ready) -> (r: Ready) {
        Ready(self.0 | other.0)
    }
}

impl vstd::std_specs::ops::BitOrSpecImpl for Ready {
    open spec fn obeys_bitor_spec() -> bool {
        true
    }

    open spec fn bitor_req(self, rhs: Ready) -> bool {
        true
    }

    open spec fn bitor_spec(self, rhs: Ready) -> Ready {
        Ready(self.0 | rhs.0)
    }
}

impl core::ops::BitAnd for Ready {
    type Output = Ready;

    fn bitand(self, other: Ready) -> (r: Ready) {
        Ready(self.0 & other.0)
    }
}

impl vstd::std_specs::ops::BitAndSpecImpl for Ready {
    open spec fn obeys_bitand_spec() -> bool {
        true
    }

    open spec fn bitand_req(self, rhs: Ready) -> bool {
        true
    }

    open spec fn bitand_spec(self, rhs: Ready) -> Ready {
        Ready(self.0 & rhs.0)
    }
}

pub fn ready_as_usize(events: Ready) -> (r: usize)
    ensures
        r == events@,
{
    events.0
}

pub fn ready_from_usize(events: usize) -> (r: Ready)
    ensures
        r@ == events,
{
    Ready(events)
}


pub const EDGE: usize = 0b0001;
pub const LEVEL: usize = 0b0010;
pub const ONESHOT: usize = 0b0100;
pub const URGENT: usize = 0b1000;

/// Options of a registration: edge or level triggered, one-shot, urgent.
#[derive(Clone, Copy, Debug, PartialEq, Eq, Structural, PartialOrd, Ord, Hash)]
pub struct PollOpt(pub usize);

impl View for PollOpt {
    type V = usize;

    open spec fn view(&self) -> usize {
        self.0
    }
}

impl PollOpt {
    pub fn empty() -> (r: PollOpt)
        ensures
            r@ == 0,
    {
        PollOpt(0)
    }

    pub fn edge() -> (r: PollOpt)
        ensures
            r@ == EDGE,
    {
        PollOpt(EDGE)
    }

    pub fn level() -> (r: PollOpt)
        ensures
            r@ == LEVEL,
    {
        PollOpt(LEVEL)
    }

    pub fn oneshot() -> (r: PollOpt)
        ensures
            r@ == ONESHOT,
    {
        PollOpt(ONESHOT)
    }

    pub fn urgent() -> (r: PollOpt)
        ensures
            r@ == URGENT,
    {
        PollOpt(URGENT)
    }

    pub fn all() -> (r: PollOpt)
        ensures
            r@ == EDGE | LEVEL | ONESHOT,
    {
        PollOpt::edge() | PollOpt::level() | PollOpt::oneshot()
    }

    pub fn is_edge(&self) -> (r: bool)
        ensures
            r == bits_contain(self@, EDGE),
    {
        self.contains(PollOpt::edge())
    }

    pub fn is_level(&self) -> (r: bool)
        ensures
            r == bits_contain(self@, LEVEL),
    {
        self.contains(PollOpt::level())
    }

    pub fn is_oneshot(&self) -> (r: bool)
        ensures
            r == bits_contain(self@, ONESHOT),
    {
        self.contains(PollOpt::oneshot())
    }

    pub fn is_urgent(&self) -> (r: bool)
        ensures
            r == bits_contain(self@, URGENT),
    {
        self.contains(PollOpt::urgent())
    }

    pub fn bits(&self) -> (r: usize)
        ensures
            r == self@,
    {
        self.0
    }

    pub fn contains(&self, other: PollOpt) -> (r: bool)
        ensures
            r == bits_contain(self@, other@),
    {
        (self.0 & other.0) == other.0
    }

    pub fn insert(&mut self, other: PollOpt)
        ensures
            final(self)@ == old(self)@ | other@,
    {
        self.0 = self.0 | other.0;
    }

    pub fn remove(&mut self, other: PollOpt)
        ensures
            final(self)@ == old(self)@ & !other@,
    {
        self.0 = self.0 & !other.0;
    }
}

impl core::ops::BitOr for PollOpt {
    type Output = PollOpt;

    fn bitor(self, other: PollOpt) -> (r: PollOpt) {
        PollOpt(self.0 | other.0)
    }
}

impl vstd::std_specs::ops::BitOrSpecImpl for PollOpt {
    open spec fn obeys_bitor_spec() -> bool {
        true
    }

    open spec fn bitor_req(self, rhs: PollOpt) -> bool {
        true
    }

    open spec fn bitor_spec(self, rhs: PollOpt) -> PollOpt {
        PollOpt(self.0 | rhs.0)
    }
}

pub fn opt_as_usize(opt: PollOpt) -> (r: usize)
    ensures
        r == opt@,
{
    opt.0
}

pub fn opt_from_usize(opt: usize) -> (r: PollOpt)
    ensures
        r@ == opt,
{
    PollOpt(opt)
}

/// A readiness set that arrived for a token.
#[derive(Clone, Copy, Debug, PartialEq, Eq, Structural)]
pub struct Event {
    kind: Ready,
    token: Token,
}

impl Event {
    pub fn new(readiness: Ready, token: Token) -> (r: Event)
        ensures
            r.readiness_spec() == readiness,
            r.token_spec() == token,
    {
        Event { kind: readiness, token }
    }

    pub closed spec fn readiness_spec(&self) -> Ready {
        self.kind
    }

    pub closed spec fn token_spec(&self) -> Token {
        self.token
    }

    pub fn readiness(&self) -> (r: Ready)
        ensures
            r == self.readiness_spec(),
    {
        self.kind
    }

    pub fn kind(&self) -> (r: Ready)
        ensures
            r == self.readiness_spec(),
    {
        self.kind
    }

    pub fn token(&self) -> (r: Token)
        ensures
            r == self.token_spec(),
    {
        self.token
    }
}

/// What a token stands for, which tells the event loop where its job is.
#[derive(Clone, Copy, Debug, PartialEq, Eq, Structural, Hash)]
pub enum TokenType {
    TokenEvent,
    NotifyEvent,
    TimersEvent,
    SocketEvent,
    AcceptEvent,
}

/// A token together with the kind of thing that it identifies.
#[derive(Clone, Copy, Debug, PartialEq, Eq, Structural, Hash)]
pub struct TokenEntry {
    pub ttype: TokenType,
    pub token: Token,
}

/// Inserting a set and then asking for it answers yes.
pub proof fn lemma_insert_then_contains(a: usize, b: usize)
    ensures
        bits_contain(a | b, b),
        bits_contain(a | b, a),
{
    assert((a | b) & b == b) by (bit_vector);
    assert((a | b) & a == a) by (bit_vector);
}

/// Removing a set leaves no kind of it behind, and keeps every other kind.
pub proof fn lemma_remove_clears(a: usize, b: usize, c: usize)
    ensures
        (a & !b) & b == 0,
        c & b == 0 ==> (bits_contain(a & !b, c) == bits_contain(a, c)),
{
    assert((a & !b) & b == 0) by (bit_vector);
    assert(c & b == 0 ==> (((a & !b) & c == c) == (a & c == c))) by (bit_vector);
}

/// Every set holds the empty set and itself; holding is transitive.
pub proof fn lemma_contains_order(a: usize, b: usize, c: usize)
    ensures
        bits_contain(a, 0),
        bits_contain(a, a),
        bits_contain(a, b) && bits_contain(b, c) ==> bits_contain(a, c),
{
    assert(a & 0 == 0) by (bit_vector);
    assert(a & a == a) by (bit_vector);
    assert((a & b == b) && (b & c == c) ==> (a & c == c)) by (bit_vector);
}

/// Removing after inserting the same set is the same as removing alone.
pub proof fn lemma_insert_remove(a: usize, b: usize)
    ensures
        (a | b) & !b == a & !b,
{
    assert((a | b) & !b == a & !b) by (bit_vector);
}

} // verus!

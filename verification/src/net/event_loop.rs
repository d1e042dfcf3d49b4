use vstd::prelude::*;
use std::io::Error;
use std::time::Duration;
use crate::channel::TrySendError;
use crate::io::io_error_description;
use crate::sys::duration::duration_from_millis;
use crate::sys::duration::{duration_secs, duration_nanos, millis_spec};
use crate::token::Token;
use crate::event_imp::{Ready, PollOpt, TokenEntry, TokenType, READABLE, EDGE, ONESHOT, ready_as_usize};
use crate::poll::queue::ReadyEntry;
use crate::timer::{Timer, Builder, next_pow2};

verus! {

/// Why a message could not be handed to the event loop.
pub enum NotifyError<T> {
    Io(Error),
    Full(T),
    Closed(Option<T>),
}

impl<M> From<TrySendError<M>> for NotifyError<M> {
    fn from(src: TrySendError<M>) -> (r: NotifyError<M>) {
        match src {
            TrySendError::Io(e) => NotifyError::Io(e),
            TrySendError::Full(v) => NotifyError::Full(v),
            TrySendError::Disconnected(v) => NotifyError::Closed(Some(v)),
        }
    }
}

impl<M> vstd::std_specs::convert::FromSpecImpl<TrySendError<M>> for NotifyError<M> {
    open spec fn obeys_from_spec() -> bool {
        true
    }

    open spec fn from_spec(src: TrySendError<M>) -> NotifyError<M> {
        match src {
            TrySendError::Io(e) => NotifyError::Io(e),
            TrySendError::Full(v) => NotifyError::Full(v),
            TrySendError::Disconnected(v) => NotifyError::Closed(Some(v)),
        }
    }
}

impl<M> NotifyError<M> {
    /// A short description of the error.
    pub fn description(&self) -> (r: &str)
        ensures
            self is Closed ==> r@ == "The receiving end has hung up"@,
            self is Full ==> r@ == "Queue is full"@,
    {
        match self {
            NotifyError::Io(err) => io_error_description(err),
            NotifyError::Closed(..) => {
                proof {
                    reveal_strlit("The receiving end has hung up");
                }
                "The receiving end has hung up"
            },
            NotifyError::Full(..) => {
                proof {
                    reveal_strlit("Queue is full");
                }
                "Queue is full"
            },
        }
    }
}

/// The settings of an event loop.
#[derive(Clone, Copy)]
pub struct Config {
    pub notify_capacity: usize,
    pub messages_per_tick: usize,
    pub timer_tick: Duration,
    pub timer_wheel_size: usize,
    pub timer_capacity: usize,
}

impl Default for Config {
    fn default() -> (r: Config)
        ensures
            r.notify_capacity == 4_096,
            r.messages_per_tick == 256,
            duration_secs(r.timer_tick) == 0,
            duration_nanos(r.timer_tick) == 100_000_000,
            r.timer_wheel_size == 1_024,
            r.timer_capacity == 65_536,
    {
        Config {
            notify_capacity: 4_096,
            messages_per_tick: 256,
            timer_tick: duration_from_millis(100),
            timer_wheel_size: 1_024,
            timer_capacity: 65_536,
        }
    }
}

/// Builds an event loop's settings step by step.
pub struct EventLoopBuilder {
    pub config: Config,
}

impl EventLoopBuilder {
    pub fn new() -> (r: EventLoopBuilder)
        ensures
            r.config.notify_capacity == 4_096,
            r.config.messages_per_tick == 256,
            duration_secs(r.config.timer_tick) == 0,
            duration_nanos(r.config.timer_tick) == 100_000_000,
            r.config.timer_wheel_size == 1_024,
            r.config.timer_capacity == 65_536,
    {
        EventLoopBuilder { config: Config::default() }
    }

    pub fn notify_capacity(&mut self, capacity: usize) -> (r: &mut Self)
        ensures
            *r == (EventLoopBuilder { config: Config { notify_capacity: capacity, ..old(self).config } }),
            *final(self) == *final(r),
    {
        self.config.notify_capacity = capacity;
        self
    }

    pub fn messages_per_tick(&mut self, messages: usize) -> (r: &mut Self)
        ensures
            *r == (EventLoopBuilder { config: Config { messages_per_tick: messages, ..old(self).config } }),
            *final(self) == *final(r),
    {
        self.config.messages_per_tick = messages;
        self
    }

    pub fn timer_tick(&mut self, val: Duration) -> (r: &mut Self)
        ensures
            *r == (EventLoopBuilder { config: Config { timer_tick: val, ..old(self).config } }),
            *final(self) == *final(r),
    {
        self.config.timer_tick = val;
        self
    }

    pub fn timer_wheel_size(&mut self, size: usize) -> (r: &mut Self)
        ensures
            *r == (EventLoopBuilder { config: Config { timer_wheel_size: size, ..old(self).config } }),
            *final(self) == *final(r),
    {
        self.config.timer_wheel_size = size;
        self
    }

    pub fn timer_capacity(&mut self, cap: usize) -> (r: &mut Self)
        ensures
            *r == (EventLoopBuilder { config: Config { timer_capacity: cap, ..old(self).config } }),
            *final(self) == *final(r),
    {
        self.config.timer_capacity = cap;
        self
    }
}

/// What a registration hands to the poller: the token entry, the readiness
/// of interest and the options.
#[derive(Clone, Copy, Debug, PartialEq, Eq, Structural)]
pub struct RegisterArgs {
    pub token: TokenEntry,
    pub interest: Ready,
    pub opt: PollOpt,
}

/// How an event loop registers its notification channel: readable, edge
/// and oneshot, under token zero.
pub fn notify_registration() -> (r: RegisterArgs)
    ensures
        r.token == (TokenEntry { ttype: TokenType::NotifyEvent, token: Token(0) }),
        r.interest@ == READABLE,
        r.opt@ == EDGE | ONESHOT,
{
    RegisterArgs {
        token: TokenEntry { ttype: TokenType::NotifyEvent, token: Token(0) },
        interest: Ready::readable(),
        opt: PollOpt::edge() | PollOpt::oneshot(),
    }
}

/// How an event loop registers its timer: readable and edge, under token
/// zero.
pub fn timer_registration() -> (r: RegisterArgs)
    ensures
        r.token == (TokenEntry { ttype: TokenType::TimersEvent, token: Token(0) }),
        r.interest@ == READABLE,
        r.opt@ == EDGE,
{
    RegisterArgs {
        token: TokenEntry { ttype: TokenType::TimersEvent, token: Token(0) },
        interest: Ready::readable(),
        opt: PollOpt::edge(),
    }
}

/// The timer an event loop runs with these settings.
pub fn timer_for<T>(config: &Config) -> (r: Timer<T>)
    requires
        next_pow2(config.timer_wheel_size as nat) <= usize::MAX,
        next_pow2(config.timer_capacity as nat) <= (isize::MAX as usize) / 32,
    ensures
        r.inv(),
        r@ == Map::<usize, (u64, T)>::empty(),
        r.tick_spec() == 0,
        r.tick_ms_spec() == millis_spec(duration_secs(config.timer_tick), duration_nanos(config.timer_tick)),
        r.num_slots_spec() == next_pow2(config.timer_wheel_size as nat),
{
    Builder::default().tick_duration(config.timer_tick).num_slots(config.timer_wheel_size).capacity(
        config.timer_capacity,
    ).build()
}

/// What the event loop does with one polled entry.
#[derive(Clone, Copy, Debug, PartialEq, Eq, Structural)]
pub enum Dispatch {
    /// Run every timeout that is due.
    DrainTimers,
    /// Run the entry's job with this readiness.
    RunJob(i64),
}

/// The timer's entry drains the timer; any other runs its job with the
/// readiness as a number.
pub fn dispatch_for(entry: &ReadyEntry) -> (r: Dispatch)
    ensures
        entry.token_entry.ttype == TokenType::TimersEvent ==> r == Dispatch::DrainTimers,
        entry.token_entry.ttype != TokenType::TimersEvent ==> r == Dispatch::RunJob(entry.ready@ as i64),
{
    match entry.token_entry.ttype {
        TokenType::TimersEvent => Dispatch::DrainTimers,
        _ => Dispatch::RunJob(ready_as_usize(entry.ready) as i64),
    }
}

} // verus!

use vstd::prelude::*;
use std::time::{Duration, Instant};
use slab::Slab;
use crate::token::Token;
use crate::io::{io_error_other, is_other};
use crate::sys::duration::{
    millis, millis_spec, duration_secs, duration_nanos, total_nanos, instant_now, instant_elapsed,
    duration_checked_add, duration_from_millis,
};

verus! {

/// A timer entry's links: its tick, the previous and the next key in its
/// slot's list.
pub type Links = (u64, usize, usize);

#[verifier::external_type_specification]
#[verifier::external_body]
#[verifier::reject_recursive_types(T)]
pub struct ExSlab<T>(Slab<T>);

/// What a slab of timer links holds: key to (tick, previous key, next key).
pub uninterp spec fn slab_entries(s: Slab<Links>) -> Map<usize, Links>;

/// The empty map of links.
pub open spec fn no_links() -> Map<usize, Links> {
    Map::empty()
}

/// Calls `Slab::with_capacity`, which makes an empty slab whose entry
/// vector has room for `capacity` entries; the vector panics when that
/// room exceeds `isize::MAX` bytes, and an entry takes at most 32.
#[verifier::external_body]
fn slab_with_capacity(capacity: usize) -> (s: Slab<Links>)
    requires
        capacity <= (isize::MAX as usize) / 32,
    ensures
        slab_entries(s) == no_links(),
{
    Slab::with_capacity(capacity)
}

/// Calls `Slab::insert`, which stores `v` under a key that held nothing and
/// returns that key. The key is the slab's next vacant slot, at most the
/// length of its entry vector, which stays below `isize::MAX`; the vector
/// only grows when every slot is full, so it cannot overflow while fewer than
/// `isize::MAX / 64` entries are stored.
#[verifier::external_body]
fn slab_insert(s: &mut Slab<Links>, v: Links) -> (key: usize)
    requires
        slab_entries(*old(s)).len() < (isize::MAX as usize) / 64,
    ensures
        !slab_entries(*old(s)).contains_key(key),
        key < isize::MAX as usize,
        slab_entries(*final(s)) == slab_entries(*old(s)).insert(key, v),
{
    s.insert(v)
}

/// Calls `Slab::get`: the value stored under `key`, if any.
#[verifier::external_body]
fn slab_get(s: &Slab<Links>, key: usize) -> (r: Option<Links>)
    ensures
        r == if slab_entries(*s).contains_key(key) {
            Some(slab_entries(*s)[key])
        } else {
            None
        },
{
    s.get(key).copied()
}

/// Writes through `Slab`'s `IndexMut`, which panics on a key that holds
/// nothing and otherwise replaces the value under `key`.
#[verifier::external_body]
fn slab_set(s: &mut Slab<Links>, key: usize, v: Links)
    requires
        slab_entries(*old(s)).contains_key(key),
    ensures
        slab_entries(*final(s)) == slab_entries(*old(s)).insert(key, v),
{
    s[key] = v;
}

/// Calls `Slab::remove`, which panics on a key that holds nothing and
/// otherwise takes the value out and frees the key.
#[verifier::external_body]
fn slab_remove(s: &mut Slab<Links>, key: usize) -> (r: Links)
    requires
        slab_entries(*old(s)).contains_key(key),
    ensures
        r == slab_entries(*old(s))[key],
        slab_entries(*final(s)) == slab_entries(*old(s)).remove(key),
{
    s.remove(key)
}

/// Calls `Slab::len`: the number of values stored.
#[verifier::external_body]
fn slab_len(s: &Slab<Links>) -> (r: usize)
    ensures
        r == slab_entries(*s).len(),
{
    s.len()
}

/// The smallest power of two at least `n` (one for zero).
pub open spec fn next_pow2(n: nat) -> nat
    decreases n,
{
    if n <= 1 {
        1
    } else {
        2 * next_pow2(((n + 1) / 2) as nat)
    }
}

/// The smallest power of two at least `n` (one for zero).
fn next_power_of_two(n: usize) -> (r: usize)
    requires
        next_pow2(n as nat) <= usize::MAX,
    ensures
        r == next_pow2(n as nat),
    decreases n,
{
    if n <= 1 {
        1
    } else {
        let half = n / 2 + n % 2;
        assert(half as nat == ((n + 1) / 2) as nat);
        let p = next_power_of_two(half);
        2 * p
    }
}

proof fn lemma_next_pow2_pos(n: nat)
    ensures
        next_pow2(n) >= 1,
    decreases n,
{
    if n > 1 {
        lemma_next_pow2_pos(((n + 1) / 2) as nat);
    }
}

/// Pads `states` with `None` until `key` is a valid index.
fn grow_states<T>(states: &mut Vec<Option<T>>, key: usize)
    ensures
        final(states)@.len() > key,
        final(states)@.len() >= old(states)@.len(),
        forall|k: int| 0 <= k < old(states)@.len() ==> #[trigger] final(states)@[k] == old(states)@[k],
        forall|k: int| old(states)@.len() <= k < final(states)@.len() ==> #[trigger] final(states)@[k].is_none(),
{
    while states.len() <= key
        invariant
            states@.len() >= old(states)@.len(),
            forall|k: int| 0 <= k < old(states)@.len() ==> #[trigger] states@[k] == old(states)@[k],
            forall|k: int| old(states)@.len() <= k < states@.len() ==> #[trigger] states@[k].is_none(),
        decreases key + 1 - states@.len(),
    {
        states.push(None);
    }
}

pub type Tick = u64;

pub const TICK_MAX: Tick = u64::MAX;

/// Refuses a change of a timer's registration that does not fit whether it
/// has one: registering it twice (`registering`), or changing or dropping a
/// registration it does not have.
pub fn check_registration(registered: bool, registering: bool) -> (r: Result<(), std::io::Error>)
    ensures
        r is Err <==> registered == registering,
        r matches Err(e) ==> is_other(e),
{
    if registering && registered {
        Err(io_error_other("timer alreay registered"))
    } else if !registering && !registered {
        Err(io_error_other("receiver not register"))
    } else {
        Ok(())
    }
}

/// The link value that stands for "no entry".
pub const EMPTY: usize = usize::MAX;

/// A handle on a pending timeout, to cancel it with.
#[derive(Clone, Copy, Debug, PartialEq, Eq, Structural)]
pub struct Timeout {
    token: Token,
    tick: u64,
}

impl Timeout {
    pub closed spec fn token_spec(&self) -> usize {
        self.token.0
    }

    pub closed spec fn tick_spec(&self) -> u64 {
        self.tick
    }

    /// The tick the timeout is due at.
    pub fn tick(&self) -> (r: u64)
        ensures
            r == self.tick_spec(),
    {
        self.tick
    }
}

/// Settings of a timer: tick length, number of wheel slots, capacity.
pub struct Builder {
    tick: Duration,
    num_slots: usize,
    capacity: usize,
}

impl Builder {
    pub closed spec fn tick_spec(&self) -> Duration {
        self.tick
    }

    pub closed spec fn num_slots_spec(&self) -> usize {
        self.num_slots
    }

    pub closed spec fn capacity_spec(&self) -> usize {
        self.capacity
    }

    pub fn tick_duration(self, duration: Duration) -> (r: Builder)
        ensures
            r.tick_spec() == duration,
            r.num_slots_spec() == self.num_slots_spec(),
            r.capacity_spec() == self.capacity_spec(),
    {
        Builder { tick: duration, ..self }
    }

    pub fn num_slots(self, num_slots: usize) -> (r: Builder)
        ensures
            r.tick_spec() == self.tick_spec(),
            r.num_slots_spec() == num_slots,
            r.capacity_spec() == self.capacity_spec(),
    {
        Builder { num_slots, ..self }
    }

    pub fn capacity(self, capacity: usize) -> (r: Builder)
        ensures
            r.tick_spec() == self.tick_spec(),
            r.num_slots_spec() == self.num_slots_spec(),
            r.capacity_spec() == capacity,
    {
        Builder { capacity, ..self }
    }

    /// A timer with these settings, started now.
    pub fn build<T>(self) -> (r: Timer<T>)
        requires
            next_pow2(self.num_slots_spec() as nat) <= usize::MAX,
            next_pow2(self.capacity_spec() as nat) <= (isize::MAX as usize) / 32,
        ensures
            r.inv(),
            r@ == Map::<usize, (u64, T)>::empty(),
            r.tick_spec() == 0,
            r.tick_ms_spec() == millis_spec(duration_secs(self.tick_spec()), duration_nanos(self.tick_spec())),
            r.num_slots_spec() == next_pow2(self.num_slots_spec() as nat),
    {
        Timer::new(millis(self.tick), self.num_slots, self.capacity, instant_now())
    }
}

impl Default for Builder {
    fn default() -> (r: Builder)
        ensures
            duration_secs(r.tick_spec()) == 0,
            duration_nanos(r.tick_spec()) == 100_000_000,
            r.num_slots_spec() == 256,
            r.capacity_spec() == 65_536,
    {
        Builder { tick: duration_from_millis(100), num_slots: 256, capacity: 65_536 }
    }
}

impl<T> Default for Timer<T> {
    fn default() -> (r: Timer<T>)
        ensures
            r.inv(),
            r@ == Map::<usize, (u64, T)>::empty(),
            r.tick_spec() == 0,
            r.tick_ms_spec() == 100,
            r.num_slots_spec() == 256,
    {
        proof {
            reveal_with_fuel(next_pow2, 20);
            assert(next_pow2(256) == 256);
            assert(next_pow2(65_536) == 65_536);
        }
        Builder::default().build()
    }
}

/// What the timer's wakeup thread does next.
#[derive(Clone, Copy, Debug, PartialEq, Eq, Structural)]
pub enum WakeupAction {
    /// The timer is gone: end the thread.
    Terminate,
    /// Sleep this many milliseconds, or until woken.
    SleepFor(u64),
    /// Sleep until woken: the wait does not fit in a `u64` of milliseconds.
    Park,
    /// The awaited tick has come: signal the timer's readiness.
    Fire,
}

/// The value of the wakeup state that ends the wakeup thread.
pub const TERMINATE_THREAD: u64 = 0;

/// What the wakeup thread does when it awaits `sleep_until_tick` and the
/// clock is at `now_tick`.
pub open spec fn wakeup_action(sleep_until_tick: Tick, now_tick: Tick, tick_ms: u64) -> WakeupAction {
    if sleep_until_tick == TERMINATE_THREAD {
        WakeupAction::Terminate
    } else if now_tick < sleep_until_tick {
        if tick_ms * (sleep_until_tick - now_tick) <= u64::MAX {
            WakeupAction::SleepFor((tick_ms * (sleep_until_tick - now_tick)) as u64)
        } else {
            WakeupAction::Park
        }
    } else {
        WakeupAction::Fire
    }
}

/// The wakeup thread ends as soon as it reads the terminating value, never
/// fires before the tick it awaits, and once it has fired and awaits the
/// last tick it does not fire again while the clock is below that tick.
pub proof fn law_wakeup_fires_when_due(awaited: Tick, now_tick: Tick, tick_ms: u64)
    ensures
        wakeup_action(TERMINATE_THREAD, now_tick, tick_ms) == WakeupAction::Terminate,
        wakeup_action(awaited, now_tick, tick_ms) == WakeupAction::Fire ==> awaited != TERMINATE_THREAD
            && now_tick >= awaited,
        now_tick < u64::MAX ==> wakeup_action(u64::MAX, now_tick, tick_ms) != WakeupAction::Fire,
{
}

/// The wakeup thread's decision, given the tick it sleeps until and the
/// tick the clock has reached.
pub fn wakeup_step(sleep_until_tick: Tick, now_tick: Tick, tick_ms: u64) -> (r: WakeupAction)
    ensures
        r == wakeup_action(sleep_until_tick, now_tick, tick_ms),
{
    if sleep_until_tick == TERMINATE_THREAD {
        return WakeupAction::Terminate;
    }
    if now_tick < sleep_until_tick {
        match tick_ms.checked_mul(sleep_until_tick - now_tick) {
            Some(sleep_duration) => WakeupAction::SleepFor(sleep_duration),
            None => WakeupAction::Park,
        }
    } else {
        WakeupAction::Fire
    }
}

/// Whether a timeout due at `tick` must bring the wakeup thread forward
/// from the tick `curr` it now sleeps until.
pub fn wakeup_earlier(curr: Tick, tick: Tick) -> (r: bool)
    ensures
        r == (tick < curr),
{
    !(curr <= tick)
}

/// The error of a timer operation.
#[derive(Clone, Copy, Debug, PartialEq, Eq, Structural)]
pub struct TimerError;

#[derive(Clone, Copy, Debug, PartialEq, Eq, Structural)]
pub enum TimerErrorKind {
    TimerOverflow,
}

/// Ticks in `elapsed_ms` milliseconds, rounded up to a whole tick.
pub open spec fn duration_to_tick_spec(elapsed_ms: u64, tick_ms: u64) -> u64 {
    (elapsed_ms / tick_ms + if elapsed_ms % tick_ms == 0 { 0int } else { 1int }) as u64
}

/// The number of ticks of `tick_ms` milliseconds in `elapsed`, rounded up
/// to a whole tick.
pub fn duration_to_tick(elapsed: Duration, tick_ms: u64) -> (r: Tick)
    requires
        tick_ms > 0,
    ensures
        r == duration_to_tick_spec(millis_spec(duration_secs(elapsed), duration_nanos(elapsed)), tick_ms),
{
    let elapsed_ms = millis(elapsed);
    let whole = elapsed_ms / tick_ms;
    if elapsed_ms % tick_ms == 0 {
        whole
    } else {
        assert(tick_ms >= 2);
        assert(elapsed_ms / tick_ms <= elapsed_ms / 2) by (nonlinear_arith)
            requires
                tick_ms >= 2,
        ;
        whole + 1
    }
}

/// The tick that the clock has reached since `start`: some number of
/// elapsed milliseconds, rounded up to a whole tick.
pub fn current_tick(start: Instant, tick_ms: u64) -> (r: Tick)
    requires
        tick_ms > 0,
    ensures
        exists|ms: u64| #[trigger] duration_to_tick_spec(ms, tick_ms) == r,
{
    let elapsed = instant_elapsed(&start);
    let r = duration_to_tick(elapsed, tick_ms);
    proof {
        let ms = millis_spec(duration_secs(elapsed), duration_nanos(elapsed));
        assert(duration_to_tick_spec(ms, tick_ms) == r);
    }
    r
}

/// The tick a wheel at `current` moves on to when a poll that finds nothing
/// walks up to the clock's tick `clock` (held below the last tick).
pub open spec fn poll_reach(clock: u64, current: u64) -> u64 {
    let target = if clock == u64::MAX { (u64::MAX - 1) as u64 } else { clock };
    (poll_target(target, current) + 1) as u64
}

/// A poll that finds nothing at the clock's tick `clock` leaves the wheel
/// just past the clock's tick, or just past its own when the clock lies
/// behind it: never further, never short of it.
pub proof fn law_poll_reach_passes_clock(clock: u64, current: u64)
    requires
        current < u64::MAX,
    ensures
        poll_reach(clock, current) > current,
        clock < u64::MAX ==> poll_reach(clock, current) > clock,
        clock < u64::MAX && clock >= current ==> poll_reach(clock, current) == clock + 1,
        clock < current ==> poll_reach(clock, current) == current + 1,
{
}

/// The tick a timeout `delay_from_start` after the start is due at, on a
/// wheel with `tick_ms` long ticks that has reached `current`: the rounded-up
/// tick, or the one after the current tick when that one has passed.
pub open spec fn timeout_tick(delay_from_start: Duration, tick_ms: u64, current: u64) -> u64 {
    let d = duration_to_tick_spec(millis_spec(duration_secs(delay_from_start), duration_nanos(delay_from_start)), tick_ms);
    if d < current {
        (current + 1) as u64
    } else {
        d
    }
}

/// What setting a timeout `delay` from now answers when `elapsed` has passed
/// since the wheel's start: refused exactly when the sum overflows a
/// `Duration`, and otherwise due at the tick of that sum.
pub open spec fn set_timeout_outcome(
    elapsed: Duration,
    delay: Duration,
    tick_ms: u64,
    current: u64,
    r: Result<Timeout, TimerError>,
) -> bool {
    &&& duration_nanos(elapsed) < 1_000_000_000
    &&& (r is Err <==> total_nanos(elapsed) + total_nanos(delay) >= (u64::MAX + 1) * 1_000_000_000)
    &&& (r matches Ok(t) ==> exists|from_start: Duration|
        total_nanos(from_start) == total_nanos(elapsed) + total_nanos(delay)
            && #[trigger] timeout_tick(from_start, tick_ms, current) == t.tick_spec())
}


/// A timeout set `delay` after the moment `elapsed` from the start is never
/// due before that moment plus the delay, measured in whole ticks of
/// `tick_ms` milliseconds (when the sum fits in milliseconds), and it is due
/// no more than a tick after it unless the wheel has passed that tick.
pub proof fn law_timeout_not_before_deadline(
    elapsed: Duration,
    delay: Duration,
    tick_ms: u64,
    current: u64,
    r: Result<Timeout, TimerError>,
)
    requires
        set_timeout_outcome(elapsed, delay, tick_ms, current, r),
        tick_ms > 0,
        current < u64::MAX,
    ensures
        r matches Ok(t) ==> t.tick_spec() >= current,
        r matches Ok(t) ==> (total_nanos(elapsed) + total_nanos(delay) <= u64::MAX * 1_000_000
            ==> t.tick_spec() * tick_ms * 1_000_000 >= total_nanos(elapsed) + total_nanos(delay)),
        r matches Ok(t) ==> (t.tick_spec() > current + 1
            ==> (t.tick_spec() - 1) * tick_ms * 1_000_000 < total_nanos(elapsed) + total_nanos(delay)),
{
    if r is Ok {
        let t = r->Ok_0;
        let from_start = choose|from_start: Duration|
            total_nanos(from_start) == total_nanos(elapsed) + total_nanos(delay)
                && #[trigger] timeout_tick(from_start, tick_ms, current) == t.tick_spec();
        let n = total_nanos(from_start);
        let secs = duration_secs(from_start);
        let nanos = duration_nanos(from_start);
        let m = secs * 1000 + (nanos + 999_999) / 1_000_000;
        let ms = millis_spec(secs, nanos);
        let d = duration_to_tick_spec(ms, tick_ms);
        lemma_ceil_ticks(ms, tick_ms);
        assert(m * 1_000_000 >= n && (m - 1) * 1_000_000 < n) by (nonlinear_arith)
            requires
                n == secs * 1_000_000_000 + nanos,
                m == secs * 1000 + (nanos + 999_999) / 1_000_000,
                0 <= nanos,
        ;
        if n <= u64::MAX * 1_000_000 {
            assert(m <= u64::MAX) by (nonlinear_arith)
                requires
                    m * 1_000_000 >= n,
                    (m - 1) * 1_000_000 < n,
                    n <= u64::MAX * 1_000_000,
            ;
            assert(ms == m);
            assert(t.tick_spec() >= d);
            assert(t.tick_spec() * tick_ms * 1_000_000 >= n) by (nonlinear_arith)
                requires
                    t.tick_spec() >= d,
                    d * tick_ms >= ms,
                    ms * 1_000_000 >= n,
                    tick_ms > 0,
            ;
        }
        if t.tick_spec() > current + 1 {
            assert(t.tick_spec() == d);
            assert(ms <= m);
            assert((t.tick_spec() - 1) * tick_ms * 1_000_000 < n) by (nonlinear_arith)
                requires
                    t.tick_spec() == d,
                    (d - 1) * tick_ms < ms,
                    ms <= m,
                    (m - 1) * 1_000_000 < n,
                    d >= 1,
            ;
        }
    }
}

/// Rounding up to whole ticks: the ticks cover the milliseconds, and one
/// tick fewer does not.
proof fn lemma_ceil_ticks(ms: u64, tick_ms: u64)
    requires
        tick_ms > 0,
    ensures
        duration_to_tick_spec(ms, tick_ms) * tick_ms >= ms,
        (duration_to_tick_spec(ms, tick_ms) - 1) * tick_ms < ms || duration_to_tick_spec(ms, tick_ms) == 0,
{
    let q = ms / tick_ms;
    let rem = ms % tick_ms;
    assert(q * tick_ms + rem == ms && 0 <= rem < tick_ms) by (nonlinear_arith)
        requires
            tick_ms > 0,
            q == ms / tick_ms,
            rem == ms % tick_ms,
    ;
    assert(q * tick_ms <= ms);
    assert(q <= ms);
    if rem == 0 {
        assert(duration_to_tick_spec(ms, tick_ms) == q);
        assert((q - 1) * tick_ms == q * tick_ms - tick_ms) by (nonlinear_arith);
    } else {
        assert(q + 1 <= u64::MAX) by (nonlinear_arith)
            requires
                q * tick_ms + rem == ms,
                rem > 0,
                tick_ms >= 1,
                ms <= u64::MAX,
        ;
        assert(duration_to_tick_spec(ms, tick_ms) == q + 1);
        assert((q + 1) * tick_ms == q * tick_ms + tick_ms) by (nonlinear_arith);
    }
}

#[derive(Clone, Copy, Debug, PartialEq, Eq, Structural)]
pub struct WheelEntry {
    next_tick: Tick,
    head: usize,
}

/// The tick up to which a poll walks: the target, or the current tick if
/// the target lies behind it.
pub open spec fn poll_target(target: u64, current: u64) -> u64 {
    if target < current {
        current
    } else {
        target
    }
}

/// The wheel slot of `tick`.
pub open spec fn slot_of(tick: u64, mask: u64) -> int {
    (tick & mask) as int
}

proof fn lemma_slot_bound(tick: u64, mask: u64)
    ensures
        tick & mask <= mask,
{
    assert(tick & mask <= mask) by (bit_vector);
}

/// The list of slot `s`, `l`, is linked through `e` and starts at `head`.
pub open spec fn list_wf(e: Map<usize, Links>, mask: u64, s: int, l: Seq<usize>, head: usize) -> bool {
    &&& l.no_duplicates()
    &&& head == if l.len() == 0 {
        EMPTY
    } else {
        l[0]
    }
    &&& forall|i: int|
        0 <= i < l.len() ==> {
            &&& #[trigger] e.contains_key(l[i])
            &&& l[i] != EMPTY
            &&& slot_of(e[l[i]].0, mask) == s
            &&& e[l[i]].1 == if i == 0 {
                EMPTY
            } else {
                l[i - 1]
            }
            &&& e[l[i]].2 == if i == l.len() - 1 {
                EMPTY
            } else {
                l[i + 1]
            }
        }
}

/// A list keeps its shape when the links of its own keys are unchanged.
proof fn lemma_list_frame(
    e: Map<usize, Links>,
    e2: Map<usize, Links>,
    mask: u64,
    s: int,
    l: Seq<usize>,
    head: usize,
)
    requires
        list_wf(e, mask, s, l, head),
        forall|i: int| 0 <= i < l.len() ==> e2.contains_key(#[trigger] l[i]) && e2[l[i]] == e[l[i]],
    ensures
        list_wf(e2, mask, s, l, head),
{
    assert forall|i: int| 0 <= i < l.len() implies #[trigger] e2.contains_key(l[i]) && l[i] != EMPTY
        && slot_of(e2[l[i]].0, mask) == s && e2[l[i]].1 == (if i == 0 { EMPTY } else { l[i - 1] })
        && e2[l[i]].2 == (if i == l.len() - 1 { EMPTY } else { l[i + 1] }) by {
        assert(e.contains_key(l[i]));
    }
}

/// Putting `key` in front of a list.
proof fn lemma_list_push_front(
    e: Map<usize, Links>,
    mask: u64,
    s: int,
    l: Seq<usize>,
    head: usize,
    key: usize,
    tick: u64,
)
    requires
        list_wf(e, mask, s, l, head),
        !e.contains_key(key),
        key != EMPTY,
        slot_of(tick, mask) == s,
    ensures
        ({
            let e1 = e.insert(key, (tick, EMPTY, head));
            let e2 = if head != EMPTY {
                e1.insert(head, (e[head].0, key, e[head].2))
            } else {
                e1
            };
            list_wf(e2, mask, s, seq![key] + l, key)
        }),
{
    let e1 = e.insert(key, (tick, EMPTY, head));
    let e2 = if head != EMPTY {
        e1.insert(head, (e[head].0, key, e[head].2))
    } else {
        e1
    };
    let l2 = seq![key] + l;
    assert(l2[0] == key);
    assert forall|a: int, b: int| 0 <= a < l2.len() && 0 <= b < l2.len() && a != b implies l2[a] != l2[b] by {
        if a > 0 && b > 0 {
            assert(l2[a] == l[a - 1]);
            assert(l2[b] == l[b - 1]);
        } else if a == 0 {
            assert(e.contains_key(l[b - 1]));
        } else {
            assert(e.contains_key(l[a - 1]));
        }
    }
    assert(l2.no_duplicates());
    assert forall|i: int| 0 <= i < l2.len() implies {
        &&& #[trigger] e2.contains_key(l2[i])
        &&& l2[i] != EMPTY
        &&& slot_of(e2[l2[i]].0, mask) == s
        &&& e2[l2[i]].1 == if i == 0 { EMPTY } else { l2[i - 1] }
        &&& e2[l2[i]].2 == if i == l2.len() - 1 { EMPTY } else { l2[i + 1] }
    } by {
        if i == 0 {
            if head != EMPTY {
                assert(l.len() > 0);
                assert(e.contains_key(l[0]));
                assert(l[0] != key);
            }
        } else {
            assert(l2[i] == l[i - 1]);
            assert(e.contains_key(l[i - 1]));
            assert(l[i - 1] != key);
            if i == 1 {
                assert(l[0] == head);
            } else {
                assert(l[i - 1] != head) by {
                    assert(l[0] == head);
                }
            }
        }
    }
    assert(e2.contains_key(l2[0]));
    assert(list_wf(e2, mask, s, l2, key));
}

/// The links after `key` leaves its list: its neighbours point past it,
/// and it is gone.
pub open spec fn unlinked(e: Map<usize, Links>, key: usize) -> Map<usize, Links> {
    let prev = e[key].1;
    let next = e[key].2;
    let e1 = if prev != EMPTY {
        e.insert(prev, (e[prev].0, e[prev].1, next))
    } else {
        e
    };
    let e2 = if next != EMPTY {
        e1.insert(next, (e1[next].0, prev, e1[next].2))
    } else {
        e1
    };
    e2.remove(key)
}

/// One position of a list after the key at `i` left it.
proof fn lemma_list_remove_at(e: Map<usize, Links>, mask: u64, s: int, l: Seq<usize>, head: usize, i: int, j: int)
    requires
        list_wf(e, mask, s, l, head),
        0 <= i < l.len(),
        0 <= j < l.len() - 1,
    ensures
        ({
            let e3 = unlinked(e, l[i]);
            let l2 = l.remove(i);
            &&& e3.contains_key(l2[j])
            &&& l2[j] != EMPTY
            &&& slot_of(e3[l2[j]].0, mask) == s
            &&& e3[l2[j]].1 == if j == 0 { EMPTY } else { l2[j - 1] }
            &&& e3[l2[j]].2 == if j == l2.len() - 1 { EMPTY } else { l2[j + 1] }
        }),
{
    let key = l[i];
    let l2 = l.remove(i);
    let j1 = if j < i { j } else { j + 1 };
    assert(l2[j] == l[j1]);
    assert(e.contains_key(l[j1]));
    assert(e.contains_key(l[i]));
    assert(l[j1] != key);
    if i > 0 {
        assert(e.contains_key(l[i - 1]));
    }
    if i < l.len() - 1 {
        assert(e.contains_key(l[i + 1]));
    }
    if j > 0 {
        let jp = if j - 1 < i { j - 1 } else { j };
        assert(l2[j - 1] == l[jp]);
    }
    if j < l2.len() - 1 {
        let jn = if j + 1 < i { j + 1 } else { j + 2 };
        assert(l2[j + 1] == l[jn]);
    }
}

/// Taking the key at position `i` out of a list.
#[verifier::spinoff_prover]
proof fn lemma_list_remove(e: Map<usize, Links>, mask: u64, s: int, l: Seq<usize>, head: usize, i: int)
    requires
        list_wf(e, mask, s, l, head),
        0 <= i < l.len(),
    ensures
        list_wf(unlinked(e, l[i]), mask, s, l.remove(i), if e[l[i]].1 == EMPTY { e[l[i]].2 } else { head }),
{
    let key = l[i];
    let prev = e[key].1;
    let next = e[key].2;
    let e3 = unlinked(e, key);
    let l2 = l.remove(i);
    assert(e.contains_key(l[i]));
    assert(prev == if i == 0 { EMPTY } else { l[i - 1] });
    assert(next == if i == l.len() - 1 { EMPTY } else { l[i + 1] });
    if i > 0 {
        assert(e.contains_key(l[i - 1]));
        assert(prev != EMPTY);
    }
    assert forall|a: int, b: int| 0 <= a < l2.len() && 0 <= b < l2.len() && a != b implies l2[a] != l2[b] by {
        let a1 = if a < i { a } else { a + 1 };
        let b1 = if b < i { b } else { b + 1 };
        assert(l2[a] == l[a1]);
        assert(l2[b] == l[b1]);
    }
    let head2 = if prev == EMPTY { next } else { head };
    if l2.len() > 0 {
        if i == 0 {
            assert(l2[0] == l[1]);
        } else {
            assert(l2[0] == l[0]);
        }
    }
    assert(head2 == if l2.len() == 0 { EMPTY } else { l2[0] });
    lemma_list_wf_after_remove(e, mask, s, l, head, i, e3, l2, head2);
}

/// The list left by taking position `k` out of a linked list is linked
/// again, once it is known to hold no key twice and to start at `head`.
proof fn lemma_list_wf_after_remove(
    e0: Map<usize, Links>,
    mask: u64,
    s: int,
    l0: Seq<usize>,
    head0: usize,
    k: int,
    e: Map<usize, Links>,
    l: Seq<usize>,
    head: usize,
)
    requires
        list_wf(e0, mask, s, l0, head0),
        0 <= k < l0.len(),
        e == unlinked(e0, l0[k]),
        l == l0.remove(k),
        l.no_duplicates(),
        head == if l.len() == 0 { EMPTY } else { l[0] },
    ensures
        list_wf(e, mask, s, l, head),
{
    assert forall|i: int| 0 <= i < l.len() implies {
        &&& #[trigger] e.contains_key(l[i])
        &&& l[i] != EMPTY
        &&& slot_of(e[l[i]].0, mask) == s
        &&& e[l[i]].1 == if i == 0 { EMPTY } else { l[i - 1] }
        &&& e[l[i]].2 == if i == l.len() - 1 { EMPTY } else { l[i + 1] }
    } by {
        lemma_list_remove_at(e0, mask, s, l0, head0, k, i);
    }
}

/// Where the cursor `next` sits in the current slot's list `l`.
spec fn cursor_in(l: Seq<usize>, next: usize) -> int {
    choose|j: int| 0 <= j < l.len() && l[j] == next
}

proof fn lemma_cursor_at(l: Seq<usize>, next: usize, c: int)
    requires
        l.no_duplicates(),
        0 <= c < l.len(),
        l[c] == next,
    ensures
        cursor_in(l, next) == c,
{
    assert(l[c] == next);
    let j = cursor_in(l, next);
    assert(0 <= j < l.len() && l[j] == next);
}

/// The tick each slot records is at most the tick of every timeout in its
/// list, except those of the current slot `sc` from the cursor `next` on,
/// which the walk of that slot has not passed yet.
spec fn wheel_covers(e: Map<usize, Links>, lists: Seq<Seq<usize>>, wheel: Seq<WheelEntry>, sc: int, next: usize) -> bool {
    forall|s: int, p: int|
        #![trigger lists[s][p]]
        0 <= s < lists.len() && 0 <= p < lists[s].len() && !(s == sc && next != EMPTY && p >= cursor_in(lists[sc], next))
            ==> wheel[s].next_tick <= e[lists[s][p]].0
}

/// A hashed timing wheel: each pending timeout sits in the list of the slot
/// that its tick maps to; polling walks the slots tick by tick and hands back
/// the timeouts whose tick has come.
pub struct Timer<T> {
    tick_ms: u64,
    entries: Slab<Links>,
    states: Vec<Option<T>>,
    wheel: Vec<WheelEntry>,
    start: Instant,
    tick: Tick,
    next: usize,
    mask: u64,
    lists: Ghost<Seq<Seq<usize>>>,
}

impl<T> View for Timer<T> {
    type V = Map<usize, (u64, T)>;

    /// Each pending timeout by token: its tick and its state.
    closed spec fn view(&self) -> Map<usize, (u64, T)> {
        Map::new(
            |k: usize| slab_entries(self.entries).contains_key(k),
            |k: usize| (slab_entries(self.entries)[k].0, self.states@[k as int].unwrap()),
        )
    }
}

impl<T> Timer<T> {
    pub closed spec fn tick_spec(&self) -> u64 {
        self.tick
    }

    pub closed spec fn tick_ms_spec(&self) -> u64 {
        self.tick_ms
    }

    pub closed spec fn num_slots_spec(&self) -> nat {
        self.wheel@.len()
    }

    /// The wheel's invariant.
    pub closed spec fn inv(&self) -> bool {
        let e = slab_entries(self.entries);
        let lists = self.lists@;
        &&& e.dom().finite()
        &&& self.wheel@.len() > 0
        &&& self.mask as int == self.wheel@.len() - 1
        &&& lists.len() == self.wheel@.len()
        &&& forall|s: int| 0 <= s < lists.len() ==> #[trigger] list_wf(e, self.mask, s, lists[s], self.wheel@[s].head)
        &&& forall|k: usize| #[trigger] e.contains_key(k) ==> {
            &&& k != EMPTY
            &&& lists[slot_of(e[k].0, self.mask)].contains(k)
            &&& k < self.states@.len()
            &&& self.states@[k as int].is_some()
        }
        &&& forall|k: int| 0 <= k < self.states@.len() && #[trigger] self.states@[k].is_some() ==> e.contains_key(k as usize)
        &&& (self.next == EMPTY || lists[slot_of(self.tick, self.mask)].contains(self.next))
        &&& wheel_covers(e, lists, self.wheel@, slot_of(self.tick, self.mask), self.next)
    }

    fn slot_for(&self, tick: Tick) -> (r: usize)
        requires
            self.inv(),
        ensures
            r as int == slot_of(tick, self.mask),
            r < self.wheel@.len(),
    {
        proof {
            lemma_slot_bound(tick, self.mask);
        }
        let n = self.wheel.len();
        proof {
            assert(self.mask as int == n - 1);
        }
        (tick & self.mask) as usize
    }

    /// Whether the pending timeout `k` sits at or after the cursor in the
    /// list of the slot of the current tick.
    pub closed spec fn at_or_after_cursor(&self, k: usize) -> bool {
        &&& self.next != EMPTY
        &&& {
            let l = self.lists@[slot_of(self.tick, self.mask)];
            exists|i: int, j: int| #![trigger l[i], l[j]] 0 <= i <= j < l.len() && l[i] == self.next && l[j] == k
        }
    }

    /// Whether a walk of the wheel from where it stands reaches the pending
    /// timeout `k` by its tick: it is due after the current tick, or it sits
    /// at or after the cursor in the current slot.
    pub open spec fn reachable(&self, k: usize) -> bool {
        &&& self@.contains_key(k)
        &&& (self@[k].0 > self.tick_spec() || self.at_or_after_cursor(k))
    }

    /// The instant the timer counts its ticks from.
    pub closed spec fn start_spec(&self) -> Instant {
        self.start
    }

    /// The length of a tick in milliseconds.
    pub fn tick_ms(&self) -> (r: u64)
        ensures
            r == self.tick_ms_spec(),
    {
        self.tick_ms
    }

    /// The instant the timer counts its ticks from.
    pub fn start(&self) -> (r: Instant)
        ensures
            r == self.start_spec(),
    {
        self.start
    }

    /// The number of pending timeouts.
    pub fn len_pending(&self) -> (r: usize)
        requires
            self.inv(),
        ensures
            r == self@.len(),
    {
        proof {
            assert(self@.dom() =~= slab_entries(self.entries).dom());
        }
        slab_len(&self.entries)
    }

    /// A timer whose wheel has `num_slots` slots and whose entry store has
    /// room for `capacity` timeouts, both rounded up to powers of two,
    /// counting ticks of `tick_ms` milliseconds from `start`.
    pub fn new(tick_ms: u64, num_slots: usize, capacity: usize, start: Instant) -> (r: Timer<T>)
        requires
            next_pow2(num_slots as nat) <= usize::MAX,
            next_pow2(capacity as nat) <= (isize::MAX as usize) / 32,
        ensures
            r.inv(),
            r@ == Map::<usize, (u64, T)>::empty(),
            r.tick_spec() == 0,
            r.tick_ms_spec() == tick_ms,
            r.num_slots_spec() == next_pow2(num_slots as nat),
    {
        let slots_asked = num_slots;
        let num_slots = next_power_of_two(slots_asked);
        let capacity = next_power_of_two(capacity);
        proof {
            lemma_next_pow2_pos(slots_asked as nat);
        }
        let mask = (num_slots as u64) - 1;
        let mut wheel: Vec<WheelEntry> = Vec::new();
        let mut i: usize = 0;
        while i < num_slots
            invariant
                i <= num_slots,
                wheel@.len() == i,
                forall|j: int| 0 <= j < i ==> #[trigger] wheel@[j] == (WheelEntry { next_tick: TICK_MAX, head: EMPTY }),
            decreases num_slots - i,
        {
            wheel.push(WheelEntry { next_tick: TICK_MAX, head: EMPTY });
            i = i + 1;
        }
        let entries = slab_with_capacity(capacity);
        let ghost lists = Seq::new(num_slots as nat, |j: int| Seq::<usize>::empty());
        let r = Timer {
            tick_ms,
            entries,
            states: Vec::new(),
            wheel,
            start,
            tick: 0,
            next: EMPTY,
            mask,
            lists: Ghost(lists),
        };
        proof {
            assert forall|s: int| 0 <= s < lists.len() implies #[trigger] list_wf(slab_entries(r.entries), r.mask, s, lists[s], r.wheel@[s].head) by {
                assert(lists[s] =~= Seq::<usize>::empty());
            }
            assert(r@ =~= Map::<usize, (u64, T)>::empty());
        }
        r
    }

    /// Files `state` under a fresh token in the list of `tick`'s slot.
    fn insert(&mut self, tick: Tick, state: T) -> (r: Timeout)
        requires
            old(self).inv(),
            old(self)@.len() < (isize::MAX as usize) / 64,
        ensures
            final(self).inv(),
            !old(self)@.contains_key(r.token_spec()),
            final(self)@ == old(self)@.insert(r.token_spec(), (tick, state)),
            r.tick_spec() == tick,
            final(self).tick_spec() == old(self).tick_spec(),
            final(self).tick_ms_spec() == old(self).tick_ms_spec(),
            final(self).num_slots_spec() == old(self).num_slots_spec(),
            final(self).wakes_for(r.token_spec()),
    {
        let ghost e0 = slab_entries(self.entries);
        proof {
            assert(self@.dom() =~= e0.dom());
            assert(self.lists@.len() == self.wheel@.len());
        }
        let slot = self.slot_for(tick);
        let curr = self.wheel[slot];
        let token = slab_insert(&mut self.entries, (tick, EMPTY, curr.head));
        grow_states(&mut self.states, token);
        let ghost grown = self.states@;
        proof {
            if token < old(self).states@.len() {
                if self.states@[token as int].is_some() {
                    assert(old(self).states@[token as int].is_some());
                    assert(e0.contains_key(token));
                }
            }
        }
        self.states.set(token, Some(state));
        let ghost e1 = slab_entries(self.entries);
        if curr.head != EMPTY {
            proof {
                assert(list_wf(e0, self.mask, slot as int, self.lists@[slot as int], self.wheel@[slot as int].head));
                assert(self.lists@[slot as int].len() > 0);
                assert(e0.contains_key(self.lists@[slot as int][0]));
            }
            let links = slab_get(&self.entries, curr.head).unwrap();
            slab_set(&mut self.entries, curr.head, (links.0, token, links.2));
        }
        let next_tick = if tick < curr.next_tick { tick } else { curr.next_tick };
        self.wheel.set(slot, WheelEntry { next_tick, head: token });
        let ghost old_lists = self.lists@;
        proof {
            lemma_list_push_front(e0, self.mask, slot as int, old_lists[slot as int], curr.head, token, tick);
            self.lists@ = old_lists.update(slot as int, seq![token] + old_lists[slot as int]);
        }
        proof {
            let e = slab_entries(self.entries);
            assert(e.dom().finite());
            assert forall|s: int| 0 <= s < self.lists@.len() implies #[trigger] list_wf(e, self.mask, s, self.lists@[s], self.wheel@[s].head) by {
                if s == slot as int {
                    let e1x = e0.insert(token, (tick, EMPTY, curr.head));
                    let e2x = if curr.head != EMPTY {
                        e1x.insert(curr.head, (e0[curr.head].0, token, e0[curr.head].2))
                    } else {
                        e1x
                    };
                    if curr.head != EMPTY {
                        assert(e0.contains_key(curr.head));
                        assert(curr.head != token);
                    }
                    assert(e =~= e2x);
                    assert(self.wheel@[s].head == token);
                    assert(self.lists@[s] == seq![token] + old_lists[s]);
                } else {
                    assert(list_wf(e0, self.mask, s, old_lists[s], old(self).wheel@[s].head));
                    assert forall|i: int| 0 <= i < old_lists[s].len() implies e.contains_key(#[trigger] old_lists[s][i])
                        && e[old_lists[s][i]] == e0[old_lists[s][i]] by {
                        assert(e0.contains_key(old_lists[s][i]));
                        if curr.head != EMPTY && old_lists[s][i] == curr.head {
                            assert(list_wf(e0, self.mask, slot as int, old_lists[slot as int], curr.head));
                            assert(old_lists[slot as int][0] == curr.head);
                            assert(e0.contains_key(old_lists[slot as int][0]));
                        }
                    }
                    lemma_list_frame(e0, e, self.mask, s, old_lists[s], old(self).wheel@[s].head);
                }
            }
            assert forall|k: usize| #[trigger] e.contains_key(k) implies k != EMPTY by {
                if k != token {
                    assert(e0.contains_key(k));
                }
            }
            assert forall|k: usize| #[trigger] e.contains_key(k) implies k < self.states@.len()
                && self.states@[k as int].is_some() by {
                if k != token {
                    assert(e0.contains_key(k));
                    assert(k < old(self).states@.len() && old(self).states@[k as int].is_some());
                    assert(grown[k as int] == old(self).states@[k as int]);
                }
            }
            assert forall|k: usize| #[trigger] e.contains_key(k) implies self.lists@[slot_of(e[k].0, self.mask)].contains(k) by {
                if k == token {
                    if curr.head != EMPTY {
                        assert(e0.contains_key(curr.head));
                    }
                    assert(e[token].0 == tick);
                    assert(self.lists@[slot as int][0] == token);
                    assert(self.states@[token as int] == Some(state));
                    assert(slot_of(e[k].0, self.mask) == slot as int);
                    assert(self.lists@[slot as int].contains(token));
                } else {
                    assert(e0.contains_key(k));
                    assert(k < old(self).states@.len() && old(self).states@[k as int].is_some());
                    assert(grown[k as int] == old(self).states@[k as int]);
                    assert(self.states@[k as int] == grown[k as int]);
                    assert(e[k].0 == e0[k].0);
                    let sk = slot_of(e0[k].0, self.mask);
                    lemma_slot_bound(e0[k].0, self.mask);
                    assert(old_lists[sk].contains(k));
                    if sk == slot as int {
                        let j = choose|j: int| 0 <= j < old_lists[sk].len() && old_lists[sk][j] == k;
                        assert(self.lists@[sk][j + 1] == k);
                        assert(self.lists@[sk].contains(k));
                    } else {
                        assert(self.lists@[sk] == old_lists[sk]);
                        assert(self.lists@[sk].contains(k));
                    }
                }
            }
            assert forall|k: int| 0 <= k < self.states@.len() && #[trigger] self.states@[k].is_some() implies e.contains_key(k as usize) by {
                if k != token as int {
                    assert(self.states@[k] == grown[k]);
                    if k < old(self).states@.len() {
                        assert(grown[k] == old(self).states@[k]);
                        assert(old(self).states@[k].is_some());
                        assert(e0.contains_key(k as usize));
                    } else {
                        assert(grown[k].is_none());
                    }
                }
            }
            if self.next != EMPTY {
                let sc = slot_of(self.tick, self.mask);
                lemma_slot_bound(self.tick, self.mask);
                assert(old_lists[sc].contains(self.next));
                if sc == slot as int {
                    let j = choose|j: int| 0 <= j < old_lists[sc].len() && old_lists[sc][j] == self.next;
                    assert(self.lists@[sc][j + 1] == self.next);
                } else {
                    assert(self.lists@[sc] == old_lists[sc]);
                }
            }
            assert(self@ =~= old(self)@.insert(token, (tick, state)));
            assert(e.dom().finite());
            assert(self.wheel@.len() > 0);
            assert(self.mask as int == self.wheel@.len() - 1);
            assert(self.lists@.len() == self.wheel@.len());
            assert(self.next == EMPTY || self.lists@[slot_of(self.tick, self.mask)].contains(self.next));
            let sc = slot_of(self.tick, self.mask);
            lemma_slot_bound(self.tick, self.mask);
            if self.next != EMPTY && sc == slot as int {
                assert(list_wf(e0, self.mask, sc, old_lists[sc], old(self).wheel@[sc].head));
                assert(old_lists[sc].contains(self.next));
                let c = choose|c: int| 0 <= c < old_lists[sc].len() && old_lists[sc][c] == self.next;
                lemma_cursor_at(old_lists[sc], self.next, c);
                assert(list_wf(e, self.mask, sc, self.lists@[sc], self.wheel@[sc].head));
                assert(self.lists@[sc][c + 1] == self.next);
                lemma_cursor_at(self.lists@[sc], self.next, c + 1);
            }
            assert forall|s: int, p: int|
                #![trigger self.lists@[s][p]]
                0 <= s < self.lists@.len() && 0 <= p < self.lists@[s].len()
                    && !(s == sc && self.next != EMPTY && p >= cursor_in(self.lists@[sc], self.next))
                    implies self.wheel@[s].next_tick <= e[self.lists@[s][p]].0 by {
                if s == slot as int {
                    if p > 0 {
                        let k = old_lists[s][p - 1];
                        assert(self.lists@[s][p] == k);
                        assert(list_wf(e0, self.mask, s, old_lists[s], old(self).wheel@[s].head));
                        assert(e0.contains_key(k));
                        assert(old(self).wheel@[s].next_tick <= e0[old_lists[s][p - 1]].0);
                    }
                } else {
                    assert(self.lists@[s] == old_lists[s]);
                    assert(list_wf(e0, self.mask, s, old_lists[s], old(self).wheel@[s].head));
                    assert(e0.contains_key(old_lists[s][p]));
                    assert(old(self).wheel@[s].next_tick <= e0[old_lists[s][p]].0);
                }
            }
            assert(self.lists@[slot as int][0] == token);
            assert(self.wheel@[slot as int].next_tick <= e[self.lists@[slot as int][0]].0);
            assert(self@[token].0 == tick);
            self.lemma_recorded_in_time(token);
        }
        Timeout { token: Token(token), tick }
    }

    /// Takes `token`'s entry, whose links are `links`, out of its slot's list
    /// and out of the timer, moving the cursor past it; hands back its state.
    fn unlink(&mut self, links: Links, token: usize) -> (r: T)
        requires
            old(self).inv(),
            slab_entries(old(self).entries).contains_key(token),
            links == slab_entries(old(self).entries)[token],
        ensures
            final(self).inv(),
            old(self)@.contains_key(token),
            r == old(self)@[token].1,
            final(self)@ == old(self)@.remove(token),
            final(self).tick_spec() == old(self).tick_spec(),
            final(self).tick_ms_spec() == old(self).tick_ms_spec(),
            final(self).num_slots_spec() == old(self).num_slots_spec(),
            final(self).next == if old(self).next == token {
                links.2
            } else {
                old(self).next
            },
            final(self).wheel@.len() == old(self).wheel@.len(),
            forall|s: int| 0 <= s < final(self).wheel@.len() ==> #[trigger] final(self).wheel@[s].next_tick
                == old(self).wheel@[s].next_tick,
            final(self).mask == old(self).mask,
            exists|i: int| #![trigger old(self).lists@[slot_of(links.0, old(self).mask)][i]]
                0 <= i < old(self).lists@[slot_of(links.0, old(self).mask)].len()
                && old(self).lists@[slot_of(links.0, old(self).mask)][i] == token
                && final(self).lists@ == old(self).lists@.update(
                    slot_of(links.0, old(self).mask),
                    old(self).lists@[slot_of(links.0, old(self).mask)].remove(i),
                ),
    {
        let ghost e0 = slab_entries(self.entries);
        let ghost old_lists = self.lists@;
        let ghost s = slot_of(links.0, self.mask);
        proof {
            lemma_slot_bound(links.0, self.mask);
            assert(old_lists[s].contains(token));
            assert(list_wf(e0, self.mask, s, old_lists[s], self.wheel@[s].head));
        }
        let ghost i = choose|i: int| 0 <= i < old_lists[s].len() && old_lists[s][i] == token;
        let ghost l = old_lists[s];
        proof {
            assert(e0.contains_key(l[i]));
            if i > 0 {
                assert(e0.contains_key(l[i - 1]));
            }
            if i < l.len() - 1 {
                assert(e0.contains_key(l[i + 1]));
            }
        }
        let prev = links.1;
        let next = links.2;
        if prev == EMPTY {
            let slot = self.slot_for(links.0);
            let w = self.wheel[slot];
            self.wheel.set(slot, WheelEntry { next_tick: w.next_tick, head: next });
        } else {
            let p = slab_get(&self.entries, prev).unwrap();
            slab_set(&mut self.entries, prev, (p.0, p.1, next));
        }
        if next != EMPTY {
            let n = slab_get(&self.entries, next).unwrap();
            slab_set(&mut self.entries, next, (n.0, prev, n.2));
            if token == self.next {
                self.next = next;
            }
        } else if token == self.next {
            self.next = EMPTY;
        }
        let _ = slab_remove(&mut self.entries, token);
        let mut taken: Option<T> = None;
        self.states.set_and_swap(token, &mut taken);
        let n_states = self.states.len();
        proof {
            lemma_list_remove(e0, self.mask, s, l, old(self).wheel@[s].head, i);
            self.lists@ = old_lists.update(s, l.remove(i));
            let e = slab_entries(self.entries);
            assert forall|t: int| 0 <= t < self.lists@.len() implies #[trigger] list_wf(e, self.mask, t, self.lists@[t], self.wheel@[t].head) by {
                if t != s {
                    assert(list_wf(e0, self.mask, t, old_lists[t], old(self).wheel@[t].head));
                    assert(self.wheel@[t] == old(self).wheel@[t]);
                    assert forall|j: int| 0 <= j < old_lists[t].len() implies e.contains_key(#[trigger] old_lists[t][j])
                        && e[old_lists[t][j]] == e0[old_lists[t][j]] by {
                        let x = old_lists[t][j];
                        assert(e0.contains_key(x));
                        assert(x != token);
                        if prev != EMPTY {
                            assert(x != prev);
                        }
                        if next != EMPTY {
                            assert(x != next);
                        }
                    }
                    lemma_list_frame(e0, e, self.mask, t, old_lists[t], old(self).wheel@[t].head);
                }
            }
            assert forall|k: usize| #[trigger] e.contains_key(k) implies k != EMPTY && k < self.states@.len()
                && self.states@[k as int].is_some() by {
                assert(e0.contains_key(k));
                assert(k != token);
            }
            assert forall|k: usize| #[trigger] e.contains_key(k) implies self.lists@[slot_of(e[k].0, self.mask)].contains(k) by {
                assert(e0.contains_key(k));
                assert(k != token);
                assert(e[k].0 == e0[k].0);
                let sk = slot_of(e0[k].0, self.mask);
                lemma_slot_bound(e0[k].0, self.mask);
                assert(old_lists[sk].contains(k));
                let j = choose|j: int| 0 <= j < old_lists[sk].len() && old_lists[sk][j] == k;
                if sk == s {
                    assert(j != i);
                    if j < i {
                        assert(l.remove(i)[j] == k);
                    } else {
                        assert(l.remove(i)[j - 1] == k);
                    }
                    assert(self.lists@[sk].contains(k));
                } else {
                    assert(self.lists@[sk] == old_lists[sk]);
                    assert(self.lists@[sk].contains(k));
                }
            }
            assert forall|k: int| 0 <= k < self.states@.len() && #[trigger] self.states@[k].is_some() implies e.contains_key(k as usize) by {
                assert(k != token as int);
                assert(old(self).states@[k].is_some());
            }
            if self.next != EMPTY {
                let sc = slot_of(self.tick, self.mask);
                lemma_slot_bound(self.tick, self.mask);
                if old(self).next == token {
                    assert(list_wf(e0, self.mask, sc, old_lists[sc], old(self).wheel@[sc].head));
                    let jt = choose|jt: int| 0 <= jt < old_lists[sc].len() && old_lists[sc][jt] == token;
                    assert(sc == s);
                    assert(l[i + 1] == next);
                    assert(l.remove(i)[i] == next);
                    assert(self.lists@[sc].contains(self.next));
                } else {
                    assert(old_lists[sc].contains(self.next));
                    let j = choose|j: int| 0 <= j < old_lists[sc].len() && old_lists[sc][j] == self.next;
                    if sc == s {
                        assert(j != i);
                        if j < i {
                            assert(l.remove(i)[j] == self.next);
                        } else {
                            assert(l.remove(i)[j - 1] == self.next);
                        }
                    } else {
                        assert(self.lists@[sc] == old_lists[sc]);
                    }
                    assert(self.lists@[sc].contains(self.next));
                }
            }
            assert(self@ =~= old(self)@.remove(token));
            assert(old_lists[s][i] == token);
            let sc = slot_of(self.tick, self.mask);
            lemma_slot_bound(self.tick, self.mask);
            let nl = self.lists@;
            let mut c0: int = 0;
            if old(self).next != EMPTY {
                assert(list_wf(e0, self.mask, sc, old_lists[sc], old(self).wheel@[sc].head));
                assert(old_lists[sc].contains(old(self).next));
                c0 = choose|c: int| 0 <= c < old_lists[sc].len() && old_lists[sc][c] == old(self).next;
                lemma_cursor_at(old_lists[sc], old(self).next, c0);
                if old(self).next == token {
                    assert(sc == s);
                    assert(c0 == i);
                }
                if self.next != EMPTY {
                    assert(list_wf(e, self.mask, sc, nl[sc], self.wheel@[sc].head));
                    if sc == s {
                        if old(self).next == token {
                            assert(nl[sc][i] == self.next);
                            lemma_cursor_at(nl[sc], self.next, i);
                        } else if c0 < i {
                            assert(nl[sc][c0] == self.next);
                            lemma_cursor_at(nl[sc], self.next, c0);
                        } else {
                            assert(c0 != i);
                            assert(nl[sc][c0 - 1] == self.next);
                            lemma_cursor_at(nl[sc], self.next, c0 - 1);
                        }
                    } else {
                        assert(nl[sc] == old_lists[sc]);
                    }
                } else {
                    assert(old(self).next == token);
                    assert(i == l.len() - 1);
                }
            }
            assert forall|s2: int, p2: int|
                #![trigger nl[s2][p2]]
                0 <= s2 < nl.len() && 0 <= p2 < nl[s2].len()
                    && !(s2 == sc && self.next != EMPTY && p2 >= cursor_in(nl[sc], self.next))
                    implies self.wheel@[s2].next_tick <= e[nl[s2][p2]].0 by {
                let q = if s2 == s && p2 >= i { p2 + 1 } else { p2 };
                assert(nl[s2][p2] == old_lists[s2][q]);
                assert(list_wf(e0, self.mask, s2, old_lists[s2], old(self).wheel@[s2].head));
                assert(e0.contains_key(old_lists[s2][q]));
                assert(old_lists[s2][q] != token);
                assert(old(self).wheel@[s2].next_tick <= e0[old_lists[s2][q]].0);
            }
        }
        taken.unwrap()
    }

    /// Cancels a pending timeout and hands back its state; `None` when the
    /// timeout is no longer pending.
    pub fn cancel_timeout(&mut self, timeout: &Timeout) -> (r: Option<T>)
        requires
            old(self).inv(),
        ensures
            final(self).inv(),
            final(self).tick_spec() == old(self).tick_spec(),
            final(self).tick_ms_spec() == old(self).tick_ms_spec(),
            final(self).num_slots_spec() == old(self).num_slots_spec(),
            cancel_result(old(self)@, final(self)@, timeout.token_spec(), timeout.tick_spec(), r),
            r matches Some(v) ==> old(self)@.contains_key(timeout.token_spec())
                && old(self)@[timeout.token_spec()] == (timeout.tick_spec(), v),
            old(self)@.contains_key(timeout.token_spec()) && old(self)@[timeout.token_spec()].0 != timeout.tick_spec()
                ==> r is None && final(self)@ == old(self)@,
    {
        let links = match slab_get(&self.entries, timeout.token.0) {
            Some(e) => e,
            None => return None,
        };
        if links.0 != timeout.tick {
            return None;
        }
        let v = self.unlink(links, timeout.token.0);
        proof {
            law_cancel_needs_matching_tick(old(self)@, self@, timeout.token_spec(), timeout.tick_spec(), Some(v));
        }
        Some(v)
    }

    /// Files `state` to fire at `delay_from_start` after the timer's start,
    /// or on the next tick if that tick has passed; on a wheel that has
    /// walked to the last tick, only the last tick itself has not passed.
    pub fn set_timeout_at(&mut self, delay_from_start: Duration, state: T) -> (r: Result<Timeout, TimerError>)
        requires
            old(self).inv(),
            old(self).tick_ms_spec() > 0,
            old(self)@.len() < (isize::MAX as usize) / 64,
            old(self).tick_spec() < u64::MAX || duration_to_tick_spec(
                millis_spec(duration_secs(delay_from_start), duration_nanos(delay_from_start)),
                old(self).tick_ms_spec(),
            ) == u64::MAX,
        ensures
            final(self).inv(),
            final(self).tick_spec() == old(self).tick_spec(),
            final(self).tick_ms_spec() == old(self).tick_ms_spec(),
            final(self).num_slots_spec() == old(self).num_slots_spec(),
            r is Ok,
            ({
                let t = r->Ok_0;
                let d = duration_to_tick_spec(
                    millis_spec(duration_secs(delay_from_start), duration_nanos(delay_from_start)),
                    old(self).tick_ms_spec(),
                );
                &&& t.tick_spec() == if d < old(self).tick_spec() {
                    (old(self).tick_spec() + 1) as u64
                } else {
                    d
                }
                &&& !old(self)@.contains_key(t.token_spec())
                &&& final(self)@ == old(self)@.insert(t.token_spec(), (t.tick_spec(), state))
                &&& final(self).next_tick_spec() <= t.tick_spec()
            }),
    {
        let mut tick = duration_to_tick(delay_from_start, self.tick_ms);
        if tick < self.tick {
            tick = self.tick + 1;
        }
        Ok(self.insert(tick, state))
    }

    /// Files `state` to fire `delay_from_now` from now. Fails when the
    /// deadline overflows a `Duration`. The wheel must not have walked to
    /// the last tick, past which no tick is left to file a timeout under.
    pub fn set_timeout(&mut self, delay_from_now: Duration, state: T) -> (r: Result<Timeout, TimerError>)
        requires
            old(self).inv(),
            old(self).tick_ms_spec() > 0,
            old(self)@.len() < (isize::MAX as usize) / 64,
            old(self).tick_spec() < u64::MAX,
        ensures
            final(self).inv(),
            final(self).tick_spec() == old(self).tick_spec(),
            final(self).tick_ms_spec() == old(self).tick_ms_spec(),
            final(self).num_slots_spec() == old(self).num_slots_spec(),
            match r {
                Ok(t) => {
                    &&& t.tick_spec() >= old(self).tick_spec()
                    &&& !old(self)@.contains_key(t.token_spec())
                    &&& final(self)@ == old(self)@.insert(t.token_spec(), (t.tick_spec(), state))
                    &&& final(self).next_tick_spec() <= t.tick_spec()
                },
                Err(_) => final(self)@ == old(self)@,
            },
            exists|elapsed: Duration| #[trigger]
                set_timeout_outcome(elapsed, delay_from_now, old(self).tick_ms_spec(), old(self).tick_spec(), r),
            total_nanos(delay_from_now) == 0 ==> r is Ok,
    {
        let elapsed = instant_elapsed(&self.start);
        let r = self.set_timeout_after(elapsed, delay_from_now, state);
        proof {
            assert(set_timeout_outcome(elapsed, delay_from_now, old(self).tick_ms_spec(), old(self).tick_spec(), r));
            assert(duration_secs(elapsed) * 1_000_000_000 <= u64::MAX * 1_000_000_000);
        }
        r
    }

    /// Files `state` to fire `delay_from_now` after the moment when
    /// `elapsed` had passed since the timer's start. Fails when that
    /// deadline overflows a `Duration`.
    pub fn set_timeout_after(&mut self, elapsed: Duration, delay_from_now: Duration, state: T) -> (r: Result<Timeout, TimerError>)
        requires
            old(self).inv(),
            old(self).tick_ms_spec() > 0,
            old(self)@.len() < (isize::MAX as usize) / 64,
            old(self).tick_spec() < u64::MAX,
            duration_nanos(elapsed) < 1_000_000_000,
        ensures
            final(self).inv(),
            final(self).tick_spec() == old(self).tick_spec(),
            final(self).tick_ms_spec() == old(self).tick_ms_spec(),
            final(self).num_slots_spec() == old(self).num_slots_spec(),
            match r {
                Ok(t) => {
                    &&& t.tick_spec() >= old(self).tick_spec()
                    &&& !old(self)@.contains_key(t.token_spec())
                    &&& final(self)@ == old(self)@.insert(t.token_spec(), (t.tick_spec(), state))
                    &&& final(self).next_tick_spec() <= t.tick_spec()
                },
                Err(_) => final(self)@ == old(self)@,
            },
            set_timeout_outcome(elapsed, delay_from_now, old(self).tick_ms_spec(), old(self).tick_spec(), r),
            r is Err <==> total_nanos(elapsed) + total_nanos(delay_from_now) >= (u64::MAX + 1) * 1_000_000_000,
            r matches Ok(t) ==> (total_nanos(elapsed) + total_nanos(delay_from_now) <= u64::MAX * 1_000_000
                ==> t.tick_spec() * old(self).tick_ms_spec() * 1_000_000 >= total_nanos(elapsed) + total_nanos(delay_from_now)),
            r matches Ok(t) ==> (t.tick_spec() > old(self).tick_spec() + 1
                ==> (t.tick_spec() - 1) * old(self).tick_ms_spec() * 1_000_000 < total_nanos(elapsed) + total_nanos(delay_from_now)),
    {
        let ghost tick_ms = self.tick_ms;
        let ghost current = self.tick;
        match duration_checked_add(elapsed, delay_from_now) {
            Some(delay_from_start) => {
                let r = self.set_timeout_at(delay_from_start, state);
                proof {
                    let t = r->Ok_0;
                    assert(timeout_tick(delay_from_start, tick_ms, current) == t.tick_spec());
                    assert(set_timeout_outcome(elapsed, delay_from_now, tick_ms, current, r));
                    assert(tick_ms == old(self).tick_ms_spec() && current == old(self).tick_spec());
                    law_timeout_not_before_deadline(elapsed, delay_from_now, tick_ms, current, r);
                }
                r
            },
            None => {
                let r: Result<Timeout, TimerError> = Err(TimerError);
                proof {
                    assert(set_timeout_outcome(elapsed, delay_from_now, tick_ms, current, r));
                    assert(tick_ms == old(self).tick_ms_spec() && current == old(self).tick_spec());
                }
                r
            },
        }
    }

    /// Walks the wheel up to `target_tick` and hands back the state of one
    /// timeout whose tick has come, taking it out; the walk goes on from
    /// there at the next call, so every other timeout it would have reached
    /// is still reached, and those already due come after it in the slot's
    /// list. `None` once every slot up to the target has been walked: then no
    /// timeout that the walk reaches is due by the target, and the tick the
    /// timer asks to be polled at next comes in time for every pending one.
    pub fn poll_to(&mut self, target_tick: Tick) -> (r: Option<T>)
        requires
            old(self).inv(),
            old(self).tick_spec() < u64::MAX,
            target_tick < u64::MAX,
        ensures
            final(self).inv(),
            final(self).tick_ms_spec() == old(self).tick_ms_spec(),
            final(self).num_slots_spec() == old(self).num_slots_spec(),
            old(self).tick_spec() <= final(self).tick_spec(),
            r matches Some(v) ==> exists|k: usize| {
                &&& #[trigger] old(self)@.contains_key(k)
                &&& old(self)@[k].1 == v
                &&& old(self)@[k].0 <= final(self).tick_spec()
                &&& final(self).tick_spec() <= poll_target(target_tick, old(self).tick_spec())
                &&& final(self)@ == old(self)@.remove(k)
                &&& forall|j: usize| #[trigger] old(self).reachable(j) && j != k ==> final(self).reachable(j)
                &&& forall|j: usize| #[trigger] old(self).reachable(j) && j != k && old(self)@[j].0 <= final(self).tick_spec()
                    ==> final(self).at_or_after_cursor(j)
            },
            r is None ==> final(self)@ == old(self)@,
            r is None ==> final(self).tick_spec() == poll_target(target_tick, old(self).tick_spec()) + 1,
            r is None ==> forall|k: usize| #[trigger] old(self).reachable(k)
                ==> old(self)@[k].0 > poll_target(target_tick, old(self).tick_spec()),
            r is None ==> forall|k: usize| #[trigger] final(self)@.contains_key(k) ==> final(self).wakes_for(k),
    {
        let mut upto = target_tick;
        if upto < self.tick {
            upto = self.tick;
        }
        let ghost target = upto;
        let ghost mut cpos: int = 0;
        proof {
            if self.next != EMPTY {
                let sc = slot_of(self.tick, self.mask);
                cpos = choose|j: int| 0 <= j < self.lists@[sc].len() && self.lists@[sc][j] == self.next;
            }
        }
        let ghost cpos0 = cpos;
        let ghost e0 = slab_entries(self.entries);
        let ghost l0 = self.lists@[slot_of(self.tick, self.mask)];
        while self.tick <= upto
            invariant
                self.inv(),
                old(self).inv(),
                upto == target,
                target == poll_target(target_tick, old(self).tick),
                target < u64::MAX,
                old(self).tick <= self.tick <= target + 1,
                self@ == old(self)@,
                self.tick_ms == old(self).tick_ms,
                self.wheel@.len() == old(self).wheel@.len(),
                self.next != EMPTY ==> {
                    let sc = slot_of(self.tick, self.mask);
                    &&& 0 <= cpos < self.lists@[sc].len()
                    &&& self.lists@[sc][cpos] == self.next
                },
                forall|k: usize| #[trigger] self@.contains_key(k) && old(self).tick < self@[k].0 ==> self@[k].0 >= self.tick,
                self.tick > old(self).tick ==> {
                    let sc = slot_of(self.tick, self.mask);
                    let l = self.lists@[sc];
                    let walked = if self.next == EMPTY { l.len() as int } else { cpos };
                    forall|j: int| 0 <= j < walked ==> #[trigger] slab_entries(self.entries)[l[j]].0 > self.tick
                },
                slab_entries(self.entries) == e0,
                self.lists@ == old(self).lists@,
                e0 == slab_entries(old(self).entries),
                l0 == old(self).lists@[slot_of(old(self).tick, old(self).mask)],
                self.mask == old(self).mask,
                old(self).next != EMPTY ==> {
                    &&& 0 <= cpos0 < l0.len()
                    &&& l0[cpos0] == old(self).next
                    &&& {
                        let bound = if self.tick > old(self).tick || self.next == EMPTY {
                            l0.len() as int
                        } else {
                            cpos
                        };
                        forall|j: int| cpos0 <= j < bound ==> #[trigger] e0[l0[j]].0 > old(self).tick
                    }
                },
                self.tick == old(self).tick && self.next != EMPTY ==> cpos0 <= cpos && old(self).next != EMPTY,
                self.tick > upto ==> forall|p: int| 0 <= p < self.lists@[slot_of(self.tick, self.mask)].len()
                    ==> #[trigger] self.wheel@[slot_of(self.tick, self.mask)].next_tick
                        <= slab_entries(self.entries)[self.lists@[slot_of(self.tick, self.mask)][p]].0,
            decreases target + 1 - self.tick, if self.next == EMPTY {
                0
            } else {
                self.lists@[slot_of(self.tick, self.mask)].len() - cpos
            },
        {
            let curr = self.next;
            if curr == EMPTY {
                proof {
                    self.lemma_slot_walked(old(self).tick);
                }
                self.tick = self.tick + 1;
                let slot = self.slot_for(self.tick);
                self.next = self.wheel[slot].head;
                if self.next == EMPTY {
                    let w = self.wheel[slot];
                    self.wheel.set(slot, WheelEntry { next_tick: TICK_MAX, head: w.head });
                }
                proof {
                    let e = slab_entries(self.entries);
                    assert(list_wf(e, self.mask, slot as int, self.lists@[slot as int], self.wheel@[slot as int].head));
                    if self.lists@[slot as int].len() > 0 {
                        assert(e.contains_key(self.lists@[slot as int][0]));
                    }
                    cpos = 0;
                }
            } else {
                let slot = self.slot_for(self.tick);
                if curr == self.wheel[slot].head {
                    let w = self.wheel[slot];
                    self.wheel.set(slot, WheelEntry { next_tick: TICK_MAX, head: w.head });
                }
                proof {
                    let e = slab_entries(self.entries);
                    assert(list_wf(e, self.mask, slot as int, self.lists@[slot as int], self.wheel@[slot as int].head));
                    assert(e.contains_key(self.lists@[slot as int][cpos]));
                }
                let links = slab_get(&self.entries, curr).unwrap();
                if links.0 <= self.tick {
                    let ghost pre = *self;
                    let v = self.unlink(links, curr);
                    proof {
                        assert(pre@.contains_key(curr));
                        assert(old(self)@.contains_key(curr));
                        assert(old(self)@[curr].1 == v);
                        assert(old(self)@[curr].0 <= self.tick);
                        assert(self.tick <= target);
                        assert(self@ == old(self)@.remove(curr));
                        self.lemma_walk_keeps_reachable(pre, *old(self), curr, cpos, cpos0, e0, l0);
                    }
                    return Some(v);
                } else {
                    let w = self.wheel[slot];
                    let nt = if w.next_tick < links.0 { w.next_tick } else { links.0 };
                    self.wheel.set(slot, WheelEntry { next_tick: nt, head: w.head });
                    self.next = links.2;
                    proof {
                        let e = slab_entries(self.entries);
                        let l = self.lists@[slot as int];
                        assert(list_wf(e, self.mask, slot as int, l, self.wheel@[slot as int].head));
                        if self.next != EMPTY {
                            assert(l[cpos + 1] == self.next);
                            assert(l.contains(self.next));
                        } else {
                            if cpos < l.len() - 1 {
                                assert(e.contains_key(l[cpos + 1]));
                            }
                            assert(cpos == l.len() - 1);
                        }
                        assert(e[l[cpos]].0 > self.tick);
                        cpos = cpos + 1;
                    }
                }
            }
        }
        proof {
            assert(self.tick == target + 1);
            assert forall|k: usize| #[trigger] old(self).reachable(k) implies old(self)@[k].0 > target by {
                if old(self)@[k].0 <= old(self).tick {
                    let (i, j) = choose|i: int, j: int| #![trigger l0[i], l0[j]] 0 <= i <= j < l0.len() && l0[i] == old(self).next && l0[j] == k;
                    let sc0 = slot_of(old(self).tick, old(self).mask);
                    lemma_slot_bound(old(self).tick, old(self).mask);
                    assert(list_wf(e0, old(self).mask, sc0, l0, old(self).wheel@[sc0].head));
                    assert(l0.no_duplicates());
                    assert(i == cpos0);
                    assert(e0[l0[j]].0 > old(self).tick);
                }
            }
            self.lemma_all_in_time();
        }
        None
    }

    /// After the walk took the timeout at the cursor, `curr`, out of a state
    /// `pre` reached from `start`, every other timeout that the walk from
    /// `start` would reach is still reached from where it stands.
    proof fn lemma_walk_keeps_reachable(
        &self,
        pre: Timer<T>,
        start: Timer<T>,
        curr: usize,
        cpos: int,
        cpos0: int,
        e0: Map<usize, Links>,
        l0: Seq<usize>,
    )
        requires
            start.inv(),
            pre.inv(),
            self.inv(),
            pre@ == start@,
            start.tick <= pre.tick,
            slab_entries(pre.entries) == e0,
            e0 == slab_entries(start.entries),
            pre.lists@ == start.lists@,
            pre.mask == start.mask,
            l0 == start.lists@[slot_of(start.tick, start.mask)],
            pre.next == curr,
            curr != EMPTY,
            ({
                let sc = slot_of(pre.tick, pre.mask);
                &&& 0 <= cpos < pre.lists@[sc].len()
                &&& pre.lists@[sc][cpos] == curr
            }),
            forall|k: usize| #[trigger] pre@.contains_key(k) && start.tick < pre@[k].0 ==> pre@[k].0 >= pre.tick,
            pre.tick > start.tick ==> {
                let l = pre.lists@[slot_of(pre.tick, pre.mask)];
                forall|j: int| 0 <= j < cpos ==> #[trigger] e0[l[j]].0 > pre.tick
            },
            start.next != EMPTY ==> {
                &&& 0 <= cpos0 < l0.len()
                &&& l0[cpos0] == start.next
                &&& {
                    let bound = if pre.tick > start.tick { l0.len() as int } else { cpos };
                    forall|j: int| cpos0 <= j < bound ==> #[trigger] e0[l0[j]].0 > start.tick
                }
            },
            pre.tick == start.tick ==> cpos0 <= cpos && start.next != EMPTY,
            self@ == pre@.remove(curr),
            self.tick == pre.tick,
            self.mask == pre.mask,
            self.next == e0[curr].2,
            exists|i: int| #![trigger pre.lists@[slot_of(e0[curr].0, pre.mask)][i]]
                0 <= i < pre.lists@[slot_of(e0[curr].0, pre.mask)].len()
                && pre.lists@[slot_of(e0[curr].0, pre.mask)][i] == curr
                && self.lists@ == pre.lists@.update(
                    slot_of(e0[curr].0, pre.mask),
                    pre.lists@[slot_of(e0[curr].0, pre.mask)].remove(i),
                ),
        ensures
            forall|j: usize| #[trigger] start.reachable(j) && j != curr ==> self.reachable(j),
    {
        let sc = slot_of(pre.tick, pre.mask);
        let l = pre.lists@[sc];
        lemma_slot_bound(pre.tick, pre.mask);
        assert(list_wf(e0, pre.mask, sc, l, pre.wheel@[sc].head));
        assert(e0.contains_key(l[cpos]));
        assert(slot_of(e0[curr].0, pre.mask) == sc);
        let i = choose|i: int| #![trigger pre.lists@[slot_of(e0[curr].0, pre.mask)][i]]
            0 <= i < pre.lists@[slot_of(e0[curr].0, pre.mask)].len()
            && pre.lists@[slot_of(e0[curr].0, pre.mask)][i] == curr
            && self.lists@ == pre.lists@.update(
                slot_of(e0[curr].0, pre.mask),
                pre.lists@[slot_of(e0[curr].0, pre.mask)].remove(i),
            );
        assert(l.no_duplicates());
        assert(i == cpos);
        let nl = l.remove(cpos);
        assert(self.lists@[sc] == nl);
        assert forall|j: usize| #[trigger] start.reachable(j) && j != curr implies self.reachable(j) by {
            let tj = start@[j].0;
            assert(self@.contains_key(j));
            assert(self@[j] == start@[j]);
            if tj <= pre.tick {
                // j sits after the cursor in the current slot
                let p: int = if tj > start.tick {
                    assert(tj == pre.tick);
                    assert(e0.contains_key(j));
                    lemma_slot_bound(e0[j].0, pre.mask);
                    assert(pre.lists@[slot_of(e0[j].0, pre.mask)].contains(j));
                    let p = choose|p: int| 0 <= p < l.len() && l[p] == j;
                    if p < cpos {
                        assert(e0[l[p]].0 > pre.tick);
                    }
                    p
                } else {
                    assert(start.at_or_after_cursor(j));
                    let sc0 = slot_of(start.tick, start.mask);
                    lemma_slot_bound(start.tick, start.mask);
                    assert(list_wf(e0, start.mask, sc0, l0, start.wheel@[sc0].head));
                    let (a, b) = choose|a: int, b: int| #![trigger l0[a], l0[b]]
                        0 <= a <= b < l0.len() && l0[a] == start.next && l0[b] == j;
                    assert(l0.no_duplicates());
                    assert(a == cpos0);
                    if pre.tick > start.tick {
                        assert(e0[l0[b]].0 > start.tick);
                    }
                    assert(pre.tick == start.tick);
                    assert(l == l0);
                    if b < cpos {
                        assert(e0[l0[b]].0 > start.tick);
                    }
                    b
                };
                assert(p != cpos);
                assert(p > cpos);
                assert(e0.contains_key(l[cpos + 1]));
                assert(self.next == l[cpos + 1]);
                assert(nl[cpos] == self.next);
                assert(nl[p - 1] == j);
                assert(self.at_or_after_cursor(j));
            }
        }
    }

    /// Once the current slot has been walked with every timeout in it found
    /// later than the current tick, no pending timeout after `from` is due at
    /// the current tick or before.
    proof fn lemma_slot_walked(&self, from: u64)
        requires
            self.inv(),
            self.next == EMPTY,
            forall|k: usize| #[trigger] self@.contains_key(k) && from < self@[k].0 ==> self@[k].0 >= self.tick,
            self.tick > from ==> {
                let l = self.lists@[slot_of(self.tick, self.mask)];
                forall|j: int| 0 <= j < l.len() ==> #[trigger] slab_entries(self.entries)[l[j]].0 > self.tick
            },
        ensures
            forall|k: usize| #[trigger] self@.contains_key(k) && from < self@[k].0 ==> self@[k].0 > self.tick,
    {
        let e = slab_entries(self.entries);
        assert forall|k: usize| #[trigger] self@.contains_key(k) && from < self@[k].0 implies self@[k].0 > self.tick by {
            assert(e.contains_key(k));
            if self@[k].0 == self.tick {
                let sc = slot_of(e[k].0, self.mask);
                let l = self.lists@[sc];
                assert(l.contains(k));
                let j = choose|j: int| 0 <= j < l.len() && l[j] == k;
                assert(e[l[j]].0 > self.tick);
            }
        }
    }

    /// Hands back the state of one timeout whose tick the clock has reached,
    /// taking it out; `None` when there is none to hand back now.
    pub fn poll(&mut self) -> (r: Option<T>)
        requires
            old(self).inv(),
            old(self).tick_ms_spec() > 0,
        ensures
            final(self).inv(),
            final(self).tick_ms_spec() == old(self).tick_ms_spec(),
            final(self).num_slots_spec() == old(self).num_slots_spec(),
            old(self).tick_spec() <= final(self).tick_spec(),
            r matches Some(v) ==> exists|k: usize| {
                &&& #[trigger] old(self)@.contains_key(k)
                &&& old(self)@[k].1 == v
                &&& old(self)@[k].0 <= final(self).tick_spec()
                &&& final(self)@ == old(self)@.remove(k)
                &&& forall|j: usize| #[trigger] old(self).reachable(j) && j != k ==> final(self).reachable(j)
                &&& forall|j: usize| #[trigger] old(self).reachable(j) && j != k && old(self)@[j].0 <= final(self).tick_spec()
                    ==> final(self).at_or_after_cursor(j)
            },
            r is None ==> final(self)@ == old(self)@,
            r is None ==> forall|k: usize| #[trigger] old(self)@.contains_key(k) && old(self)@[k].0 > old(self).tick_spec()
                ==> old(self)@[k].0 >= final(self).tick_spec(),
            r is None && old(self).tick_spec() < u64::MAX ==> forall|k: usize| #[trigger] old(self).reachable(k)
                ==> old(self)@[k].0 >= final(self).tick_spec(),
            r is None && old(self).tick_spec() < u64::MAX ==> forall|k: usize| #[trigger] final(self)@.contains_key(k)
                ==> final(self).wakes_for(k),
            r is None && old(self).tick_spec() < u64::MAX ==> exists|ms: u64| #[trigger]
                poll_reach(duration_to_tick_spec(ms, old(self).tick_ms_spec()), old(self).tick_spec())
                    == final(self).tick_spec(),
    {
        if self.tick == TICK_MAX {
            return None;
        }
        let clock = current_tick(self.start, self.tick_ms);
        let ghost ms = choose|ms: u64| #[trigger] duration_to_tick_spec(ms, self.tick_ms) == clock;
        let r = self.poll_at(clock);
        proof {
            assert(duration_to_tick_spec(ms, old(self).tick_ms_spec()) == clock);
            if r is None {
                assert forall|k: usize| #[trigger] old(self)@.contains_key(k) && old(self)@[k].0 > old(self).tick_spec()
                    implies old(self)@[k].0 >= final(self).tick_spec() by {
                    assert(old(self).reachable(k));
                }
            }
        }
        r
    }

    /// Hands back the state of one timeout whose tick has come by the clock's
    /// tick `clock`, taking it out; `None` when there is none, once the wheel
    /// has walked past that tick. The wheel never walks beyond the clock's
    /// tick, or beyond the tick after its own when the clock lies behind it.
    pub fn poll_at(&mut self, clock: Tick) -> (r: Option<T>)
        requires
            old(self).inv(),
        ensures
            final(self).inv(),
            final(self).tick_ms_spec() == old(self).tick_ms_spec(),
            final(self).num_slots_spec() == old(self).num_slots_spec(),
            old(self).tick_spec() <= final(self).tick_spec(),
            r matches Some(v) ==> exists|k: usize| {
                &&& #[trigger] old(self)@.contains_key(k)
                &&& old(self)@[k].1 == v
                &&& old(self)@[k].0 <= final(self).tick_spec()
                &&& final(self)@ == old(self)@.remove(k)
                &&& forall|j: usize| #[trigger] old(self).reachable(j) && j != k ==> final(self).reachable(j)
                &&& forall|j: usize| #[trigger] old(self).reachable(j) && j != k && old(self)@[j].0 <= final(self).tick_spec()
                    ==> final(self).at_or_after_cursor(j)
            },
            r is Some ==> final(self).tick_spec() <= clock || final(self).tick_spec() == old(self).tick_spec(),
            r is None ==> final(self)@ == old(self)@,
            r is None && old(self).tick_spec() < u64::MAX ==> final(self).tick_spec() == poll_reach(clock, old(self).tick_spec()),
            r is None && old(self).tick_spec() < u64::MAX && clock < u64::MAX ==> {
                &&& final(self).tick_spec() > clock
                &&& forall|k: usize| #[trigger] old(self).reachable(k) ==> old(self)@[k].0 > clock
            },
            r is None && old(self).tick_spec() < u64::MAX ==> forall|k: usize| #[trigger] old(self).reachable(k)
                ==> old(self)@[k].0 >= final(self).tick_spec(),
            r is None && old(self).tick_spec() < u64::MAX ==> forall|k: usize| #[trigger] final(self)@.contains_key(k)
                ==> final(self).wakes_for(k),
    {
        if self.tick == TICK_MAX {
            return None;
        }
        let mut target_tick = clock;
        if target_tick == TICK_MAX {
            target_tick = TICK_MAX - 1;
        }
        let r = self.poll_to(target_tick);
        proof {
            if r is None {
                law_poll_reach_passes_clock(clock, old(self).tick_spec());
            }
        }
        r
    }

    /// The smallest tick recorded for any slot.
    pub closed spec fn min_next_tick(w: Seq<WheelEntry>) -> u64
        decreases w.len(),
    {
        if w.len() == 0 {
            TICK_MAX
        } else {
            let m = Self::min_next_tick(w.drop_last());
            if w.last().next_tick < m {
                w.last().next_tick
            } else {
                m
            }
        }
    }

    /// The tick at which the timer next wants to be polled: the current tick
    /// when the slot under the cursor is due now, else the least tick the
    /// slots record.
    pub closed spec fn next_tick_spec(&self) -> u64 {
        let e = slab_entries(self.entries);
        if self.next != EMPTY && self.wheel@[slot_of(e[self.next].0, self.mask)].next_tick == self.tick {
            self.tick
        } else {
            Self::min_next_tick(self.wheel@)
        }
    }

    /// Whether the tick the timer asks to be polled at next comes no later
    /// than pending timeout `k`'s tick, or is the current tick.
    pub open spec fn wakes_for(&self, k: usize) -> bool {
        self.next_tick_spec() <= self@[k].0 || self.next_tick_spec() == self.tick_spec()
    }

    proof fn lemma_min_next_tick_le(w: Seq<WheelEntry>, i: int)
        requires
            0 <= i < w.len(),
        ensures
            Self::min_next_tick(w) <= w[i].next_tick,
        decreases w.len(),
    {
        if i < w.len() - 1 {
            Self::lemma_min_next_tick_le(w.drop_last(), i);
        }
    }

    /// A pending timeout whose slot records a tick at most its own wakes the
    /// timer in time.
    proof fn lemma_recorded_in_time(&self, k: usize)
        requires
            self.inv(),
            self@.contains_key(k),
            self.wheel@[slot_of(self@[k].0, self.mask)].next_tick <= self@[k].0,
        ensures
            self.wakes_for(k),
    {
        lemma_slot_bound(self@[k].0, self.mask);
        Self::lemma_min_next_tick_le(self.wheel@, slot_of(self@[k].0, self.mask));
    }

    /// The tick the timer asks to be polled at next comes no later than the
    /// tick of every pending timeout but those the walk of the current slot
    /// has still to reach, or is the current tick.
    pub proof fn law_next_tick_in_time(&self, k: usize)
        requires
            self.inv(),
            self@.contains_key(k),
            !self.at_or_after_cursor(k),
        ensures
            self.wakes_for(k),
    {
        let e = slab_entries(self.entries);
        assert(e.contains_key(k));
        let s = slot_of(e[k].0, self.mask);
        lemma_slot_bound(e[k].0, self.mask);
        assert(self.lists@[s].contains(k));
        let p = choose|p: int| 0 <= p < self.lists@[s].len() && self.lists@[s][p] == k;
        let sc = slot_of(self.tick, self.mask);
        lemma_slot_bound(self.tick, self.mask);
        if s == sc && self.next != EMPTY {
            let l = self.lists@[sc];
            assert(list_wf(e, self.mask, sc, l, self.wheel@[sc].head));
            assert(l.contains(self.next));
            let c = choose|c: int| 0 <= c < l.len() && l[c] == self.next;
            lemma_cursor_at(l, self.next, c);
            if p >= c {
                assert(l[c] == self.next && l[p] == k);
                assert(self.at_or_after_cursor(k));
            }
        }
        assert(self.wheel@[s].next_tick <= e[self.lists@[s][p]].0);
        self.lemma_recorded_in_time(k);
    }

    /// When the current slot's record is at most the tick of every timeout
    /// in it, every pending timeout wakes the timer in time.
    proof fn lemma_all_in_time(&self)
        requires
            self.inv(),
            forall|p: int| 0 <= p < self.lists@[slot_of(self.tick, self.mask)].len()
                ==> #[trigger] self.wheel@[slot_of(self.tick, self.mask)].next_tick
                    <= slab_entries(self.entries)[self.lists@[slot_of(self.tick, self.mask)][p]].0,
        ensures
            forall|k: usize| #[trigger] self@.contains_key(k) ==> self.wakes_for(k),
    {
        assert forall|k: usize| #[trigger] self@.contains_key(k) implies self.wakes_for(k) by {
            let e = slab_entries(self.entries);
            assert(e.contains_key(k));
            let s = slot_of(e[k].0, self.mask);
            lemma_slot_bound(e[k].0, self.mask);
            assert(self.lists@[s].contains(k));
            let p = choose|p: int| 0 <= p < self.lists@[s].len() && self.lists@[s][p] == k;
            if s == slot_of(self.tick, self.mask) {
                assert(self.wheel@[s].next_tick <= e[self.lists@[s][p]].0);
            } else {
                assert(self.wheel@[s].next_tick <= e[self.lists@[s][p]].0);
            }
            self.lemma_recorded_in_time(k);
        }
    }

    /// The tick the wheel has walked to.
    pub fn current(&self) -> (r: Tick)
        ensures
            r == self.tick_spec(),
    {
        self.tick
    }

    /// The tick at which the timer next wants to be polled.
    pub fn next_tick(&self) -> (r: Option<Tick>)
        requires
            self.inv(),
        ensures
            r == Some(self.next_tick_spec()),
    {
        if self.next != EMPTY {
            proof {
                let sc = slot_of(self.tick, self.mask);
                lemma_slot_bound(self.tick, self.mask);
                assert(list_wf(slab_entries(self.entries), self.mask, sc, self.lists@[sc], self.wheel@[sc].head));
                let j = choose|j: int| 0 <= j < self.lists@[sc].len() && self.lists@[sc][j] == self.next;
                assert(slab_entries(self.entries).contains_key(self.lists@[sc][j]));
            }
            let links = slab_get(&self.entries, self.next).unwrap();
            let slot = self.slot_for(links.0);
            if self.wheel[slot].next_tick == self.tick {
                return Some(self.tick);
            }
        }
        let mut m: Tick = TICK_MAX;
        let mut i: usize = 0;
        while i < self.wheel.len()
            invariant
                i <= self.wheel@.len(),
                m == Self::min_next_tick(self.wheel@.take(i as int)),
            decreases self.wheel@.len() - i,
        {
            proof {
                assert(self.wheel@.take(i as int + 1).drop_last() =~= self.wheel@.take(i as int));
            }
            if self.wheel[i].next_tick < m {
                m = self.wheel[i].next_tick;
            }
            i = i + 1;
        }
        proof {
            assert(self.wheel@.take(self.wheel@.len() as int) =~= self.wheel@);
        }
        Some(m)
    }
}

/// What cancelling the timeout `(token, tick)` does to the pending
/// timeouts, and what it hands back.
pub open spec fn cancel_result<T>(pre: Map<usize, (u64, T)>, post: Map<usize, (u64, T)>, token: usize, tick: u64, r: Option<T>) -> bool {
    match r {
        Some(v) => {
            &&& pre.contains_key(token)
            &&& pre[token] == (tick, v)
            &&& post == pre.remove(token)
        },
        None => {
            &&& !(pre.contains_key(token) && pre[token].0 == tick)
            &&& post == pre
        },
    }
}

/// Cancelling a timeout right after setting it hands back the state that
/// was set and leaves the timer as it was.
pub proof fn law_cancel_undoes_set<T>(
    v0: Map<usize, (u64, T)>,
    v1: Map<usize, (u64, T)>,
    v2: Map<usize, (u64, T)>,
    token: usize,
    tick: u64,
    state: T,
    r: Option<T>,
)
    requires
        !v0.contains_key(token),
        v1 == v0.insert(token, (tick, state)),
        cancel_result(v1, v2, token, tick, r),
    ensures
        r == Some(state),
        v2 == v0,
{
    assert(v1.contains_key(token));
    assert(v2 =~= v0);
}

/// A handle names its timeout by token and tick together: what cancelling
/// hands back is the state of the pending timeout with the handle's token
/// and tick, and when the timeout pending under the token has another tick
/// (the token was reused after the handle's own timeout went), nothing is
/// handed back and nothing changes.
pub proof fn law_cancel_needs_matching_tick<T>(
    v0: Map<usize, (u64, T)>,
    v1: Map<usize, (u64, T)>,
    token: usize,
    tick: u64,
    r: Option<T>,
)
    requires
        cancel_result(v0, v1, token, tick, r),
    ensures
        r matches Some(v) ==> v0.contains_key(token) && v0[token] == (tick, v) && v1 == v0.remove(token),
        v0.contains_key(token) && v0[token].0 != tick ==> r is None && v1 == v0,
{
}

/// Cancelling with a handle whose timeout already fired or was cancelled
/// changes nothing and hands back nothing.
pub proof fn law_cancel_stale<T>(
    v0: Map<usize, (u64, T)>,
    v1: Map<usize, (u64, T)>,
    token: usize,
    tick: u64,
    r: Option<T>,
)
    requires
        !v0.contains_key(token),
        cancel_result(v0, v1, token, tick, r),
    ensures
        r.is_none(),
        v1 == v0,
{
}

} // verus!

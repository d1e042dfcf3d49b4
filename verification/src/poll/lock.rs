use vstd::prelude::*;
use std::time::Duration;
use crate::poll::queue::{ReadinessQueue, Marker};
use crate::sys::duration::{total_nanos, duration_checked_sub, duration_is_zero, duration_from_millis};

verus! {

// The poll lock word: bit 0 is set while a thread polls, and every thread
// that waits for its turn adds two.

/// Whether the lock word says that a thread is polling.
pub open spec fn held(word: usize) -> bool {
    word % 2 == 1
}

/// How many waiting threads the lock word counts.
pub open spec fn waiters(word: usize) -> int {
    (word / 2) as int
}

/// What a thread that wants to poll does next, given the word it last read.
#[derive(Clone, Copy, Debug, PartialEq, Eq, Structural)]
pub enum LockStep {
    /// Swap the word from `expected` to `next`; on success the thread polls.
    Acquire { expected: usize, next: usize },
    /// Swap the word from `expected` to `next`, counting the thread as waiting.
    Register { expected: usize, next: usize },
    /// Return without polling; take two off the word first when `withdraw`.
    GiveUp { withdraw: bool },
    /// Wait to be woken, then read the word again.
    Wait,
}

/// The step a thread takes on `word`, where `registered` says whether it
/// already counts itself as waiting and `immediate` whether its timeout is zero.
pub open spec fn lock_step_spec(word: usize, registered: bool, immediate: bool) -> LockStep {
    if word % 2 == 0 {
        LockStep::Acquire {
            expected: word,
            next: (word + 1 - if registered { 2int } else { 0int }) as usize,
        }
    } else if immediate {
        LockStep::GiveUp { withdraw: registered }
    } else if !registered {
        LockStep::Register { expected: word, next: (word + 2) as usize }
    } else {
        LockStep::Wait
    }
}

/// Decides the next step of a thread that wants to poll. A free lock is
/// taken (and a thread that counted itself as waiting stops counting); a held
/// lock makes an immediate poll give up, and otherwise the thread counts
/// itself once and then waits.
pub fn lock_step(word: usize, registered: bool, immediate: bool) -> (r: LockStep)
    requires
        registered && word % 2 == 0 ==> word >= 2,
        !registered && !immediate && word % 2 == 1 ==> word + 2 <= usize::MAX,
    ensures
        r == lock_step_spec(word, registered, immediate),
{
    assert(word & 1 == word % 2) by (bit_vector);
    if word & 1 == 0 {
        assert(word % 2 == 0 ==> word | 1 == word + 1) by (bit_vector);
        let mut next: usize = word | 1;
        if registered {
            next = next - 2;
        }
        LockStep::Acquire { expected: word, next }
    } else if immediate {
        LockStep::GiveUp { withdraw: registered }
    } else if !registered {
        LockStep::Register { expected: word, next: word + 2 }
    } else {
        LockStep::Wait
    }
}

/// The word after the polling thread clears bit 0.
pub open spec fn released(word: usize) -> usize {
    (word - word % 2) as usize
}

/// Whether a thread that finished polling, and found `previous` in the word
/// as it cleared bit 0, must wake a waiter: whenever anyone else is counted.
pub fn release_wakes(previous: usize) -> (r: bool)
    ensures
        r == (previous != 1),
{
    previous != 1
}

/// An uncontended poll leaves the lock word as it found it, and its release
/// wakes a waiter exactly when the word counted one.
pub proof fn law_uncontended_roundtrip(word: usize, immediate: bool)
    requires
        !held(word),
    ensures
        lock_step_spec(word, false, immediate) matches LockStep::Acquire { expected, next }
            && expected == word && held(next) && released(next) == word
            && ((next != 1) <==> waiters(word) > 0),
{
}

/// A thread that counts itself as waiting and later takes the lock leaves
/// the count of waiters as it found it.
pub proof fn law_waiting_is_balanced(word: usize, later: usize, immediate: bool)
    requires
        held(word),
        word + 2 <= usize::MAX,
        !held(later),
        waiters(later) == waiters(word) + 1,
    ensures
        lock_step_spec(word, false, false) matches LockStep::Register { expected, next }
            && expected == word && waiters(next) == waiters(word) + 1 && held(next),
        lock_step_spec(later, true, immediate) matches LockStep::Acquire { expected, next }
            && expected == later && waiters(next) == waiters(word) && held(next),
{
}

/// What is left of `timeout` once `elapsed` has passed: zero when it has run out.
pub fn remaining_timeout(timeout: Duration, elapsed: Duration) -> (r: Duration)
    ensures
        total_nanos(r) == if total_nanos(elapsed) >= total_nanos(timeout) {
            0
        } else {
            total_nanos(timeout) - total_nanos(elapsed)
        },
{
    match duration_checked_sub(timeout, elapsed) {
        Some(d) => d,
        None => duration_from_millis(0),
    }
}

/// After a wait on the selector was interrupted: `None` when the timeout has
/// run out, else the timeout for the next try (`None` inside for no timeout).
pub fn after_interrupt(timeout: Option<Duration>, elapsed: Duration) -> (r: Option<Option<Duration>>)
    ensures
        match timeout {
            None => r == Some(None::<Duration>),
            Some(to) => if total_nanos(elapsed) >= total_nanos(to) {
                r is None
            } else {
                r matches Some(Some(d)) && total_nanos(d) == total_nanos(to) - total_nanos(elapsed)
            },
        },
{
    match timeout {
        None => Some(None),
        Some(to) => match duration_checked_sub(to, elapsed) {
            None => None,
            Some(d) => if duration_is_zero(&d) {
                None
            } else {
                Some(Some(d))
            },
        },
    }
}

/// Whether a timeout asks for an immediate answer.
pub open spec fn is_immediate(timeout: Option<Duration>) -> bool {
    timeout matches Some(d) && total_nanos(d) == 0
}

/// The timeout a poll may wait on the selector. An immediate poll leaves the
/// queue alone; otherwise the queue is readied for sleep, and a poll that
/// finds readiness already queued does not wait.
pub fn sleep_timeout(queue: &mut ReadinessQueue, timeout: Option<Duration>) -> (r: Option<Duration>)
    requires
        old(queue).wf(),
    ensures
        final(queue).wf(),
        final(queue).nodes_spec() == old(queue).nodes_spec(),
        final(queue).data_spec() == old(queue).data_spec(),
        final(queue).closed_spec() == old(queue).closed_spec(),
        is_immediate(timeout) ==> final(queue).marker_spec() == old(queue).marker_spec() && r == timeout,
        !is_immediate(timeout) ==> {
            &&& final(queue).marker_spec() == if old(queue).marker_spec() == Marker::End
                && old(queue).data_spec().len() == 0 {
                Marker::Sleep
            } else {
                old(queue).marker_spec()
            }
            &&& old(queue).data_spec().len() == 0 ==> r == timeout
            &&& old(queue).data_spec().len() != 0 ==> is_immediate(r)
        },
{
    let immediate = match &timeout {
        Some(d) => duration_is_zero(d),
        None => false,
    };
    if immediate {
        timeout
    } else if queue.prepare_for_sleep() {
        timeout
    } else {
        Some(duration_from_millis(0))
    }
}

} // verus!

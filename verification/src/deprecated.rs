use vstd::prelude::*;
use crate::token::Token;

verus! {

/// The token under which the older event loop registers its notification
/// channel.
pub const NOTIFY: usize = usize::MAX - 1;

/// The token under which the older event loop registers its timer.
pub const TIMER: usize = usize::MAX - 2;

/// Where the older event loop sends a polled event.
#[derive(Clone, Copy, Debug, PartialEq, Eq, Structural)]
pub enum Target {
    /// Drain the notification channel.
    Notify,
    /// Run the due timeouts.
    Timer,
    /// Hand the readiness to the handler.
    Io,
}

/// The notification token goes to the channel, the timer token to the
/// timer, and every other token to the handler.
pub fn target_of(token: Token) -> (r: Target)
    ensures
        r == if token.0 == NOTIFY {
            Target::Notify
        } else if token.0 == TIMER {
            Target::Timer
        } else {
            Target::Io
        },
{
    if token.0 == NOTIFY {
        Target::Notify
    } else if token.0 == TIMER {
        Target::Timer
    } else {
        Target::Io
    }
}

} // verus!

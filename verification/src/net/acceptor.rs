use vstd::prelude::*;
use crate::token::Token;
use crate::event_imp::{Ready, PollOpt, TokenEntry, TokenType, READABLE, EDGE};
use crate::net::event_loop::RegisterArgs;

verus! {

/// How one accept on the listener went.
#[derive(Clone, Copy, Debug, PartialEq, Eq, Structural)]
pub enum AcceptOutcome {
    /// A connection came in and was handed to the accept job.
    Accepted,
    /// The call was interrupted.
    Interrupted,
    /// No connection is waiting.
    WouldBlock,
    /// Accepting failed otherwise.
    Failed,
}

/// What follows one accept: accept again after a connection or an
/// interruption; stop when none is waiting or on any other error.
pub fn accept_again(outcome: AcceptOutcome) -> (r: bool)
    ensures
        r == (outcome == AcceptOutcome::Accepted || outcome == AcceptOutcome::Interrupted),
{
    match outcome {
        AcceptOutcome::Accepted => true,
        AcceptOutcome::Interrupted => true,
        AcceptOutcome::WouldBlock => false,
        AcceptOutcome::Failed => false,
    }
}

/// How an acceptor registers its listener: readable and edge, under token
/// zero.
pub fn acceptor_registration() -> (r: RegisterArgs)
    ensures
        r.token == (TokenEntry { ttype: TokenType::AcceptEvent, token: Token(0) }),
        r.interest@ == READABLE,
        r.opt@ == EDGE,
{
    RegisterArgs {
        token: TokenEntry { ttype: TokenType::AcceptEvent, token: Token(0) },
        interest: Ready::readable(),
        opt: PollOpt::edge(),
    }
}

} // verus!

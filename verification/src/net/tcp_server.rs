use vstd::prelude::*;
use crate::token::Token;
use crate::event_imp::{Ready, PollOpt, TokenEntry, TokenType, READABLE, WRITABLE, EDGE, ONESHOT};
use crate::net::event_loop::RegisterArgs;

verus! {

/// How a server registers an accepted connection: readable and writable,
/// edge, under the token one past `previous`, the socket counter before it
/// was advanced.
pub fn socket_registration(previous: usize) -> (r: RegisterArgs)
    requires
        previous < usize::MAX,
    ensures
        r.token == (TokenEntry { ttype: TokenType::SocketEvent, token: Token((previous + 1) as usize) }),
        r.interest@ == READABLE | WRITABLE,
        r.opt@ == EDGE,
{
    RegisterArgs {
        token: TokenEntry { ttype: TokenType::SocketEvent, token: Token(previous + 1) },
        interest: Ready::readable() | Ready::writable(),
        opt: PollOpt::edge(),
    }
}

/// How a connector registers its stream: writable and readable, edge and
/// oneshot, under token zero.
pub fn connector_registration() -> (r: RegisterArgs)
    ensures
        r.token == (TokenEntry { ttype: TokenType::SocketEvent, token: Token(0) }),
        r.interest@ == WRITABLE | READABLE,
        r.opt@ == EDGE | ONESHOT,
{
    RegisterArgs {
        token: TokenEntry { ttype: TokenType::SocketEvent, token: Token(0) },
        interest: Ready::writable() | Ready::readable(),
        opt: PollOpt::edge() | PollOpt::oneshot(),
    }
}

} // verus!

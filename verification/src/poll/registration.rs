use vstd::prelude::*;
use crate::event_imp::{Ready, PollOpt, TokenEntry, TokenType};
use crate::token::Token;
use crate::poll::state::{ReadinessState, MASK_4};
use crate::poll::queue::{ReadinessQueue, set_readiness_result, update_result, dropped_result};
use crate::io::{io_error_other, is_other};

verus! {

/// Refuses to change a registration through a poller other than the one it
/// is tied to; `own` and `given` name the two pollers' readiness queues.
pub fn check_same_poll(own: usize, given: usize) -> (r: Result<(), std::io::Error>)
    ensures
        r is Err <==> own != given,
        r matches Err(e) ==> is_other(e),
{
    if own != given {
        Err(io_error_other("Registration handle associated with another Poll instance"))
    } else {
        Ok(())
    }
}

/// The handle through which a registration's interest is changed.
pub struct Registration {
    node: usize,
}

/// The handle through which a registration's readiness is set.
#[derive(Clone, Copy)]
pub struct SetReadiness {
    node: usize,
}

impl Registration {
    pub closed spec fn id(&self) -> usize {
        self.node
    }

    /// The registration's node in its queue.
    pub fn node_id(&self) -> (r: usize)
        ensures
            r == self.id(),
    {
        self.node
    }

    /// A registration tied to `queue` from the start.
    pub fn new(queue: &mut ReadinessQueue, token: TokenEntry, interest: Ready, opt: PollOpt) -> (r: (Registration, SetReadiness))
        requires
            old(queue).wf(),
            interest@ <= MASK_4,
            opt@ <= MASK_4,
            old(queue).nodes_spec().len() < usize::MAX,
        ensures
            final(queue).wf(),
            r.0.id() == old(queue).nodes_spec().len(),
            r.1.id() == r.0.id(),
            final(queue).nodes_spec().len() == old(queue).nodes_spec().len() + 1,
            forall|j: int| 0 <= j < r.0.id() ==> final(queue).nodes_spec()[j] == old(queue).nodes_spec()[j],
            final(queue).nodes_spec()[r.0.id() as int].state == ReadinessState::new_spec(interest@, opt@),
            final(queue).nodes_spec()[r.0.id() as int].token_at(0) == token,
            final(queue).nodes_spec()[r.0.id() as int].attached,
            final(queue).data_spec() == old(queue).data_spec(),
            final(queue).marker_spec() == old(queue).marker_spec(),
            final(queue).closed_spec() == old(queue).closed_spec(),
    {
        let id = queue.add_node(token, interest, opt, true);
        (Registration { node: id }, SetReadiness { node: id })
    }

    /// A registration not yet tied to any queue; its first update ties it.
    pub fn new2(queue: &mut ReadinessQueue) -> (r: (Registration, SetReadiness))
        requires
            old(queue).wf(),
            old(queue).nodes_spec().len() < usize::MAX,
        ensures
            final(queue).wf(),
            r.0.id() == old(queue).nodes_spec().len(),
            r.1.id() == r.0.id(),
            final(queue).nodes_spec().len() == old(queue).nodes_spec().len() + 1,
            forall|j: int| 0 <= j < r.0.id() ==> final(queue).nodes_spec()[j] == old(queue).nodes_spec()[j],
            final(queue).nodes_spec()[r.0.id() as int].state == ReadinessState::new_spec(0, 0),
            final(queue).nodes_spec()[r.0.id() as int].token_at(0) == (TokenEntry { ttype: TokenType::TokenEvent, token: Token(0) }),
            !final(queue).nodes_spec()[r.0.id() as int].attached,
            final(queue).data_spec() == old(queue).data_spec(),
            final(queue).marker_spec() == old(queue).marker_spec(),
            final(queue).closed_spec() == old(queue).closed_spec(),
    {
        let blank = TokenEntry { ttype: TokenType::TokenEvent, token: Token(0) };
        let id = queue.add_node(blank, Ready::empty(), PollOpt::empty(), false);
        (Registration { node: id }, SetReadiness { node: id })
    }

    /// Gives the registration a new token, interest and options.
    /// Answers whether the poller must be woken.
    pub fn update(&self, queue: &mut ReadinessQueue, token: TokenEntry, interest: Ready, opt: PollOpt) -> (wakeup: bool)
        requires
            old(queue).wf(),
            self.id() < old(queue).nodes_spec().len(),
            !old(queue).nodes_spec()[self.id() as int].state.dropped_spec(),
            interest@ < 0x100,
            opt@ < 0x10,
        ensures
            update_result(*old(queue), *final(queue), self.id(), token, interest@, opt@, wakeup),
    {
        queue.update(self.node, token, interest, opt)
    }

    /// Takes every interest away, so that nothing more is reported.
    pub fn deregister(&self, queue: &mut ReadinessQueue) -> (wakeup: bool)
        requires
            old(queue).wf(),
            self.id() < old(queue).nodes_spec().len(),
            !old(queue).nodes_spec()[self.id() as int].state.dropped_spec(),
        ensures
            update_result(
                *old(queue),
                *final(queue),
                self.id(),
                TokenEntry { ttype: TokenType::TokenEvent, token: Token(0) },
                0,
                0,
                wakeup,
            ),
    {
        let blank = TokenEntry { ttype: TokenType::TokenEvent, token: Token(0) };
        queue.update(self.node, blank, Ready::empty(), PollOpt::empty())
    }

    /// Gives the registration up: its node is discarded at the next poll.
    /// Answers whether the poller must be woken.
    pub fn drop_from(self, queue: &mut ReadinessQueue) -> (wakeup: bool)
        requires
            old(queue).wf(),
            self.id() < old(queue).nodes_spec().len(),
            !old(queue).nodes_spec()[self.id() as int].state.dropped_spec(),
        ensures
            dropped_result(*old(queue), *final(queue), self.id(), wakeup),
    {
        queue.flag_as_dropped(self.node)
    }
}

impl SetReadiness {
    pub closed spec fn id(&self) -> usize {
        self.node
    }

    /// The node whose readiness this handle sets.
    pub fn node_id(&self) -> (r: usize)
        ensures
            r == self.id(),
    {
        self.node
    }

    /// The readiness last set.
    pub fn readiness(&self, queue: &ReadinessQueue) -> (r: Ready)
        requires
            self.id() < queue.nodes_spec().len(),
        ensures
            r@ == queue.nodes_spec()[self.id() as int].state.readiness_spec(),
    {
        queue.readiness(self.node)
    }

    /// Sets the readiness; answers whether the poller must be woken.
    pub fn set_readiness(&self, queue: &mut ReadinessQueue, ready: Ready) -> (wakeup: bool)
        requires
            old(queue).wf(),
            self.id() < old(queue).nodes_spec().len(),
            ready@ < 0x1000,
        ensures
            set_readiness_result(*old(queue), *final(queue), self.id(), ready@, wakeup),
    {
        queue.set_readiness(self.node, ready)
    }
}

/// A registration tied to `queue`, with its readiness handle.
pub fn new_registration(queue: &mut ReadinessQueue, token: TokenEntry, ready: Ready, opt: PollOpt) -> (r: (Registration, SetReadiness))
    requires
        old(queue).wf(),
        ready@ <= MASK_4,
        opt@ <= MASK_4,
        old(queue).nodes_spec().len() < usize::MAX,
    ensures
        final(queue).wf(),
        r.0.id() == old(queue).nodes_spec().len(),
        r.1.id() == r.0.id(),
        final(queue).nodes_spec().len() == old(queue).nodes_spec().len() + 1,
        forall|j: int| 0 <= j < r.0.id() ==> final(queue).nodes_spec()[j] == old(queue).nodes_spec()[j],
        final(queue).nodes_spec()[r.0.id() as int].state == ReadinessState::new_spec(ready@, opt@),
        final(queue).nodes_spec()[r.0.id() as int].token_at(0) == token,
        final(queue).nodes_spec()[r.0.id() as int].attached,
        final(queue).data_spec() == old(queue).data_spec(),
        final(queue).marker_spec() == old(queue).marker_spec(),
        final(queue).closed_spec() == old(queue).closed_spec(),
{
    Registration::new(queue, token, ready, opt)
}

} // verus!

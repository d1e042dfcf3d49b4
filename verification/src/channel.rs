use vstd::prelude::*;
use std::io::Error;
use crate::event_imp::{Ready, PollOpt, TokenEntry, TokenType, READABLE};
use crate::token::Token;
use crate::io::{io_error_to_string, io_error_other, is_other};
use crate::lazycell::{LazyCell, AtomicLazyCell};
use crate::poll::state::{ReadinessState, MASK_4};
use crate::poll::queue::{ReadinessQueue, set_readiness_result, update_result, dropped_result};
use crate::poll::registration::{Registration, SetReadiness};
use crate::poll::laws::law_readiness_read_after_write;

verus! {

/// Why a send failed: an I/O error, or the receiver is gone (the message
/// comes back).
pub enum SendError<T> {
    Io(Error),
    Disconnected(T),
}

/// Why a non-blocking send failed: an I/O error, a full channel, or a gone
/// receiver; the message comes back in the last two.
pub enum TrySendError<T> {
    Io(Error),
    Full(T),
    Disconnected(T),
}

/// A short text for a send error: the I/O error's message, or
/// "Disconnected".
pub fn format_send_error<T>(e: &SendError<T>) -> (r: String)
    ensures
        e is Disconnected ==> r@ == "Disconnected"@,
{
    match e {
        SendError::Io(io_err) => io_error_to_string(io_err),
        SendError::Disconnected(..) => {
            proof {
                reveal_strlit("Disconnected");
            }
            String::from_str("Disconnected")
        },
    }
}

/// The counters that a channel's two ends share: messages sent and not yet
/// received, and live senders.
pub struct CtlState {
    pending: usize,
    senders: usize,
}

impl CtlState {
    pub closed spec fn pending_spec(&self) -> usize {
        self.pending
    }

    pub closed spec fn senders_spec(&self) -> usize {
        self.senders
    }

    /// Messages sent and not yet received.
    pub fn pending(&self) -> (r: usize)
        ensures
            r == self.pending_spec(),
    {
        self.pending
    }

    /// The counters of a new channel: nothing pending, one sender.
    pub fn ctl_pair() -> (r: CtlState)
        ensures
            r.pending_spec() == 0,
            r.senders_spec() == 1,
    {
        CtlState { pending: 0, senders: 1 }
    }

    /// Counts a sent message. The first pending message makes the receiver
    /// readable: the readiness to set comes back.
    pub fn inc(&mut self) -> (r: Option<Ready>)
        ensures
            final(self).pending_spec() == if old(self).pending_spec() == usize::MAX {
                0
            } else {
                (old(self).pending_spec() + 1) as usize
            },
            final(self).senders_spec() == old(self).senders_spec(),
            r == if old(self).pending_spec() == 0 {
                Some(Ready(READABLE))
            } else {
                None::<Ready>
            },
    {
        let cnt = self.pending;
        self.pending = self.pending.wrapping_add(1);
        if cnt == 0 {
            Some(Ready::readable())
        } else {
            None
        }
    }

    /// Counts a received message. Taking the last pending one clears the
    /// receiver's readiness: the readiness to set comes back.
    pub fn dec(&mut self) -> (r: Option<Ready>)
        ensures
            final(self).pending_spec() == if old(self).pending_spec() == 0 {
                usize::MAX
            } else {
                (old(self).pending_spec() - 1) as usize
            },
            final(self).senders_spec() == old(self).senders_spec(),
            r == if old(self).pending_spec() == 1 {
                Some(Ready(0))
            } else {
                None::<Ready>
            },
    {
        let first = self.pending;
        self.pending = self.pending.wrapping_sub(1);
        if first == 1 {
            Some(Ready::empty())
        } else {
            None
        }
    }

    /// Counts a new sender.
    pub fn sender_cloned(&mut self)
        ensures
            final(self).senders_spec() == if old(self).senders_spec() == usize::MAX {
                0
            } else {
                (old(self).senders_spec() + 1) as usize
            },
            final(self).pending_spec() == old(self).pending_spec(),
    {
        self.senders = self.senders.wrapping_add(1);
    }

    /// Counts a sender gone. When the last one goes, the receiver is woken as
    /// if a message came, so that it sees the channel closed.
    pub fn sender_dropped(&mut self) -> (r: Option<Ready>)
        ensures
            final(self).senders_spec() == if old(self).senders_spec() == 0 {
                usize::MAX
            } else {
                (old(self).senders_spec() - 1) as usize
            },
            old(self).senders_spec() == 1 ==> {
                &&& final(self).pending_spec() == if old(self).pending_spec() == usize::MAX {
                    0
                } else {
                    (old(self).pending_spec() + 1) as usize
                }
                &&& r == if old(self).pending_spec() == 0 {
                    Some(Ready(READABLE))
                } else {
                    None::<Ready>
                }
            },
            old(self).senders_spec() != 1 ==> final(self).pending_spec() == old(self).pending_spec() && r is None,
    {
        let prev = self.senders;
        self.senders = self.senders.wrapping_sub(1);
        if prev == 1 {
            self.inc()
        } else {
            None
        }
    }
}

/// A message sent into an empty channel makes its receiver readable, and
/// receiving it clears the readiness and leaves nothing pending.
pub proof fn law_send_then_receive(p0: usize, p1: usize, p2: usize, r1: Option<Ready>, r2: Option<Ready>)
    requires
        p0 == 0,
        p1 == (if p0 == usize::MAX { 0 } else { (p0 + 1) as usize }),
        r1 == (if p0 == 0 { Some(Ready(READABLE)) } else { None::<Ready> }),
        p2 == (if p1 == 0 { usize::MAX } else { (p1 - 1) as usize }),
        r2 == (if p1 == 1 { Some(Ready(0)) } else { None::<Ready> }),
    ensures
        r1 == Some(Ready(READABLE)),
        r2 == Some(Ready(0)),
        p2 == 0,
{
}

/// What signalling `ready` to a receiver's node does when `fire` holds and
/// the receiver is registered: the node's readiness is set. Otherwise the
/// queue stays as it was and nobody is woken.
pub open spec fn signal_result(
    pre: ReadinessQueue,
    post: ReadinessQueue,
    node: Option<usize>,
    fire: bool,
    ready: usize,
    wakeup: bool,
) -> bool {
    if fire && node is Some {
        set_readiness_result(pre, post, node->0, ready, wakeup)
    } else {
        post == pre && !wakeup
    }
}

/// What registering a new node `id` for `token`, `interest` and `opt` does
/// to the queue.
pub open spec fn registered_result(
    pre: ReadinessQueue,
    post: ReadinessQueue,
    id: usize,
    token: TokenEntry,
    interest: usize,
    opt: usize,
) -> bool {
    &&& post.wf()
    &&& id == pre.nodes_spec().len()
    &&& post.nodes_spec().len() == pre.nodes_spec().len() + 1
    &&& forall|j: int| 0 <= j < id ==> post.nodes_spec()[j] == pre.nodes_spec()[j]
    &&& post.nodes_spec()[id as int].state == ReadinessState::new_spec(interest, opt)
    &&& post.nodes_spec()[id as int].token_at(0) == token
    &&& post.nodes_spec()[id as int].attached
    &&& post.data_spec() == pre.data_spec()
    &&& post.marker_spec() == pre.marker_spec()
    &&& post.closed_spec() == pre.closed_spec()
}

/// The pending count after one more message.
pub open spec fn count_up(n: usize) -> usize {
    if n == usize::MAX {
        0
    } else {
        (n + 1) as usize
    }
}

/// The pending count after one message less.
pub open spec fn count_down(n: usize) -> usize {
    if n == 0 {
        usize::MAX
    } else {
        (n - 1) as usize
    }
}

/// The receiving end's side of a channel: its registration with a poller,
/// the handle that sets its readiness, and the counters it shares with the
/// senders.
pub struct ReceiverCtl {
    registration: LazyCell<Registration>,
    set_readiness: AtomicLazyCell<SetReadiness>,
    counters: CtlState,
}

impl ReceiverCtl {
    /// The receiver's node in the poller's queue, once registered.
    pub closed spec fn node(&self) -> Option<usize> {
        match self.registration@ {
            Some(r) => Some(r.id()),
            None => None,
        }
    }

    pub closed spec fn pending_spec(&self) -> usize {
        self.counters.pending_spec()
    }

    pub closed spec fn senders_spec(&self) -> usize {
        self.counters.senders_spec()
    }

    /// The registration and the readiness handle are filled together and
    /// name the same node.
    pub closed spec fn wf(&self) -> bool {
        match self.registration@ {
            Some(r) => self.set_readiness@ matches Some(s) && s.id() == r.id(),
            None => self.set_readiness@ is None,
        }
    }

    /// The receiver's node, if any, is one of the queue's.
    pub open spec fn within(&self, queue: ReadinessQueue) -> bool {
        self.node() matches Some(id) ==> id < queue.nodes_spec().len()
    }

    /// A receiving side not registered anywhere, with nothing pending and
    /// one sender.
    pub fn new() -> (r: ReceiverCtl)
        ensures
            r.wf(),
            r.node() is None,
            r.pending_spec() == 0,
            r.senders_spec() == 1,
    {
        ReceiverCtl { registration: LazyCell::new(), set_readiness: AtomicLazyCell::new(), counters: CtlState::ctl_pair() }
    }

    /// Sets `fire`'s readiness on the receiver's node, when there is both.
    fn signal(&self, queue: &mut ReadinessQueue, fire: Option<Ready>) -> (wakeup: bool)
        requires
            self.wf(),
            old(queue).wf(),
            self.within(*old(queue)),
            fire matches Some(r) ==> r@ < 0x1000,
        ensures
            final(queue).wf(),
            signal_result(*old(queue), *final(queue), self.node(), fire is Some, fire->0@, wakeup),
    {
        match fire {
            Some(ready) => match self.set_readiness.get() {
                Some(s) => s.set_readiness(queue, ready),
                None => false,
            },
            None => false,
        }
    }

    /// Counts a sent message; the first pending one makes a registered
    /// receiver readable. Answers whether the poller must be woken.
    pub fn inc(&mut self, queue: &mut ReadinessQueue) -> (wakeup: bool)
        requires
            old(self).wf(),
            old(queue).wf(),
            old(self).within(*old(queue)),
        ensures
            final(self).wf(),
            final(self).node() == old(self).node(),
            final(self).within(*final(queue)),
            final(self).senders_spec() == old(self).senders_spec(),
            final(self).pending_spec() == count_up(old(self).pending_spec()),
            signal_result(*old(queue), *final(queue), old(self).node(), old(self).pending_spec() == 0, READABLE, wakeup),
    {
        let fire = self.counters.inc();
        self.signal(queue, fire)
    }

    /// Counts a received message; taking the last pending one clears a
    /// registered receiver's readiness. Answers whether the poller must be
    /// woken.
    pub fn dec(&mut self, queue: &mut ReadinessQueue) -> (wakeup: bool)
        requires
            old(self).wf(),
            old(queue).wf(),
            old(self).within(*old(queue)),
        ensures
            final(self).wf(),
            final(self).node() == old(self).node(),
            final(self).within(*final(queue)),
            final(self).senders_spec() == old(self).senders_spec(),
            final(self).pending_spec() == count_down(old(self).pending_spec()),
            signal_result(*old(queue), *final(queue), old(self).node(), old(self).pending_spec() == 1, 0, wakeup),
    {
        let fire = self.counters.dec();
        self.signal(queue, fire)
    }

    /// Counts a new sender.
    pub fn sender_cloned(&mut self)
        requires
            old(self).wf(),
        ensures
            final(self).wf(),
            final(self).node() == old(self).node(),
            final(self).pending_spec() == old(self).pending_spec(),
            final(self).senders_spec() == count_up(old(self).senders_spec()),
    {
        self.counters.sender_cloned();
    }

    /// Counts a sender gone; when the last goes, the receiver is signalled
    /// as for a message, so that it sees the channel closed.
    pub fn sender_dropped(&mut self, queue: &mut ReadinessQueue) -> (wakeup: bool)
        requires
            old(self).wf(),
            old(queue).wf(),
            old(self).within(*old(queue)),
        ensures
            final(self).wf(),
            final(self).node() == old(self).node(),
            final(self).within(*final(queue)),
            final(self).senders_spec() == count_down(old(self).senders_spec()),
            final(self).pending_spec() == if old(self).senders_spec() == 1 {
                count_up(old(self).pending_spec())
            } else {
                old(self).pending_spec()
            },
            signal_result(
                *old(queue),
                *final(queue),
                old(self).node(),
                old(self).senders_spec() == 1 && old(self).pending_spec() == 0,
                READABLE,
                wakeup,
            ),
    {
        let fire = self.counters.sender_dropped();
        self.signal(queue, fire)
    }

    /// Registers the receiver with the poller's queue, readable at once when
    /// messages are pending. Fails when it is registered already. Answers
    /// whether the poller must be woken.
    pub fn register(&mut self, queue: &mut ReadinessQueue, token: TokenEntry, interest: Ready, opts: PollOpt) -> (r: Result<bool, Error>)
        requires
            old(self).wf(),
            old(queue).wf(),
            old(self).within(*old(queue)),
            interest@ <= MASK_4,
            opts@ <= MASK_4,
            old(queue).nodes_spec().len() < usize::MAX,
        ensures
            final(self).wf(),
            final(self).within(*final(queue)),
            final(self).pending_spec() == old(self).pending_spec(),
            final(self).senders_spec() == old(self).senders_spec(),
            old(self).node() is Some ==> r is Err && final(self).node() == old(self).node() && *final(queue)
                == *old(queue),
            r matches Err(e) ==> is_other(e),
            old(self).node() is None ==> r is Ok && final(self).node() == Some(old(queue).nodes_spec().len() as usize)
                && exists|mid: ReadinessQueue| #![trigger registered_result(*old(queue), mid, old(queue).nodes_spec().len() as usize, token, interest@, opts@)]
                    registered_result(*old(queue), mid, old(queue).nodes_spec().len() as usize, token, interest@, opts@)
                    && signal_result(
                        mid,
                        *final(queue),
                        Some(old(queue).nodes_spec().len() as usize),
                        old(self).pending_spec() > 0,
                        READABLE,
                        r->Ok_0,
                    ),
    {
        if self.registration.filled() {
            return Err(io_error_other("receiver already registered"));
        }
        let (registration, set_readiness) = Registration::new(queue, token, interest, opts);
        let ghost mid = *queue;
        let mut wakeup = false;
        if self.counters.pending() > 0 {
            wakeup = set_readiness.set_readiness(queue, Ready::readable());
        }
        let _ = self.registration.fill(registration);
        let _ = self.set_readiness.fill(set_readiness);
        proof {
            assert(registered_result(*old(queue), mid, old(queue).nodes_spec().len() as usize, token, interest@, opts@));
        }
        Ok(wakeup)
    }

    /// Gives the registration a new token, interest and options; fails when
    /// the receiver is not registered. Answers whether the poller must be
    /// woken.
    pub fn reregister(&self, queue: &mut ReadinessQueue, token: TokenEntry, interest: Ready, opts: PollOpt) -> (r: Result<bool, Error>)
        requires
            self.wf(),
            old(queue).wf(),
            self.within(*old(queue)),
            self.node() matches Some(id) ==> !old(queue).nodes_spec()[id as int].state.dropped_spec(),
            interest@ < 0x100,
            opts@ < 0x10,
        ensures
            match self.node() {
                None => r is Err && *final(queue) == *old(queue),
                Some(id) => r is Ok && update_result(*old(queue), *final(queue), id, token, interest@, opts@, r->Ok_0),
            },
            r matches Err(e) ==> is_other(e),
    {
        match self.registration.borrow() {
            Some(registration) => Ok(registration.update(queue, token, interest, opts)),
            None => Err(io_error_other("receiver not registered")),
        }
    }

    /// Takes every interest away from the registration; fails when the
    /// receiver is not registered. Answers whether the poller must be woken.
    pub fn deregister(&self, queue: &mut ReadinessQueue) -> (r: Result<bool, Error>)
        requires
            self.wf(),
            old(queue).wf(),
            self.within(*old(queue)),
            self.node() matches Some(id) ==> !old(queue).nodes_spec()[id as int].state.dropped_spec(),
        ensures
            match self.node() {
                None => r is Err && *final(queue) == *old(queue),
                Some(id) => r is Ok && update_result(
                    *old(queue),
                    *final(queue),
                    id,
                    TokenEntry { ttype: TokenType::TokenEvent, token: Token(0) },
                    0,
                    0,
                    r->Ok_0,
                ),
            },
            r matches Err(e) ==> is_other(e),
    {
        match self.registration.borrow() {
            Some(registration) => Ok(registration.deregister(queue)),
            None => Err(io_error_other("receiver not registered")),
        }
    }

    /// Gives the receiver's registration up, as when the receiving end goes
    /// away: its node is discarded at the next poll. Answers whether the
    /// poller must be woken.
    pub fn release(self, queue: &mut ReadinessQueue) -> (wakeup: bool)
        requires
            self.wf(),
            old(queue).wf(),
            self.within(*old(queue)),
            self.node() matches Some(id) ==> !old(queue).nodes_spec()[id as int].state.dropped_spec(),
        ensures
            match self.node() {
                None => *final(queue) == *old(queue) && !wakeup,
                Some(id) => dropped_result(*old(queue), *final(queue), id, wakeup),
            },
    {
        match self.registration.into_inner() {
            Some(registration) => registration.drop_from(queue),
            None => false,
        }
    }
}

/// The readiness a registered receiver shows for `pending` messages:
/// readable while any are pending, nothing otherwise.
pub open spec fn readiness_for(pending: usize) -> usize {
    if pending > 0 {
        READABLE
    } else {
        0
    }
}

/// A sent message keeps a registered receiver's readiness in step with the
/// count: readable afterwards, whether or not it already was.
pub proof fn law_send_keeps_readiness_in_step(pre: ReadinessQueue, post: ReadinessQueue, id: usize, pending: usize, wakeup: bool)
    requires
        id < pre.nodes_spec().len(),
        !pre.nodes_spec()[id as int].state.dropped_spec(),
        pending < usize::MAX,
        pre.nodes_spec()[id as int].state.readiness_spec() == readiness_for(pending),
        signal_result(pre, post, Some(id), pending == 0, READABLE, wakeup),
    ensures
        post.nodes_spec()[id as int].state.readiness_spec() == readiness_for(count_up(pending)),
{
    if pending == 0 {
        law_readiness_read_after_write(pre, post, id, READABLE, wakeup);
    }
}

/// A received message keeps a registered receiver's readiness in step with
/// the count: taking the last one clears it, any other leaves it readable.
pub proof fn law_receive_keeps_readiness_in_step(pre: ReadinessQueue, post: ReadinessQueue, id: usize, pending: usize, wakeup: bool)
    requires
        id < pre.nodes_spec().len(),
        !pre.nodes_spec()[id as int].state.dropped_spec(),
        pending >= 1,
        pre.nodes_spec()[id as int].state.readiness_spec() == readiness_for(pending),
        signal_result(pre, post, Some(id), pending == 1, 0, wakeup),
    ensures
        post.nodes_spec()[id as int].state.readiness_spec() == readiness_for(count_down(pending)),
{
    if pending == 1 {
        law_readiness_read_after_write(pre, post, id, 0, wakeup);
    }
}

} // verus!

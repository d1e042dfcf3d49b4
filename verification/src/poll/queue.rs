use vstd::prelude::*;
use std::collections::VecDeque;
use crate::event_imp::{Ready, PollOpt, TokenEntry, TokenType, bits_contain, EDGE, ONESHOT};
use crate::token::Token;
use crate::poll::laws::law_poll_reports_interest;
use crate::poll::state::{ReadinessState, with_field, field, lemma_wide_writes, MASK_4, MASK_2, QUEUED_MASK, DROPPED_MASK};

verus! {

/// Which marker sits at the consumer end of the readiness queue, ahead of
/// any queued node.
#[derive(Clone, Copy, Debug, PartialEq, Eq, Structural)]
pub enum Marker {
    /// No marker: the next node is queued data.
    Absent,
    /// The ordinary end marker.
    End,
    /// The poller went to sleep; the next enqueue must wake it.
    Sleep,
}

/// One registration's node: its packed state and its three token slots.
#[derive(Clone, Copy, Debug, PartialEq, Eq, Structural)]
pub struct ReadinessNode {
    pub state: ReadinessState,
    pub token_0: TokenEntry,
    pub token_1: TokenEntry,
    pub token_2: TokenEntry,
    /// Whether the node has been tied to the queue.
    pub attached: bool,
}

impl ReadinessNode {
    pub open spec fn token_at(self, pos: usize) -> TokenEntry {
        if pos == 0 {
            self.token_0
        } else if pos == 1 {
            self.token_1
        } else {
            self.token_2
        }
    }

    /// The token positions name one of the three slots.
    pub open spec fn node_wf(self) -> bool {
        &&& self.state.read_pos_spec() < 3
        &&& self.state.write_pos_spec() < 3
    }

    pub fn token(&self, pos: usize) -> (r: TokenEntry)
        requires
            pos < 3,
        ensures
            r == self.token_at(pos),
    {
        match pos {
            0 => self.token_0,
            1 => self.token_1,
            _ => self.token_2,
        }
    }
}

/// What a poll reports for one node.
#[derive(Clone, Copy, Debug, PartialEq, Eq, Structural)]
pub struct ReadyEntry {
    pub token_entry: TokenEntry,
    pub ready: Ready,
    /// The node that produced the event.
    pub node: usize,
}

/// The outcome of taking one node off the queue.
#[derive(Clone, Copy, Debug, PartialEq, Eq, Structural)]
pub enum Dequeue {
    Data(usize),
    Empty,
}

/// The state of a node after a poll has taken it off the queue.
pub open spec fn poll_step(s: ReadinessState) -> ReadinessState {
    let eff = s.effective_spec();
    let opt = s.opt_spec();
    let edge = bits_contain(opt, EDGE);
    let s1 = if edge || eff == 0 {
        ReadinessState(s.0 & !QUEUED_MASK)
    } else {
        s
    };
    let s2 = if edge && bits_contain(opt, ONESHOT) && eff != 0 {
        ReadinessState(with_field(s1.0, 0, 15, 4))
    } else {
        s1
    };
    ReadinessState(with_field(s2.0, s.write_pos_spec(), 3, 12))
}

/// The state after the readiness is set to `r`: queued when the new
/// readiness meets the interest.
pub open spec fn readiness_set_spec(s: ReadinessState, r: usize) -> ReadinessState {
    let n = ReadinessState(with_field(s.0, r, 15, 0));
    if n.effective_spec() != 0 {
        ReadinessState(n.0 | QUEUED_MASK)
    } else {
        n
    }
}

/// The state after an update to token position `pos`, `interest` and `opt`:
/// queued when the readiness meets the new interest.
pub open spec fn update_state_spec(s: ReadinessState, pos: usize, interest: usize, opt: usize) -> ReadinessState {
    let n = ReadinessState(with_field(with_field(with_field(s.0, pos, 3, 14), interest, 15, 4), opt, 15, 8));
    if n.effective_spec() != 0 {
        ReadinessState(n.0 | QUEUED_MASK)
    } else {
        n
    }
}

/// Whether a polled node goes back on the queue.
pub open spec fn requeues(n: ReadinessNode) -> bool {
    !n.state.dropped_spec() && poll_step(n.state).queued_spec()
}

/// The node as a poll leaves it.
pub open spec fn polled_node(n: ReadinessNode) -> ReadinessNode {
    if n.state.dropped_spec() {
        n
    } else {
        ReadinessNode { state: poll_step(n.state), ..n }
    }
}

/// Whether a polled node reports an event.
pub open spec fn reports(n: ReadinessNode) -> bool {
    !n.state.dropped_spec() && n.state.effective_spec() != 0
}

/// The event that a polled node reports.
pub open spec fn report_of(n: ReadinessNode, id: usize) -> ReadyEntry {
    ReadyEntry {
        token_entry: n.token_at(n.state.write_pos_spec()),
        ready: Ready(n.state.effective_spec()),
        node: id,
    }
}

/// The nodes among `p` that a poll puts back on the queue, in order.
pub open spec fn requeued(p: Seq<usize>, nodes: Seq<ReadinessNode>) -> Seq<usize>
    decreases p.len(),
{
    if p.len() == 0 {
        Seq::empty()
    } else {
        let r = requeued(p.drop_last(), nodes);
        if requeues(nodes[p.last() as int]) {
            r.push(p.last())
        } else {
            r
        }
    }
}

/// The events that a poll reports for the nodes `p`, in order.
pub open spec fn reported(p: Seq<usize>, nodes: Seq<ReadinessNode>) -> Seq<ReadyEntry>
    decreases p.len(),
{
    if p.len() == 0 {
        Seq::empty()
    } else {
        let r = reported(p.drop_last(), nodes);
        if reports(nodes[p.last() as int]) {
            r.push(report_of(nodes[p.last() as int], p.last()))
        } else {
            r
        }
    }
}

proof fn lemma_requeued_subset(p: Seq<usize>, nodes: Seq<ReadinessNode>)
    ensures
        forall|i: int| 0 <= i < requeued(p, nodes).len() ==> p.contains(#[trigger] requeued(p, nodes)[i]),
        requeued(p, nodes).len() <= p.len(),
        p.no_duplicates() ==> requeued(p, nodes).no_duplicates(),
        forall|i: int| 0 <= i < requeued(p, nodes).len() ==> requeues(nodes[#[trigger] requeued(p, nodes)[i] as int]),
    decreases p.len(),
{
    if p.len() > 0 {
        lemma_requeued_subset(p.drop_last(), nodes);
        let r = requeued(p.drop_last(), nodes);
        assert forall|i: int| 0 <= i < requeued(p, nodes).len() implies p.contains(#[trigger] requeued(p, nodes)[i]) by {
            if i < r.len() {
                let j = choose|j: int| 0 <= j < p.drop_last().len() && p.drop_last()[j] == r[i];
                assert(p[j] == r[i]);
            } else {
                assert(p[p.len() - 1] == p.last());
            }
        }
        if p.no_duplicates() {
            assert(p.drop_last().no_duplicates());
            if requeues(nodes[p.last() as int]) {
                assert forall|i: int| 0 <= i < r.len() implies r[i] != p.last() by {
                    let j = choose|j: int| 0 <= j < p.drop_last().len() && p.drop_last()[j] == r[i];
                    assert(p[j] == r[i]);
                }
            }
        }
    }
}

/// The readiness queue: nodes that have something to report wait here, in
/// order, until a poll takes them off.
pub struct ReadinessQueue {
    nodes: Vec<ReadinessNode>,
    data: VecDeque<usize>,
    marker: Marker,
    closed: bool,
}

impl ReadinessQueue {
    pub closed spec fn nodes_spec(&self) -> Seq<ReadinessNode> {
        self.nodes@
    }

    pub closed spec fn data_spec(&self) -> Seq<usize> {
        self.data@
    }

    pub closed spec fn marker_spec(&self) -> Marker {
        self.marker
    }

    pub closed spec fn closed_spec(&self) -> bool {
        self.closed
    }

    /// The queue's invariant: a marker or some data is always present,
    /// queued nodes exist, are marked queued and occur once.
    pub open spec fn wf(&self) -> bool {
        &&& (self.marker_spec() == Marker::Absent ==> self.data_spec().len() > 0)
        &&& forall|i: int|
            0 <= i < self.data_spec().len() ==> #[trigger] self.data_spec()[i] < self.nodes_spec().len()
                && self.nodes_spec()[self.data_spec()[i] as int].state.queued_spec()
        &&& self.data_spec().no_duplicates()
        &&& forall|j: int| 0 <= j < self.nodes_spec().len() ==> #[trigger] self.nodes_spec()[j].node_wf()
    }

    pub fn new() -> (r: ReadinessQueue)
        ensures
            r.wf(),
            r.nodes_spec() == Seq::<ReadinessNode>::empty(),
            r.data_spec() == Seq::<usize>::empty(),
            r.marker_spec() == Marker::End,
            !r.closed_spec(),
    {
        ReadinessQueue { nodes: Vec::new(), data: VecDeque::new(), marker: Marker::End, closed: false }
    }

    pub fn num_nodes(&self) -> (r: usize)
        ensures
            r == self.nodes_spec().len(),
    {
        self.nodes.len()
    }

    pub fn node(&self, id: usize) -> (r: ReadinessNode)
        requires
            id < self.nodes_spec().len(),
        ensures
            r == self.nodes_spec()[id as int],
    {
        self.nodes[id]
    }

    /// Puts a node at the producer end. Answers whether the poller sleeps and
    /// must be woken. A closed queue takes nothing.
    pub fn enqueue_node(&mut self, id: usize) -> (wakeup: bool)
        requires
            old(self).wf(),
            id < old(self).nodes_spec().len(),
            old(self).nodes_spec()[id as int].state.queued_spec(),
            !old(self).data_spec().contains(id),
        ensures
            final(self).wf(),
            final(self).nodes_spec() == old(self).nodes_spec(),
            final(self).marker_spec() == old(self).marker_spec(),
            final(self).closed_spec() == old(self).closed_spec(),
            old(self).closed_spec() ==> final(self).data_spec() == old(self).data_spec() && !wakeup,
            !old(self).closed_spec() ==> final(self).data_spec() == old(self).data_spec().push(id),
            !old(self).closed_spec() ==> wakeup == (old(self).marker_spec() == Marker::Sleep
                && old(self).data_spec().len() == 0),
    {
        if self.closed {
            return false;
        }
        let wakeup = self.marker == Marker::Sleep && self.data.len() == 0;
        self.data.push_back(id);
        proof {
            assert(self.data@ == old(self).data@.push(id));
            assert forall|i: int| 0 <= i < self.data@.len() implies #[trigger] self.data@[i] < self.nodes@.len()
                && self.nodes@[self.data@[i] as int].state.queued_spec() by {
                if i < old(self).data@.len() {
                    assert(self.data@[i] == old(self).data@[i]);
                }
            }
            assert forall|a: int, b: int| 0 <= a < self.data@.len() && 0 <= b < self.data@.len() && a != b
                implies self.data@[a] != self.data@[b] by {
                if a < old(self).data@.len() && b < old(self).data@.len() {
                } else if a < old(self).data@.len() {
                    assert(old(self).data@[a] == self.data@[a]);
                } else {
                    assert(old(self).data@[b] == self.data@[b]);
                }
            }
        }
        wakeup
    }

    /// Puts the end marker back in place of the sleep marker, if nothing was
    /// queued behind it.
    pub fn clear_sleep_marker(&mut self)
        requires
            old(self).wf(),
        ensures
            final(self).wf(),
            final(self).nodes_spec() == old(self).nodes_spec(),
            final(self).data_spec() == old(self).data_spec(),
            final(self).closed_spec() == old(self).closed_spec(),
            final(self).marker_spec() == if old(self).marker_spec() == Marker::Sleep
                && old(self).data_spec().len() == 0 {
                Marker::End
            } else {
                old(self).marker_spec()
            },
    {
        if self.marker == Marker::Sleep && self.data.len() == 0 {
            self.marker = Marker::End;
        }
    }

    /// Takes the node at the consumer end, skipping a marker, unless the
    /// queue holds no node or that node is `until`.
    pub fn dequeue_node(&mut self, until: Option<usize>) -> (r: Dequeue)
        requires
            old(self).wf(),
        ensures
            final(self).wf(),
            final(self).nodes_spec() == old(self).nodes_spec(),
            final(self).closed_spec() == old(self).closed_spec(),
            old(self).data_spec().len() == 0 ==> {
                &&& r == Dequeue::Empty
                &&& final(self).data_spec() == old(self).data_spec()
                &&& final(self).marker_spec() == if old(self).marker_spec() == Marker::Sleep {
                    Marker::End
                } else {
                    old(self).marker_spec()
                }
            },
            old(self).data_spec().len() > 0 && until == Some(old(self).data_spec()[0]) ==> {
                &&& r == Dequeue::Empty
                &&& final(self).data_spec() == old(self).data_spec()
                &&& final(self).marker_spec() == Marker::Absent
            },
            old(self).data_spec().len() > 0 && until != Some(old(self).data_spec()[0]) ==> {
                &&& r == Dequeue::Data(old(self).data_spec()[0])
                &&& final(self).data_spec() == old(self).data_spec().drop_first()
                &&& final(self).marker_spec() == if old(self).data_spec().len() == 1 {
                    Marker::End
                } else {
                    Marker::Absent
                }
            },
    {
        if self.marker != Marker::Absent {
            if self.data.len() == 0 {
                self.clear_sleep_marker();
                return Dequeue::Empty;
            }
            self.marker = Marker::Absent;
        }
        let tail = self.data[0];
        if until == Some(tail) {
            return Dequeue::Empty;
        }
        let last = self.data.len() == 1;
        let _ = self.data.pop_front();
        if last {
            self.marker = Marker::End;
        }
        proof {
            assert(self.data@ =~= old(self).data@.drop_first());
            assert forall|i: int| 0 <= i < self.data@.len() implies #[trigger] self.data@[i] < self.nodes@.len()
                && self.nodes@[self.data@[i] as int].state.queued_spec() by {
                assert(self.data@[i] == old(self).data@[i + 1]);
            }
            assert forall|a: int, b: int| 0 <= a < self.data@.len() && 0 <= b < self.data@.len() && a != b
                implies self.data@[a] != self.data@[b] by {
                assert(self.data@[a] == old(self).data@[a + 1]);
                assert(self.data@[b] == old(self).data@[b + 1]);
            }
        }
        Dequeue::Data(tail)
    }

    /// Swaps the end marker for the sleep marker when nothing is queued, so
    /// that the next enqueue asks for a wakeup. Answers whether the poller may
    /// sleep.
    pub fn prepare_for_sleep(&mut self) -> (r: bool)
        requires
            old(self).wf(),
        ensures
            final(self).wf(),
            final(self).nodes_spec() == old(self).nodes_spec(),
            final(self).data_spec() == old(self).data_spec(),
            final(self).closed_spec() == old(self).closed_spec(),
            r == (old(self).data_spec().len() == 0),
            final(self).marker_spec() == if old(self).marker_spec() == Marker::End
                && old(self).data_spec().len() == 0 {
                Marker::Sleep
            } else {
                old(self).marker_spec()
            },
    {
        if self.marker == Marker::Sleep {
            return self.data.len() == 0;
        }
        if self.marker != Marker::End {
            return false;
        }
        if self.data.len() == 0 {
            self.marker = Marker::Sleep;
            true
        } else {
            false
        }
    }

    /// Takes nodes off the queue in order and reports, into `dst`, the
    /// readiness of each that has some, until `dst` holds `capacity` events or
    /// every node queued at the start has been seen. Level-triggered nodes
    /// with readiness go back on the queue; edge-triggered ones leave it, and
    /// one-shot ones are disarmed.
    pub fn poll(&mut self, dst: &mut Vec<ReadyEntry>, capacity: usize)
        requires
            old(self).wf(),
        ensures
            final(self).wf(),
            final(self).closed_spec() == old(self).closed_spec(),
            final(self).nodes_spec().len() == old(self).nodes_spec().len(),
            exists|k: int| #![trigger old(self).data_spec().take(k)] {
                let p = old(self).data_spec().take(k);
                &&& 0 <= k <= old(self).data_spec().len()
                &&& final(dst)@ == old(dst)@ + reported(p, old(self).nodes_spec())
                &&& !old(self).closed_spec() ==> final(self).data_spec()
                    == old(self).data_spec().skip(k) + requeued(p, old(self).nodes_spec())
                &&& forall|j: usize| j < old(self).nodes_spec().len() ==>
                    #[trigger] final(self).nodes_spec()[j as int] == if p.contains(j) {
                        polled_node(old(self).nodes_spec()[j as int])
                    } else {
                        old(self).nodes_spec()[j as int]
                    }
                &&& (k < old(self).data_spec().len() ==> final(dst)@.len() >= capacity)
            },
            final(self).marker_spec() == Marker::Sleep ==> old(self).marker_spec() == Marker::Sleep
                && old(dst)@.len() >= capacity,
            final(dst)@.len() <= if old(dst)@.len() >= capacity {
                old(dst)@.len() as int
            } else {
                capacity as int
            },
            forall|i: int| old(dst)@.len() <= i < final(dst)@.len() ==> {
                let e = #[trigger] final(dst)@[i];
                let st = old(self).nodes_spec()[e.node as int].state;
                &&& e.node < old(self).nodes_spec().len()
                &&& e.ready@ == st.readiness_spec() & st.interest_spec()
                &&& bits_contain(st.interest_spec(), e.ready@)
                &&& e.ready@ != 0
            },
    {
        let ghost old_data = self.data@;
        let ghost old_nodes = self.nodes@;
        let ghost old_dst = dst@;
        let ghost old_marker = self.marker;
        let ghost mut k: int = 0;
        let mut until: Option<usize> = None;
        if dst.len() == capacity {
            self.clear_sleep_marker();
        }
        proof {
            assert(old_data.take(0) =~= Seq::<usize>::empty());
            assert(old_data.skip(0) =~= old_data);
            assert(self.data@ =~= old_data.skip(0) + requeued(old_data.take(0), old_nodes));
        }
        while dst.len() < capacity
            invariant
                self.wf(),
                self.closed == old(self).closed,
                old_data.no_duplicates(),
                0 <= k <= old_data.len(),
                self.nodes@.len() == old_nodes.len(),
                forall|i: int| 0 <= i < old_data.len() ==> #[trigger] old_data[i] < old_nodes.len(),
                dst@ == old_dst + reported(old_data.take(k), old_nodes),
                dst@.len() <= if old_dst.len() >= capacity { old_dst.len() as int } else { capacity as int },
                !self.closed ==> self.data@ == old_data.skip(k) + requeued(old_data.take(k), old_nodes),
                self.closed ==> self.data@ == old_data.skip(k),
                !self.closed ==> until == if requeued(old_data.take(k), old_nodes).len() > 0 {
                    Some(requeued(old_data.take(k), old_nodes)[0])
                } else {
                    None::<usize>
                },
                self.closed ==> (until matches Some(u) ==> old_data.take(k).contains(u)),
                forall|j: usize| j < old_nodes.len() ==>
                    #[trigger] self.nodes@[j as int] == if old_data.take(k).contains(j) {
                        polled_node(old_nodes[j as int])
                    } else {
                        old_nodes[j as int]
                    },
                self.marker == Marker::Sleep ==> old_marker == Marker::Sleep && (old_dst.len() >= capacity
                    || (k == 0 && dst@ == old_dst)),
            ensures
                k < old_data.len() ==> dst@.len() >= capacity,
                self.marker == Marker::Sleep ==> old_marker == Marker::Sleep && old_dst.len() >= capacity,
            decreases capacity - dst@.len(), self.data@.len(),
        {
            let ghost pre_data = self.data@;
            let ghost p = old_data.take(k);
            proof {
                lemma_requeued_subset(p, old_nodes);
                assert(p.no_duplicates());
            }
            let id = match self.dequeue_node(until) {
                Dequeue::Empty => {
                    proof {
                        if k < old_data.len() {
                            assert(pre_data[0] == old_data[k]);
                            let r = requeued(p, old_nodes);
                            let u = until.unwrap();
                            if !self.closed {
                                assert(r.len() > 0);
                                assert(p.contains(r[0]));
                            }
                            assert(p.contains(u));
                            let j = choose|j: int| 0 <= j < p.len() && p[j] == u;
                            assert(old_data[j] == u);
                            assert(false);
                        }
                    }
                    break;
                },
                Dequeue::Data(id) => id,
            };
            proof {
                if k == old_data.len() {
                    let r = requeued(p, old_nodes);
                    assert(pre_data =~= r);
                    assert(pre_data[0] == r[0]);
                    assert(false);
                }
                assert(pre_data[0] == old_data[k]);
                assert(id == old_data[k]);
                assert(old_data.take(k + 1).drop_last() =~= p);
                assert(old_data.take(k + 1).last() == id);
                assert(!p.contains(id)) by {
                    if p.contains(id) {
                        let j = choose|j: int| 0 <= j < p.len() && p[j] == id;
                        assert(old_data[j] == old_data[k]);
                    }
                }
                assert(self.nodes@[id as int] == old_nodes[id as int]);
                assert(self.nodes@[id as int].node_wf());
                assert(old_data.take(k + 1)[k] == id);
            }
            let node = self.nodes[id];
            let mut state = node.state;
            if state.is_dropped() {
                proof {
                    let p1 = old_data.take(k + 1);
                    assert(requeued(p1, old_nodes) == requeued(p, old_nodes));
                    assert(reported(p1, old_nodes) == reported(p, old_nodes));
                    assert(!self.closed ==> self.data@ =~= old_data.skip(k + 1) + requeued(p1, old_nodes));
                    assert(self.closed ==> self.data@ =~= old_data.skip(k + 1));
                    assert forall|j: usize| j < old_nodes.len() implies
                        #[trigger] self.nodes@[j as int] == if p1.contains(j) {
                            polled_node(old_nodes[j as int])
                        } else {
                            old_nodes[j as int]
                        } by {
                        if j == id {
                            assert(p1[k] == id);
                        } else {
                            if p1.contains(j) {
                                let i = choose|i: int| 0 <= i < p1.len() && p1[i] == j;
                                assert(i != k);
                                assert(p[i] == j);
                            }
                            if p.contains(j) {
                                let i = choose|i: int| 0 <= i < p.len() && p[i] == j;
                                assert(p1[i] == j);
                            }
                        }
                    }
                    k = k + 1;
                }
                continue;
            }
            let readiness = state.effective_readiness();
            let opt = state.poll_opt();
            let ghost s0 = state;
            if opt.is_edge() {
                state.set_dequeued();
                if opt.is_oneshot() && !readiness.is_empty() {
                    state.disarm();
                }
            } else if readiness.is_empty() {
                state.set_dequeued();
            }
            state.update_token_read_pos();
            proof {
                assert(state == poll_step(s0));
                assert(state.read_pos_spec() == s0.write_pos_spec());
            }
            let read_pos = state.token_read_pos();
            self.nodes.set(id, ReadinessNode { state, ..node });
            let ghost mid_data = self.data@;
            if state.is_queued() {
                if until.is_none() {
                    until = Some(id);
                }
                let _ = self.enqueue_node(id);
            }
            if !readiness.is_empty() {
                let token = node.token(read_pos);
                dst.push(ReadyEntry { token_entry: token, ready: readiness, node: id });
            }
            proof {
                let p1 = old_data.take(k + 1);
                assert(self.nodes@[id as int] == polled_node(old_nodes[id as int]));
                if !self.closed {
                    assert(self.data@ =~= old_data.skip(k + 1) + requeued(p1, old_nodes));
                } else {
                    assert(self.data@ =~= old_data.skip(k + 1));
                }
                assert(dst@ =~= old_dst + reported(p1, old_nodes));
                assert forall|j: usize| j < old_nodes.len() implies
                    #[trigger] self.nodes@[j as int] == if p1.contains(j) {
                        polled_node(old_nodes[j as int])
                    } else {
                        old_nodes[j as int]
                    } by {
                    if j == id {
                        assert(p1[k] == id);
                    } else {
                        if p1.contains(j) {
                            let i = choose|i: int| 0 <= i < p1.len() && p1[i] == j;
                            assert(i != k);
                            assert(p[i] == j);
                        }
                        if p.contains(j) {
                            let i = choose|i: int| 0 <= i < p.len() && p[i] == j;
                            assert(p1[i] == j);
                        }
                    }
                }
                if self.closed {
                    if let Some(u) = until {
                        if u != id {
                            let i = choose|i: int| 0 <= i < p.len() && p[i] == u;
                            assert(p1[i] == u);
                        } else {
                            assert(p1[k] == id);
                        }
                    }
                }
                k = k + 1;
            }
        }
        proof {
            let p = old_data.take(k);
            law_poll_reports_interest(p, old_nodes);
            assert forall|i: int| old_dst.len() <= i < dst@.len() implies {
                let e = #[trigger] dst@[i];
                let st = old_nodes[e.node as int].state;
                &&& e.node < old_nodes.len()
                &&& e.ready@ == st.readiness_spec() & st.interest_spec()
                &&& bits_contain(st.interest_spec(), e.ready@)
                &&& e.ready@ != 0
            } by {
                let e = reported(p, old_nodes)[i - old_dst.len()];
                assert(dst@[i] == e);
                let j = choose|j: int| 0 <= j < p.len() && p[j] == e.node;
                assert(old_data[j] == e.node);
            }
        }
    }

    /// Adds a node for a new registration; `attached` says whether it is tied
    /// to this queue from the start.
    pub fn add_node(&mut self, token: TokenEntry, interest: Ready, opt: PollOpt, attached: bool) -> (id: usize)
        requires
            old(self).wf(),
            interest@ <= MASK_4,
            opt@ <= MASK_4,
            old(self).nodes_spec().len() < usize::MAX,
        ensures
            final(self).wf(),
            id == old(self).nodes_spec().len(),
            final(self).nodes_spec().len() == old(self).nodes_spec().len() + 1,
            forall|j: int| 0 <= j < id ==> final(self).nodes_spec()[j] == old(self).nodes_spec()[j],
            final(self).nodes_spec()[id as int].state == ReadinessState::new_spec(interest@, opt@),
            final(self).nodes_spec()[id as int].token_0 == token,
            final(self).nodes_spec()[id as int].token_at(0) == token,
            final(self).nodes_spec()[id as int].attached == attached,
            final(self).data_spec() == old(self).data_spec(),
            final(self).marker_spec() == old(self).marker_spec(),
            final(self).closed_spec() == old(self).closed_spec(),
    {
        let blank = TokenEntry { ttype: TokenType::TokenEvent, token: Token(0) };
        let state = ReadinessState::new(interest, opt);
        let id = self.nodes.len();
        self.nodes.push(ReadinessNode { state, token_0: token, token_1: blank, token_2: blank, attached });
        proof {
            assert forall|i: int| 0 <= i < self.data@.len() implies #[trigger] self.data@[i] < self.nodes@.len()
                && self.nodes@[self.data@[i] as int].state.queued_spec() by {
                assert(self.nodes@[self.data@[i] as int] == old(self).nodes@[self.data@[i] as int]);
            }
            assert forall|j: int| 0 <= j < self.nodes@.len() implies #[trigger] self.nodes@[j].node_wf() by {
                if j < id {
                    assert(self.nodes@[j] == old(self).nodes@[j]);
                }
            }
        }
        id
    }

    /// The readiness last set on node `id`.
    pub fn readiness(&self, id: usize) -> (r: Ready)
        requires
            id < self.nodes_spec().len(),
        ensures
            r@ == self.nodes_spec()[id as int].state.readiness_spec(),
    {
        self.nodes[id].state.readiness()
    }

    /// Sets node `id`'s readiness. A node whose readiness now meets its
    /// interest is queued, if it was not already. Answers whether the poller
    /// must be woken.
    pub fn set_readiness(&mut self, id: usize, ready: Ready) -> (wakeup: bool)
        requires
            old(self).wf(),
            id < old(self).nodes_spec().len(),
            ready@ < 0x1000,
        ensures
            final(self).wf(),
            final(self).nodes_spec().len() == old(self).nodes_spec().len(),
            final(self).marker_spec() == old(self).marker_spec(),
            final(self).closed_spec() == old(self).closed_spec(),
            forall|j: int| 0 <= j < old(self).nodes_spec().len() && j != id ==>
                final(self).nodes_spec()[j] == old(self).nodes_spec()[j],
            set_readiness_result(*old(self), *final(self), id, ready@, wakeup),
    {
        let node = self.nodes[id];
        let state = node.state;
        if state.is_dropped() {
            return false;
        }
        let mut next = state;
        next.set_readiness(ready);
        proof {
            assert(self.nodes@[id as int].node_wf());
            lemma_wide_writes(state.0, ready@);
        }
        if !next.effective_readiness().is_empty() {
            next.set_queued();
        }
        self.store_state(id, next);
        if !state.is_queued() && next.is_queued() && node.attached {
            return self.enqueue_node(id);
        }
        false
    }

    /// Replaces node `id`'s state with one that keeps its token positions
    /// valid and is queued whenever it was.
    fn store_state(&mut self, id: usize, next: ReadinessState)
        requires
            old(self).wf(),
            id < old(self).nodes_spec().len(),
            next.read_pos_spec() < 3,
            next.write_pos_spec() < 3,
            old(self).nodes_spec()[id as int].state.queued_spec() ==> next.queued_spec(),
        ensures
            final(self).wf(),
            final(self).nodes_spec() == old(self).nodes_spec().update(
                id as int,
                ReadinessNode { state: next, ..old(self).nodes_spec()[id as int] },
            ),
            final(self).data_spec() == old(self).data_spec(),
            final(self).marker_spec() == old(self).marker_spec(),
            final(self).closed_spec() == old(self).closed_spec(),
    {
        let node = self.nodes[id];
        self.nodes.set(id, ReadinessNode { state: next, ..node });
        proof {
            assert forall|i: int| 0 <= i < self.data@.len() implies #[trigger] self.data@[i] < self.nodes@.len()
                && self.nodes@[self.data@[i] as int].state.queued_spec() by {
                if self.data@[i] != id {
                    assert(self.nodes@[self.data@[i] as int] == old(self).nodes@[self.data@[i] as int]);
                }
            }
            assert forall|j: int| 0 <= j < self.nodes@.len() implies #[trigger] self.nodes@[j].node_wf() by {
                if j != id {
                    assert(self.nodes@[j] == old(self).nodes@[j]);
                }
            }
        }
    }

    /// Ties node `id` to this queue, gives it `token`, `interest` and `opt`,
    /// and queues it if its readiness now meets its interest. A token that
    /// differs from the one in use goes to a slot that a poll is not reading.
    /// Answers whether the poller must be woken.
    pub fn update(&mut self, id: usize, token: TokenEntry, interest: Ready, opt: PollOpt) -> (wakeup: bool)
        requires
            old(self).wf(),
            id < old(self).nodes_spec().len(),
            !old(self).nodes_spec()[id as int].state.dropped_spec(),
            interest@ < 0x100,
            opt@ < 0x10,
        ensures
            final(self).wf(),
            final(self).nodes_spec().len() == old(self).nodes_spec().len(),
            final(self).marker_spec() == old(self).marker_spec(),
            final(self).closed_spec() == old(self).closed_spec(),
            forall|j: int| 0 <= j < old(self).nodes_spec().len() && j != id ==>
                final(self).nodes_spec()[j] == old(self).nodes_spec()[j],
            update_result(*old(self), *final(self), id, token, interest@, opt@, wakeup),
    {
        let mut node = self.nodes[id];
        node.attached = true;
        let state = node.state;
        proof {
            assert(self.nodes@[id as int].node_wf());
        }
        let curr_pos = state.token_write_pos();
        let curr_token = node.token(curr_pos);
        let mut next_pos = curr_pos;
        if token != curr_token {
            next_pos = state.next_token_pos();
            match next_pos {
                0 => node.token_0 = token,
                1 => node.token_1 = token,
                _ => node.token_2 = token,
            }
        }
        let mut next = state;
        next.set_token_write_pos(next_pos);
        let ghost s0 = next;
        next.set_interest(interest);
        proof {
            lemma_wide_writes(s0.0, interest@);
        }
        let ghost s1 = next;
        next.set_poll_opt(opt);
        proof {
            lemma_wide_writes(s1.0, opt@);
            crate::poll::state::lemma_field_roundtrip(s1.0, opt@);
        }
        if !next.effective_readiness().is_empty() {
            next.set_queued();
        }
        self.nodes.set(id, node);
        proof {
            assert forall|i: int| 0 <= i < self.data@.len() implies #[trigger] self.data@[i] < self.nodes@.len()
                && self.nodes@[self.data@[i] as int].state.queued_spec() by {
                if self.data@[i] != id {
                    assert(self.nodes@[self.data@[i] as int] == old(self).nodes@[self.data@[i] as int]);
                }
            }
            assert forall|j: int| 0 <= j < self.nodes@.len() implies #[trigger] self.nodes@[j].node_wf() by {
                if j != id {
                    assert(self.nodes@[j] == old(self).nodes@[j]);
                }
            }
        }
        self.store_state(id, next);
        if !state.is_queued() && next.is_queued() {
            return self.enqueue_node(id);
        }
        false
    }

    /// Marks node `id` dropped and queued, so that the next poll discards
    /// it. Answers whether the poller must be woken.
    pub fn flag_as_dropped(&mut self, id: usize) -> (wakeup: bool)
        requires
            old(self).wf(),
            id < old(self).nodes_spec().len(),
            !old(self).nodes_spec()[id as int].state.dropped_spec(),
        ensures
            final(self).wf(),
            final(self).nodes_spec().len() == old(self).nodes_spec().len(),
            final(self).marker_spec() == old(self).marker_spec(),
            final(self).closed_spec() == old(self).closed_spec(),
            forall|j: int| 0 <= j < old(self).nodes_spec().len() && j != id ==>
                final(self).nodes_spec()[j] == old(self).nodes_spec()[j],
            dropped_result(*old(self), *final(self), id, wakeup),
    {
        let node = self.nodes[id];
        let prev = node.state;
        let next = ReadinessState(prev.0 | QUEUED_MASK | DROPPED_MASK);
        proof {
            assert(self.nodes@[id as int].node_wf());
            let s = prev.0;
            assert({
                let n = s | 0x1_0000usize | 0x2_0000usize;
                &&& (n >> 12usize) & 3usize == (s >> 12usize) & 3usize
                &&& (n >> 14usize) & 3usize == (s >> 14usize) & 3usize
                &&& n & 0x1_0000usize == 0x1_0000usize
                &&& n & 0x2_0000usize == 0x2_0000usize
            }) by (bit_vector);
        }
        self.store_state(id, next);
        if !prev.is_queued() && node.attached {
            return self.enqueue_node(id);
        }
        false
    }

    /// Closes the queue: it takes no node from now on, and the nodes queued
    /// now are let go.
    pub fn close(&mut self)
        requires
            old(self).wf(),
        ensures
            final(self).wf(),
            final(self).closed_spec(),
            final(self).data_spec().len() == 0,
            final(self).nodes_spec() == old(self).nodes_spec(),
    {
        self.closed = true;
        let mut done = false;
        while !done
            invariant
                self.wf(),
                self.closed,
                self.nodes@ == old(self).nodes@,
                done ==> self.data@.len() == 0,
            decreases self.data@.len() + if done { 0int } else { 1int },
        {
            match self.dequeue_node(None) {
                Dequeue::Empty => {
                    done = true;
                },
                Dequeue::Data(_) => {},
            }
        }
    }
}

/// What setting node `id`'s readiness to `ready` does to the queue, and
/// whether it asks for a wakeup.
pub open spec fn set_readiness_result(pre: ReadinessQueue, post: ReadinessQueue, id: usize, ready: usize, wakeup: bool) -> bool {
    &&& post.wf()
    &&& post.nodes_spec().len() == pre.nodes_spec().len()
    &&& post.marker_spec() == pre.marker_spec()
    &&& post.closed_spec() == pre.closed_spec()
    &&& forall|j: int| 0 <= j < pre.nodes_spec().len() && j != id ==>
        post.nodes_spec()[j] == pre.nodes_spec()[j]
    &&& {
        let n = pre.nodes_spec()[id as int];
        let s = readiness_set_spec(n.state, ready);
        if n.state.dropped_spec() {
            &&& post.nodes_spec()[id as int] == n
            &&& post.data_spec() == pre.data_spec()
            &&& !wakeup
        } else {
            let enq = !n.state.queued_spec() && s.queued_spec() && n.attached && !pre.closed_spec();
            &&& post.nodes_spec()[id as int] == ReadinessNode { state: s, ..n }
            &&& post.data_spec() == if enq {
                pre.data_spec().push(id)
            } else {
                pre.data_spec()
            }
            &&& wakeup == (enq && pre.marker_spec() == Marker::Sleep
                && pre.data_spec().len() == 0)
        }
    }
}

/// What updating node `id` to `token`, `interest` and `opt` does to the
/// queue, and whether it asks for a wakeup.
pub open spec fn update_result(pre: ReadinessQueue, post: ReadinessQueue, id: usize, token: TokenEntry, interest: usize, opt: usize, wakeup: bool) -> bool {
    &&& post.wf()
    &&& post.nodes_spec().len() == pre.nodes_spec().len()
    &&& post.marker_spec() == pre.marker_spec()
    &&& post.closed_spec() == pre.closed_spec()
    &&& forall|j: int| 0 <= j < pre.nodes_spec().len() && j != id ==>
        post.nodes_spec()[j] == pre.nodes_spec()[j]
    &&& {
        let n = pre.nodes_spec()[id as int];
        let f = post.nodes_spec()[id as int];
        let wp = f.state.write_pos_spec();
        let s = update_state_spec(n.state, wp, interest, opt);
        let enq = !n.state.queued_spec() && s.queued_spec() && !pre.closed_spec();
        &&& f.attached
        &&& f.state == s
        &&& wp < 3
        &&& f.token_at(wp) == token
        &&& (token == n.token_at(n.state.write_pos_spec()) ==> wp == n.state.write_pos_spec()
            && f.token_0 == n.token_0 && f.token_1 == n.token_1 && f.token_2 == n.token_2)
        &&& (token != n.token_at(n.state.write_pos_spec()) ==> wp == n.state.next_token_pos_spec()
            && forall|p: usize| p < 3 && p != wp ==> #[trigger] f.token_at(p) == n.token_at(p))
        &&& f.token_at(n.state.read_pos_spec()) == n.token_at(n.state.read_pos_spec())
        &&& interest <= MASK_4 ==> f.state.interest_spec() == interest
        &&& f.state.opt_spec() == opt
        &&& post.data_spec() == if enq {
            pre.data_spec().push(id)
        } else {
            pre.data_spec()
        }
        &&& wakeup == (enq && pre.marker_spec() == Marker::Sleep
            && pre.data_spec().len() == 0)
    }
}

/// What dropping node `id`'s registration does to the queue, and whether it
/// asks for a wakeup.
pub open spec fn dropped_result(pre: ReadinessQueue, post: ReadinessQueue, id: usize, wakeup: bool) -> bool {
    &&& post.wf()
    &&& post.nodes_spec().len() == pre.nodes_spec().len()
    &&& post.marker_spec() == pre.marker_spec()
    &&& post.closed_spec() == pre.closed_spec()
    &&& forall|j: int| 0 <= j < pre.nodes_spec().len() && j != id ==>
        post.nodes_spec()[j] == pre.nodes_spec()[j]
    &&& {
        let n = pre.nodes_spec()[id as int];
        let enq = !n.state.queued_spec() && n.attached && !pre.closed_spec();
        &&& post.nodes_spec()[id as int] == ReadinessNode {
            state: ReadinessState(n.state.0 | QUEUED_MASK | DROPPED_MASK),
            ..n
        }
        &&& post.nodes_spec()[id as int].state.dropped_spec()
        &&& post.data_spec() == if enq {
            pre.data_spec().push(id)
        } else {
            pre.data_spec()
        }
        &&& wakeup == (enq && pre.marker_spec() == Marker::Sleep
            && pre.data_spec().len() == 0)
    }
}

} // verus!

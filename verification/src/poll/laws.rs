use vstd::prelude::*;
use crate::event_imp::{bits_contain, EDGE, ONESHOT, TokenEntry};
use crate::poll::state::{ReadinessState, field, with_field, QUEUED_MASK};
use crate::poll::queue::{
    ReadinessQueue, ReadinessNode, Marker, poll_step, polled_node, requeues, reports, reported,
    readiness_set_spec, set_readiness_result, update_result,
};

verus! {

proof fn lemma_queued_bit_kept(x: usize, v: usize, m: usize, sh: usize)
    requires
        (m == 15 && sh == 0 && v <= 15) || (m == 15 && sh == 4 && v <= 15) || (m == 3 && sh == 12 && v <= 3),
    ensures
        (with_field(x, v, m, sh) & 0x1_0000 == 0x1_0000) == (x & 0x1_0000 == 0x1_0000),
        (with_field(x, v, m, sh) & 0x2_0000 == 0x2_0000) == (x & 0x2_0000 == 0x2_0000),
{
    assert(
        ((m == 15usize && sh == 0usize && v <= 15usize) || (m == 15usize && sh == 4usize && v <= 15usize)
            || (m == 3usize && sh == 12usize && v <= 3usize))
        ==> (((x & !(m << sh)) | (v << sh)) & 0x1_0000usize == 0x1_0000usize) == (x & 0x1_0000usize == 0x1_0000usize)
            && (((x & !(m << sh)) | (v << sh)) & 0x2_0000usize == 0x2_0000usize) == (x & 0x2_0000usize == 0x2_0000usize)
    ) by (bit_vector);
}

proof fn lemma_write_pos_small(s: ReadinessState)
    ensures
        s.write_pos_spec() <= 3,
{
    let x = s.0;
    assert((x >> 14usize) & 3usize <= 3usize) by (bit_vector);
}

/// What a registration's readiness handle reads back is what was last
/// written to it, for readiness that fits its field.
pub proof fn law_readiness_read_after_write(pre: ReadinessQueue, post: ReadinessQueue, id: usize, r: usize, wakeup: bool)
    requires
        set_readiness_result(pre, post, id, r, wakeup),
        id < pre.nodes_spec().len(),
        !pre.nodes_spec()[id as int].state.dropped_spec(),
        r <= 15,
    ensures
        post.nodes_spec()[id as int].state.readiness_spec() == r,
{
    let s = pre.nodes_spec()[id as int].state.0;
    assert(r <= 15usize ==> {
        let n = (s & !(15usize << 0usize)) | (r << 0usize);
        &&& (n >> 0usize) & 15usize == r
        &&& ((n | 0x1_0000usize) >> 0usize) & 15usize == r
    }) by (bit_vector);
}

/// A readiness that meets the interest of a live registration tied to an
/// open queue puts it on the queue, unless it is there already.
pub proof fn law_ready_interest_queues(pre: ReadinessQueue, post: ReadinessQueue, id: usize, r: usize, wakeup: bool)
    requires
        set_readiness_result(pre, post, id, r, wakeup),
        pre.wf(),
        id < pre.nodes_spec().len(),
        !pre.nodes_spec()[id as int].state.dropped_spec(),
        pre.nodes_spec()[id as int].attached,
        !pre.closed_spec(),
        pre.nodes_spec()[id as int].state.queued_spec() ==> pre.data_spec().contains(id),
        ReadinessState(with_field(pre.nodes_spec()[id as int].state.0, r, 15, 0)).effective_spec() != 0,
    ensures
        post.data_spec().contains(id),
{
    let n = pre.nodes_spec()[id as int];
    let x = with_field(n.state.0, r, 15, 0);
    assert((x | 0x1_0000usize) & 0x1_0000usize == 0x1_0000usize) by (bit_vector);
    if !n.state.queued_spec() {
        assert(post.data_spec() == pre.data_spec().push(id));
        assert(post.data_spec()[pre.data_spec().len() as int] == id);
    }
}

/// Once a poller has prepared to sleep on an empty queue, the next readiness
/// that queues a node asks for a wakeup.
pub proof fn law_sleep_then_wakeup(q: ReadinessQueue, post: ReadinessQueue, id: usize, r: usize, wakeup: bool)
    requires
        q.marker_spec() == Marker::Sleep,
        q.data_spec().len() == 0,
        set_readiness_result(q, post, id, r, wakeup),
        id < q.nodes_spec().len(),
        !q.nodes_spec()[id as int].state.dropped_spec(),
        !q.nodes_spec()[id as int].state.queued_spec(),
        q.nodes_spec()[id as int].attached,
        !q.closed_spec(),
        readiness_set_spec(q.nodes_spec()[id as int].state, r).queued_spec(),
    ensures
        wakeup,
        post.data_spec() == seq![id],
{
    assert(q.data_spec().push(id) =~= seq![id]);
}

/// An edge-triggered node leaves the queue when it is polled.
pub proof fn law_edge_leaves_queue(n: ReadinessNode)
    requires
        bits_contain(n.state.opt_spec(), EDGE),
    ensures
        !requeues(n),
{
    let s = n.state;
    let s0 = s.0;
    let x = s0 & !QUEUED_MASK;
    assert(x & 0x1_0000usize != 0x1_0000usize) by (bit_vector)
        requires x == s0 & !0x1_0000usize;
    lemma_write_pos_small(s);
    lemma_queued_bit_kept(x, 0, 15, 4);
    let y = if bits_contain(s.opt_spec(), ONESHOT) && s.effective_spec() != 0 { with_field(x, 0, 15, 4) } else { x };
    lemma_queued_bit_kept(y, s.write_pos_spec(), 3, 12);
}

/// A level-triggered node whose readiness meets its interest stays on the
/// queue after a poll, and is reported again by the next one.
pub proof fn law_level_stays_queued(n: ReadinessNode)
    requires
        !bits_contain(n.state.opt_spec(), EDGE),
        !n.state.dropped_spec(),
        n.state.queued_spec(),
        n.state.effective_spec() != 0,
    ensures
        requeues(n),
        reports(n),
{
    lemma_write_pos_small(n.state);
    lemma_queued_bit_kept(n.state.0, n.state.write_pos_spec(), 3, 12);
}

/// A one-shot registration that reported is disarmed: no readiness queues it
/// again until its interest is updated.
pub proof fn law_oneshot_disarms(n: ReadinessNode, r: usize)
    requires
        bits_contain(n.state.opt_spec(), EDGE),
        bits_contain(n.state.opt_spec(), ONESHOT),
        reports(n),
        r <= 15,
    ensures
        polled_node(n).state.interest_spec() == 0,
        !readiness_set_spec(polled_node(n).state, r).queued_spec(),
{
    let s = n.state;
    let s0 = s.0;
    let x = s0 & !QUEUED_MASK;
    let y = with_field(x, 0, 15, 4);
    lemma_write_pos_small(s);
    let wp = s.write_pos_spec();
    let z = with_field(y, wp, 3, 12);
    assert(z == poll_step(s).0);
    assert(
        (x == s0 & !0x1_0000usize && y == (x & !(15usize << 4usize)) | (0usize << 4usize) && wp <= 3usize
            && z == (y & !(3usize << 12usize)) | (wp << 12usize)) ==> {
            &&& (z >> 4usize) & 15usize == 0usize
            &&& ((((z & !(15usize << 0usize)) | (r << 0usize)) >> 4usize) & 15usize) == 0usize
            &&& (((z & !(15usize << 0usize)) | (r << 0usize)) & 0x1_0000usize) != 0x1_0000usize
        }
    ) by (bit_vector)
        requires
            r <= 15usize,
    ;
    let m = with_field(z, r, 15, 0);
    assert(field(m, 15, 4) == 0);
    assert(ReadinessState(m).interest_spec() == 0);
    assert(ReadinessState(m).effective_spec() == field(m, 15, 0) & 0);
    assert(field(m, 15, 0) & 0usize == 0usize) by (bit_vector);
}

/// A poll reports each node at most once.
pub proof fn law_poll_reports_once(p: Seq<usize>, nodes: Seq<ReadinessNode>)
    requires
        p.no_duplicates(),
    ensures
        forall|i: int, j: int| 0 <= i < j < reported(p, nodes).len() ==>
            #[trigger] reported(p, nodes)[i].node != #[trigger] reported(p, nodes)[j].node,
        forall|i: int| 0 <= i < reported(p, nodes).len() ==> p.contains(#[trigger] reported(p, nodes)[i].node),
    decreases p.len(),
{
    if p.len() > 0 {
        let q = p.drop_last();
        assert(q.no_duplicates());
        law_poll_reports_once(q, nodes);
        let r = reported(q, nodes);
        assert forall|i: int| 0 <= i < reported(p, nodes).len() implies p.contains(#[trigger] reported(p, nodes)[i].node) by {
            if i < r.len() {
                let k = choose|k: int| 0 <= k < q.len() && q[k] == r[i].node;
                assert(p[k] == r[i].node);
            } else {
                assert(p[p.len() - 1] == p.last());
            }
        }
        assert forall|i: int, j: int| 0 <= i < j < reported(p, nodes).len() implies
            #[trigger] reported(p, nodes)[i].node != #[trigger] reported(p, nodes)[j].node by {
            if j >= r.len() {
                let k = choose|k: int| 0 <= k < q.len() && q[k] == r[i].node;
                assert(p[k] == q[k]);
                assert(k != p.len() - 1);
            }
        }
    }
}

proof fn lemma_and_within(x: usize, y: usize)
    ensures
        y & (x & y) == x & y,
        x & (x & y) == x & y,
{
    assert(y & (x & y) == x & y && x & (x & y) == x & y) by (bit_vector);
}

/// Every event a poll reports carries the reporting node's readiness as far
/// as its interest goes: exactly the readiness intersected with the interest,
/// so never a kind the registration did not ask for, and never nothing; it
/// comes from a live node and names the token last written to it.
pub proof fn law_poll_reports_interest(p: Seq<usize>, nodes: Seq<ReadinessNode>)
    ensures
        forall|i: int| 0 <= i < reported(p, nodes).len() ==> {
            let e = #[trigger] reported(p, nodes)[i];
            let st = nodes[e.node as int].state;
            &&& p.contains(e.node)
            &&& e.ready@ == st.readiness_spec() & st.interest_spec()
            &&& bits_contain(st.interest_spec(), e.ready@)
            &&& bits_contain(st.readiness_spec(), e.ready@)
            &&& e.ready@ != 0
            &&& !st.dropped_spec()
            &&& e.token_entry == nodes[e.node as int].token_at(st.write_pos_spec())
        },
    decreases p.len(),
{
    if p.len() > 0 {
        let q = p.drop_last();
        law_poll_reports_interest(q, nodes);
        let r = reported(q, nodes);
        assert forall|i: int| 0 <= i < reported(p, nodes).len() implies {
            let e = #[trigger] reported(p, nodes)[i];
            let st = nodes[e.node as int].state;
            &&& p.contains(e.node)
            &&& e.ready@ == st.readiness_spec() & st.interest_spec()
            &&& bits_contain(st.interest_spec(), e.ready@)
            &&& bits_contain(st.readiness_spec(), e.ready@)
            &&& e.ready@ != 0
            &&& !st.dropped_spec()
            &&& e.token_entry == nodes[e.node as int].token_at(st.write_pos_spec())
        } by {
            let e = reported(p, nodes)[i];
            let st = nodes[e.node as int].state;
            if i < r.len() {
                assert(e == r[i]);
                let j = choose|j: int| 0 <= j < q.len() && q[j] == e.node;
                assert(p[j] == e.node);
            } else {
                assert(p[p.len() - 1] == p.last());
                assert(e.node == p.last());
            }
            lemma_and_within(st.readiness_spec(), st.interest_spec());
        }
    }
}

/// A poll reports at most one event per node it takes.
proof fn lemma_reported_len(p: Seq<usize>, nodes: Seq<ReadinessNode>)
    ensures
        reported(p, nodes).len() <= p.len(),
    decreases p.len(),
{
    if p.len() > 0 {
        lemma_reported_len(p.drop_last(), nodes);
    }
}

/// A poll with room for every queued node takes them all, and reports every
/// one of them that has readiness to report, in queue order: when `k` of the
/// `data` nodes were taken, `before` events were in the buffer and `after`
/// are, and a poll stops early only on a full buffer.
pub proof fn law_poll_with_room_drains(
    data: Seq<usize>,
    nodes: Seq<ReadinessNode>,
    before: int,
    after: int,
    capacity: int,
    k: int,
)
    requires
        0 <= k <= data.len(),
        after == before + reported(data.take(k), nodes).len(),
        k < data.len() ==> after >= capacity,
        capacity >= before + data.len(),
    ensures
        k == data.len(),
        reported(data.take(k), nodes) == reported(data, nodes),
{
    lemma_reported_len(data.take(k), nodes);
    assert(data.take(data.len() as int) =~= data);
}

/// Giving a registration a new token, interest or options keeps the
/// readiness it had.
pub proof fn law_update_keeps_readiness(
    pre: ReadinessQueue,
    post: ReadinessQueue,
    id: usize,
    token: TokenEntry,
    interest: usize,
    opt: usize,
    wakeup: bool,
)
    requires
        update_result(pre, post, id, token, interest, opt, wakeup),
        id < pre.nodes_spec().len(),
        interest < 0x100,
        opt < 0x10,
    ensures
        post.nodes_spec()[id as int].state.readiness_spec() == pre.nodes_spec()[id as int].state.readiness_spec(),
{
    let s = pre.nodes_spec()[id as int].state.0;
    let wp = post.nodes_spec()[id as int].state.write_pos_spec();
    assert(wp < 3usize ==> {
        let x = (s & !(3usize << 14usize)) | (wp << 14usize);
        let y = (x & !(15usize << 4usize)) | (interest << 4usize);
        let z = (y & !(15usize << 8usize)) | (opt << 8usize);
        &&& (z >> 0usize) & 15usize == (s >> 0usize) & 15usize
        &&& ((z | 0x1_0000usize) >> 0usize) & 15usize == (s >> 0usize) & 15usize
    }) by (bit_vector)
        requires
            interest < 0x100usize,
            opt < 0x10usize,
    ;
}

/// The queue hands nodes out in the order they were put on it: two nodes
/// queued on an empty queue come off first and second, and then it is
/// empty.
pub proof fn law_queue_is_fifo(d0: Seq<usize>, d1: Seq<usize>, d2: Seq<usize>, first: usize, second: usize)
    requires
        d0.len() == 0,
        d1 == d0.push(first),
        d2 == d1.push(second),
    ensures
        d2.len() > 0 && d2[0] == first,
        d2.drop_first().len() > 0 && d2.drop_first()[0] == second,
        d2.drop_first().drop_first().len() == 0,
{
}

/// Whether `post` is what giving some registration of `pre` a token, an
/// interest and options that fit their fields makes of it.
pub open spec fn some_update(pre: ReadinessQueue, post: ReadinessQueue) -> bool {
    exists|i: usize, token: TokenEntry, interest: usize, opt: usize, wakeup: bool|
        #[trigger] update_result(pre, post, i, token, interest, opt, wakeup)
            && i < pre.nodes_spec().len() && interest < 0x100 && opt < 0x10
}

/// What a registration's readiness handle reads back is the readiness last
/// set through it, however many updates of any registration came after:
/// `qs[0]` to `qs[1]` sets readiness `r` on node `id`, and each later step
/// updates one registration.
pub proof fn law_readiness_survives_updates(qs: Seq<ReadinessQueue>, id: usize, r: usize, wakeup: bool)
    requires
        qs.len() >= 2,
        set_readiness_result(qs[0], qs[1], id, r, wakeup),
        id < qs[0].nodes_spec().len(),
        !qs[0].nodes_spec()[id as int].state.dropped_spec(),
        r <= 15,
        forall|k: int| 1 <= k < qs.len() - 1 ==> #[trigger] some_update(qs[k], qs[k + 1]),
    ensures
        id < qs.last().nodes_spec().len(),
        qs.last().nodes_spec()[id as int].state.readiness_spec() == r,
    decreases qs.len(),
{
    if qs.len() == 2 {
        law_readiness_read_after_write(qs[0], qs[1], id, r, wakeup);
    } else {
        let prefix = qs.drop_last();
        assert forall|k: int| 1 <= k < prefix.len() - 1 implies #[trigger] some_update(prefix[k], prefix[k + 1]) by {
            assert(some_update(qs[k], qs[k + 1]));
        }
        law_readiness_survives_updates(prefix, id, r, wakeup);
        let m: int = qs.len() - 2;
        assert(some_update(qs[m], qs[m + 1]));
        let (i, token, interest, opt, w) = choose|i: usize, token: TokenEntry, interest: usize, opt: usize, w: bool|
            #[trigger] update_result(qs[m], qs[m + 1], i, token, interest, opt, w)
                && i < qs[m].nodes_spec().len() && interest < 0x100 && opt < 0x10;
        assert(prefix.last() == qs[m]);
        assert(qs.last() == qs[m + 1]);
        if i == id {
            law_update_keeps_readiness(qs[m], qs[m + 1], i, token, interest, opt, w);
        }
    }
}

} // verus!

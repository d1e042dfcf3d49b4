use my_mio::event_imp::{Ready, PollOpt, TokenEntry, TokenType};
use my_mio::token::Token;
use my_mio::poll::state::ReadinessState;
use my_mio::poll::queue::{ReadinessQueue, Marker, Dequeue, ReadyEntry};
use my_mio::poll::registration::{Registration, new_registration, check_same_poll};

fn te(n: usize) -> TokenEntry {
    TokenEntry { ttype: TokenType::SocketEvent, token: Token(n) }
}

#[test]
fn state_fields_are_packed_apart() {
    let s = ReadinessState::new(Ready::readable() | Ready::writable(), PollOpt::edge());
    assert_eq!(s.0, (3 << 4) | (1 << 8));
    assert_eq!(s.interest(), Ready::from_usize(3));
    assert_eq!(s.poll_opt(), PollOpt::edge());
    assert_eq!(s.readiness(), Ready::empty());
    assert!(!s.is_queued());
    assert!(!s.is_dropped());
    let mut t = s;
    t.set_readiness(Ready::readable());
    assert_eq!(t.readiness(), Ready::readable());
    assert_eq!(t.interest(), Ready::from_usize(3));
    assert_eq!(t.effective_readiness(), Ready::readable());
    t.set_queued();
    assert!(t.is_queued());
    t.set_dequeued();
    assert!(!t.is_queued());
    t.disarm();
    assert_eq!(t.interest(), Ready::empty());
    assert_eq!(t.readiness(), Ready::readable());
}

#[test]
fn state_get_set_roundtrip() {
    let mut s = ReadinessState(0);
    s.set(5, 15, 8);
    assert_eq!(s.get(15, 8), 5);
    assert_eq!(s.get(15, 4), 0);
    assert_eq!(usize::from(s), 5 << 8);
    assert_eq!(ReadinessState::from(7usize).0, 7);
}

#[test]
fn next_token_pos_avoids_read_and_write() {
    for rd in 0..3usize {
        for wr in 0..3usize {
            let mut s = ReadinessState(0);
            s.set(rd, 3, 12);
            s.set_token_write_pos(wr);
            let n = s.next_token_pos();
            assert!(n < 3);
            assert_ne!(n, rd);
            assert_ne!(n, wr);
            let expected = if rd == wr { (wr + 1) % 3 } else { 3 - rd - wr };
            assert_eq!(n, expected);
        }
    }
    let mut s = ReadinessState(0);
    s.set_token_write_pos(2);
    s.update_token_read_pos();
    assert_eq!(s.token_read_pos(), 2);
    assert_eq!(s.token_write_pos(), 2);
}

#[test]
fn edge_registration_reports_once() {
    let mut q = ReadinessQueue::new();
    let (_r, s) = Registration::new(&mut q, te(1), Ready::readable(), PollOpt::edge());
    let wake = s.set_readiness(&mut q, Ready::readable());
    assert!(!wake);
    let mut dst: Vec<ReadyEntry> = Vec::new();
    q.poll(&mut dst, 16);
    assert_eq!(dst.len(), 1);
    assert_eq!(dst[0].token_entry, te(1));
    assert_eq!(dst[0].ready, Ready::readable());
    let mut dst2: Vec<ReadyEntry> = Vec::new();
    q.poll(&mut dst2, 16);
    assert_eq!(dst2.len(), 0);
}

#[test]
fn level_registration_reports_until_cleared() {
    let mut q = ReadinessQueue::new();
    let (_r, s) = Registration::new(&mut q, te(2), Ready::readable(), PollOpt::level());
    s.set_readiness(&mut q, Ready::readable());
    for _ in 0..3 {
        let mut dst: Vec<ReadyEntry> = Vec::new();
        q.poll(&mut dst, 16);
        assert_eq!(dst.len(), 1);
        assert_eq!(dst[0].token_entry, te(2));
    }
    s.set_readiness(&mut q, Ready::empty());
    let mut dst: Vec<ReadyEntry> = Vec::new();
    q.poll(&mut dst, 16);
    assert_eq!(dst.len(), 0);
}

#[test]
fn oneshot_disarms_until_update() {
    let mut q = ReadinessQueue::new();
    let (r, s) = Registration::new(&mut q, te(3), Ready::readable(), PollOpt::edge() | PollOpt::oneshot());
    s.set_readiness(&mut q, Ready::readable());
    let mut dst: Vec<ReadyEntry> = Vec::new();
    q.poll(&mut dst, 16);
    assert_eq!(dst.len(), 1);
    assert_eq!(q.node(0).state.interest(), Ready::empty());
    s.set_readiness(&mut q, Ready::readable());
    let mut dst: Vec<ReadyEntry> = Vec::new();
    q.poll(&mut dst, 16);
    assert_eq!(dst.len(), 0);
    r.update(&mut q, te(3), Ready::readable(), PollOpt::edge() | PollOpt::oneshot());
    let mut dst: Vec<ReadyEntry> = Vec::new();
    q.poll(&mut dst, 16);
    assert_eq!(dst.len(), 1);
}

#[test]
fn readiness_outside_interest_is_not_reported() {
    let mut q = ReadinessQueue::new();
    let (_r, s) = Registration::new(&mut q, te(4), Ready::writable(), PollOpt::edge());
    s.set_readiness(&mut q, Ready::readable());
    assert_eq!(s.readiness(&q), Ready::readable());
    let mut dst: Vec<ReadyEntry> = Vec::new();
    q.poll(&mut dst, 16);
    assert!(dst.is_empty());
}

#[test]
fn sleeping_poller_is_woken_by_first_readiness() {
    let mut q = ReadinessQueue::new();
    let (_r, s) = new_registration(&mut q, te(5), Ready::readable(), PollOpt::edge());
    assert!(q.prepare_for_sleep());
    assert!(s.set_readiness(&mut q, Ready::readable()));
    let (_r2, s2) = Registration::new(&mut q, te(6), Ready::readable(), PollOpt::edge());
    assert!(!s2.set_readiness(&mut q, Ready::readable()));
    assert!(!q.prepare_for_sleep());
    let mut dst: Vec<ReadyEntry> = Vec::new();
    q.poll(&mut dst, 16);
    assert_eq!(dst.len(), 2);
    assert_eq!(dst[0].token_entry, te(5));
    assert_eq!(dst[1].token_entry, te(6));
    assert!(q.prepare_for_sleep());
}

#[test]
fn poll_stops_at_capacity() {
    let mut q = ReadinessQueue::new();
    let mut handles = Vec::new();
    for i in 0..4 {
        let (r, s) = Registration::new(&mut q, te(10 + i), Ready::readable(), PollOpt::edge());
        s.set_readiness(&mut q, Ready::readable());
        handles.push(r);
    }
    let mut dst: Vec<ReadyEntry> = Vec::new();
    q.poll(&mut dst, 3);
    assert_eq!(dst.len(), 3);
    let mut dst2: Vec<ReadyEntry> = Vec::new();
    q.poll(&mut dst2, 3);
    assert_eq!(dst2.len(), 1);
    assert_eq!(dst2[0].token_entry, te(13));
}

#[test]
fn dropped_registration_is_discarded() {
    let mut q = ReadinessQueue::new();
    let (r, s) = Registration::new(&mut q, te(7), Ready::readable(), PollOpt::level());
    s.set_readiness(&mut q, Ready::readable());
    r.drop_from(&mut q);
    assert!(q.node(0).state.is_dropped());
    let mut dst: Vec<ReadyEntry> = Vec::new();
    q.poll(&mut dst, 16);
    assert!(dst.is_empty());
    assert!(!s.set_readiness(&mut q, Ready::readable()));
}

#[test]
fn update_rotates_token_slots() {
    let mut q = ReadinessQueue::new();
    let (r, s) = Registration::new(&mut q, te(20), Ready::readable(), PollOpt::edge());
    r.update(&mut q, te(21), Ready::readable(), PollOpt::edge());
    let n = q.node(0);
    assert_eq!(n.token_0, te(20));
    assert_eq!(n.state.token_write_pos(), 1);
    assert_eq!(n.token_1, te(21));
    s.set_readiness(&mut q, Ready::readable());
    let mut dst: Vec<ReadyEntry> = Vec::new();
    q.poll(&mut dst, 16);
    assert_eq!(dst[0].token_entry, te(21));
    r.update(&mut q, te(21), Ready::readable(), PollOpt::edge());
    assert_eq!(q.node(0).state.token_write_pos(), 1);
}

#[test]
fn unattached_registration_is_not_queued() {
    let mut q = ReadinessQueue::new();
    let (r, s) = Registration::new2(&mut q);
    assert!(!q.node(0).attached);
    s.set_readiness(&mut q, Ready::readable());
    let mut dst: Vec<ReadyEntry> = Vec::new();
    q.poll(&mut dst, 16);
    assert!(dst.is_empty());
    r.update(&mut q, te(30), Ready::writable(), PollOpt::edge());
    assert!(q.node(0).attached);
    r.deregister(&mut q);
    assert_eq!(q.node(0).state.interest(), Ready::empty());
}

#[test]
fn dequeue_and_markers() {
    let mut q = ReadinessQueue::new();
    assert_eq!(q.dequeue_node(None), Dequeue::Empty);
    let (_r, s) = Registration::new(&mut q, te(40), Ready::readable(), PollOpt::edge());
    s.set_readiness(&mut q, Ready::readable());
    assert_eq!(q.dequeue_node(Some(0)), Dequeue::Empty);
    assert_eq!(q.dequeue_node(None), Dequeue::Data(0));
    assert_eq!(q.dequeue_node(None), Dequeue::Empty);
    q.clear_sleep_marker();
    assert_ne!(Marker::End, Marker::Sleep);
}

#[test]
fn closed_queue_takes_nothing() {
    let mut q = ReadinessQueue::new();
    let (_r, s) = Registration::new(&mut q, te(50), Ready::readable(), PollOpt::edge());
    q.close();
    assert!(!s.set_readiness(&mut q, Ready::readable()));
    let mut dst: Vec<ReadyEntry> = Vec::new();
    q.poll(&mut dst, 16);
    assert!(dst.is_empty());
}

#[test]
fn poll_with_room_reports_every_ready_node_in_order() {
    let mut q = ReadinessQueue::new();
    let (_a, sa) = new_registration(&mut q, te(10), Ready::readable(), PollOpt::edge());
    let (_b, sb) = new_registration(&mut q, te(11), Ready::readable(), PollOpt::edge());
    let (_c, sc) = new_registration(&mut q, te(12), Ready::writable(), PollOpt::edge());
    sb.set_readiness(&mut q, Ready::readable());
    sc.set_readiness(&mut q, Ready::writable());
    sa.set_readiness(&mut q, Ready::readable());
    let mut dst: Vec<ReadyEntry> = Vec::new();
    q.poll(&mut dst, 8);
    let tokens: Vec<usize> = dst.iter().map(|e| e.token_entry.token.0).collect();
    assert_eq!(tokens, vec![11, 12, 10]);
    assert_eq!(dst[1].ready, Ready::writable());
}

#[test]
fn update_writes_a_new_token_to_the_free_slot() {
    let mut q = ReadinessQueue::new();
    let (r, _s) = Registration::new(&mut q, te(50), Ready::readable(), PollOpt::edge());
    r.update(&mut q, te(51), Ready::readable(), PollOpt::edge());
    r.update(&mut q, te(52), Ready::readable(), PollOpt::edge());
    let n = q.node(0);
    assert_eq!(n.state.token_read_pos(), 0);
    assert_eq!(n.state.token_write_pos(), 2);
    assert_eq!(n.token_0, te(50));
    assert_eq!(n.token_1, te(51));
    assert_eq!(n.token_2, te(52));
}

#[test]
fn registration_is_changed_only_through_its_own_poller() {
    assert!(check_same_poll(7, 7).is_ok());
    let e = check_same_poll(7, 8).err().unwrap();
    assert_eq!(e.kind(), std::io::ErrorKind::Other);
}

#[test]
fn readiness_set_survives_later_updates() {
    let mut q = ReadinessQueue::new();
    let (r, s) = Registration::new(&mut q, te(60), Ready::readable(), PollOpt::edge());
    let (other, _t) = Registration::new(&mut q, te(61), Ready::writable(), PollOpt::level());
    s.set_readiness(&mut q, Ready::writable());
    r.update(&mut q, te(62), Ready::readable(), PollOpt::level());
    other.update(&mut q, te(63), Ready::readable(), PollOpt::edge());
    r.deregister(&mut q);
    assert_eq!(s.readiness(&q), Ready::writable());
}

use vstd::prelude::*;
use std::collections::HashMap;
use crate::token::Token;
use crate::event_imp::{TokenEntry, TokenType};
use crate::io::{io_error_other, is_other};

verus! {

broadcast use vstd::std_specs::hash::group_hash_axioms;

/// The token value that the poller keeps for its own wakeups.
pub const AWAKEN: usize = usize::MAX;

/// Hands out ids: first those given back, most recent first, then fresh ones
/// from a counter.
pub struct IdAllocator {
    counter: usize,
    free: Vec<usize>,
}

impl IdAllocator {
    pub closed spec fn counter_spec(&self) -> usize {
        self.counter
    }

    pub closed spec fn free_spec(&self) -> Seq<usize> {
        self.free@
    }

    /// None of the `live` ids is handed out again: the ids given back are
    /// distinct and none of them is live, and every id given back or live is
    /// below the counter.
    pub open spec fn fresh_for(&self, live: Set<usize>) -> bool {
        &&& self.free_spec().no_duplicates()
        &&& forall|i: int| 0 <= i < self.free_spec().len() ==> !live.contains(#[trigger] self.free_spec()[i])
            && self.free_spec()[i] < self.counter_spec()
        &&& forall|k: usize| #[trigger] live.contains(k) ==> k < self.counter_spec()
    }

    /// The id the next allocation hands out.
    pub open spec fn next_id(&self) -> usize {
        if self.free_spec().len() > 0 {
            self.free_spec().last()
        } else {
            self.counter_spec()
        }
    }

    pub fn new() -> (r: IdAllocator)
        ensures
            r.counter_spec() == 0,
            r.free_spec() == Seq::<usize>::empty(),
    {
        IdAllocator { counter: 0, free: Vec::new() }
    }

    /// The id given back last, if any; else the next fresh one.
    pub fn allocate(&mut self) -> (r: usize)
        ensures
            allocate_result(*old(self), *final(self), r),
    {
        match self.free.pop() {
            Some(v) => v,
            None => {
                let v = self.counter;
                self.counter = self.counter.wrapping_add(1);
                v
            },
        }
    }

    /// Gives an id back for reuse.
    pub fn kill(&mut self, id: usize)
        ensures
            kill_result(*old(self), *final(self), id),
    {
        self.free.push(id);
    }
}

/// What handing out `id` makes of the allocator `pre`: the id given back
/// last, if any, else the counter, which then moves on (wrapping at the top).
pub open spec fn allocate_result(pre: IdAllocator, post: IdAllocator, id: usize) -> bool {
    &&& pre.free_spec().len() > 0 ==> {
        &&& id == pre.free_spec().last()
        &&& post.free_spec() == pre.free_spec().drop_last()
        &&& post.counter_spec() == pre.counter_spec()
    }
    &&& pre.free_spec().len() == 0 ==> {
        &&& id == pre.counter_spec()
        &&& post.free_spec() == pre.free_spec()
        &&& post.counter_spec() == if pre.counter_spec() == usize::MAX {
            0
        } else {
            (pre.counter_spec() + 1) as usize
        }
    }
}

/// What giving `id` back makes of the allocator `pre`.
pub open spec fn kill_result(pre: IdAllocator, post: IdAllocator, id: usize) -> bool {
    &&& post.free_spec() == pre.free_spec().push(id)
    &&& post.counter_spec() == pre.counter_spec()
}

/// A new allocator has no live id to collide with.
pub proof fn law_new_allocator_fresh(a: IdAllocator)
    requires
        a.counter_spec() == 0,
        a.free_spec() == Seq::<usize>::empty(),
    ensures
        a.fresh_for(Set::empty()),
{
}

/// Handing out an id keeps the allocator fresh for the live ids and the new
/// one, as long as the counter has not reached its top.
pub proof fn law_allocate_keeps_fresh(a0: IdAllocator, a1: IdAllocator, live: Set<usize>, id: usize)
    requires
        a0.fresh_for(live),
        allocate_result(a0, a1, id),
        a0.free_spec().len() == 0 ==> a0.counter_spec() < usize::MAX,
    ensures
        !live.contains(id),
        a1.fresh_for(live.insert(id)),
{
    law_allocated_id_not_live(a0, live);
    let f0 = a0.free_spec();
    if f0.len() > 0 {
        assert(f0[f0.len() - 1] == f0.last());
        assert forall|i: int| 0 <= i < a1.free_spec().len() implies !live.insert(id).contains(#[trigger] a1.free_spec()[i])
            && a1.free_spec()[i] < a1.counter_spec() by {
            assert(a1.free_spec()[i] == f0[i]);
            assert(f0[i] != f0[f0.len() - 1]);
        }
        assert(f0.last() < a0.counter_spec());
    }
}

/// Giving a live id back keeps the allocator fresh for the ids still live.
pub proof fn law_kill_keeps_fresh(a0: IdAllocator, a1: IdAllocator, live: Set<usize>, id: usize)
    requires
        a0.fresh_for(live),
        live.contains(id),
        kill_result(a0, a1, id),
    ensures
        a1.fresh_for(live.remove(id)),
{
    let f0 = a0.free_spec();
    let f1 = a1.free_spec();
    assert forall|i: int, j: int| 0 <= i < f1.len() && 0 <= j < f1.len() && i != j implies f1[i] != f1[j] by {
        if i < f0.len() && j < f0.len() {
            assert(f1[i] == f0[i] && f1[j] == f0[j]);
        } else if i < f0.len() {
            assert(f1[i] == f0[i]);
            assert(!live.contains(f0[i]));
        } else {
            assert(f1[j] == f0[j]);
            assert(!live.contains(f0[j]));
        }
    }
    assert forall|i: int| 0 <= i < f1.len() implies !live.remove(id).contains(#[trigger] f1[i])
        && f1[i] < a1.counter_spec() by {
        if i < f0.len() {
            assert(f1[i] == f0[i]);
        }
    }
}

/// Maps the ids it hands out to the token entries they stand for.
pub struct TokenAllocator {
    id: IdAllocator,
    token_map: HashMap<usize, TokenEntry>,
}

impl View for TokenAllocator {
    type V = Map<usize, TokenEntry>;

    closed spec fn view(&self) -> Map<usize, TokenEntry> {
        self.token_map@
    }
}

impl TokenAllocator {
    pub closed spec fn ids(&self) -> IdAllocator {
        self.id
    }

    /// No id under which an entry is recorded can be handed out again.
    pub open spec fn wf(&self) -> bool {
        self.ids().fresh_for(self@.dom())
    }

    pub fn new() -> (r: TokenAllocator)
        ensures
            r.wf(),
            r@ == Map::<usize, TokenEntry>::empty(),
            r.ids().counter_spec() == 0,
            r.ids().free_spec() == Seq::<usize>::empty(),
    {
        TokenAllocator { id: IdAllocator::new(), token_map: HashMap::new() }
    }

    /// Allocates an id and records under it the entry `(ttype, token)`.
    pub fn allocate(&mut self, ttype: TokenType, token: Token) -> (r: usize)
        ensures
            final(self)@ == old(self)@.insert(r, TokenEntry { ttype, token }),
            r == old(self).ids().next_id(),
            old(self).ids().free_spec().len() > 0 ==> {
                &&& final(self).ids().free_spec() == old(self).ids().free_spec().drop_last()
                &&& final(self).ids().counter_spec() == old(self).ids().counter_spec()
            },
            old(self).ids().free_spec().len() == 0 ==> {
                &&& final(self).ids().free_spec() == old(self).ids().free_spec()
                &&& final(self).ids().counter_spec() == if old(self).ids().counter_spec() == usize::MAX {
                    0
                } else {
                    (old(self).ids().counter_spec() + 1) as usize
                }
            },
            old(self).wf() ==> !old(self)@.contains_key(r),
            old(self).wf() && (old(self).ids().free_spec().len() > 0 || old(self).ids().counter_spec() < usize::MAX)
                ==> final(self).wf(),
    {
        proof {
            if self.wf() {
                law_allocated_id_not_live(self.id, self.token_map@.dom());
            }
        }
        let id = self.id.allocate();
        let entry = TokenEntry { ttype, token };
        self.token_map.insert(id, entry);
        proof {
            let f0 = old(self).ids().free_spec();
            let f1 = self.id.free_spec();
            if old(self).wf() && (f0.len() > 0 || old(self).ids().counter_spec() < usize::MAX) {
                if f0.len() > 0 {
                    assert forall|i: int| 0 <= i < f1.len() implies !self@.dom().contains(#[trigger] f1[i])
                        && f1[i] < self.id.counter_spec() by {
                        assert(f1[i] == f0[i]);
                        assert(f0[i] != f0[f0.len() - 1]);
                    }
                    assert forall|k: usize| #[trigger] self@.dom().contains(k) implies k < self.id.counter_spec() by {
                        if k != id {
                            assert(old(self)@.dom().contains(k));
                        } else {
                            assert(f0[f0.len() - 1] == id);
                        }
                    }
                } else {
                    assert forall|k: usize| #[trigger] self@.dom().contains(k) implies k < self.id.counter_spec() by {
                        if k != id {
                            assert(old(self)@.dom().contains(k));
                        }
                    }
                }
                assert(self.wf());
            }
        }
        id
    }

    /// The entry recorded under `id`.
    pub fn get(&self, id: usize) -> (r: TokenEntry)
        requires
            self@.contains_key(id),
        ensures
            r == self@[id],
    {
        *self.token_map.get(&id).unwrap()
    }

    /// The entry recorded under `id`, if any.
    pub fn get_entry(&self, id: usize) -> (r: Option<TokenEntry>)
        ensures
            r == if self@.contains_key(id) {
                Some(self@[id])
            } else {
                None
            },
    {
        match self.token_map.get(&id) {
            Some(e) => Some(*e),
            None => None,
        }
    }

    /// Forgets the entry under `id` and gives the id back for reuse.
    pub fn dealloc(&mut self, id: usize)
        ensures
            final(self)@ == old(self)@.remove(id),
            final(self).ids().free_spec() == old(self).ids().free_spec().push(id),
            final(self).ids().counter_spec() == old(self).ids().counter_spec(),
            old(self).wf() && old(self)@.contains_key(id) ==> final(self).wf(),
    {
        self.token_map.remove(&id);
        self.id.kill(id);
        proof {
            let f0 = old(self).ids().free_spec();
            let f1 = self.id.free_spec();
            if old(self).wf() && old(self)@.contains_key(id) {
                assert forall|a: int, b: int| 0 <= a < f1.len() && 0 <= b < f1.len() && a != b implies f1[a] != f1[b] by {
                    if a < f0.len() && b < f0.len() {
                        assert(f1[a] == f0[a] && f1[b] == f0[b]);
                    } else if a < f0.len() {
                        assert(f1[a] == f0[a]);
                        assert(!old(self)@.dom().contains(f0[a]));
                    } else {
                        assert(f1[b] == f0[b]);
                        assert(!old(self)@.dom().contains(f0[b]));
                    }
                }
                assert forall|i: int| 0 <= i < f1.len() implies !self@.dom().contains(#[trigger] f1[i])
                    && f1[i] < self.id.counter_spec() by {
                    if i < f0.len() {
                        assert(f1[i] == f0[i]);
                    } else {
                        assert(old(self)@.dom().contains(id));
                    }
                }
                assert forall|k: usize| #[trigger] self@.dom().contains(k) implies k < self.id.counter_spec() by {
                    assert(old(self)@.dom().contains(k));
                }
                assert(self.wf());
            }
        }
    }
}

/// A read after an allocation gives back the entry allocated, and a
/// deallocation forgets it.
pub proof fn law_token_alloc_roundtrip(
    m0: Map<usize, TokenEntry>,
    m1: Map<usize, TokenEntry>,
    m2: Map<usize, TokenEntry>,
    id: usize,
    e: TokenEntry,
)
    requires
        m1 == m0.insert(id, e),
        m2 == m1.remove(id),
    ensures
        m1.contains_key(id),
        m1[id] == e,
        !m2.contains_key(id),
        forall|k: usize| k != id ==> (m2.contains_key(k) == m0.contains_key(k)),
{
}

/// An allocator that is fresh for the live ids never hands out a live one.
pub proof fn law_allocated_id_not_live(a: IdAllocator, live: Set<usize>)
    requires
        a.fresh_for(live),
    ensures
        !live.contains(a.next_id()),
{
    if a.free_spec().len() > 0 {
        assert(a.free_spec()[a.free_spec().len() - 1] == a.free_spec().last());
    }
}

/// The id given back last is the next one handed out.
pub proof fn law_id_reuse(f0: Seq<usize>, f1: Seq<usize>, id: usize)
    requires
        f1 == f0.push(id),
    ensures
        f1.len() > 0,
        f1.last() == id,
        f1.drop_last() == f0,
{
    assert(f1.drop_last() =~= f0);
}

/// Refuses the poller's own wakeup token.
pub fn validate_args(token: Token) -> (r: Result<(), std::io::Error>)
    ensures
        r is Err <==> token.0 == AWAKEN,
        r matches Err(e) ==> is_other(e),
{
    if token.0 == AWAKEN {
        return Err(io_error_other("invalid token"));
    }
    Ok(())
}

/// Which selector a handle was registered with; zero for none yet.
pub struct SelectorId {
    id: usize,
}

impl SelectorId {
    pub closed spec fn id_spec(&self) -> usize {
        self.id
    }

    pub fn new() -> (r: SelectorId)
        ensures
            r.id_spec() == 0,
    {
        SelectorId { id: 0 }
    }

    /// Ties the handle to the selector `selector_id`; refuses when it is
    /// tied to another one already.
    pub fn associate_selector(&mut self, selector_id: usize) -> (r: Result<(), std::io::Error>)
        ensures
            r is Err <==> (old(self).id_spec() != 0 && old(self).id_spec() != selector_id),
            r is Err ==> final(self).id_spec() == old(self).id_spec(),
            r matches Err(e) ==> is_other(e),
            r is Ok ==> final(self).id_spec() == selector_id,
    {
        let current = self.id;
        if current != 0 && current != selector_id {
            Err(io_error_other("Socket already registered"))
        } else {
            self.id = selector_id;
            Ok(())
        }
    }
}

impl Clone for SelectorId {
    fn clone(&self) -> (r: SelectorId)
        ensures
            r.id_spec() == self.id_spec(),
    {
        SelectorId { id: self.id }
    }
}

} // verus!

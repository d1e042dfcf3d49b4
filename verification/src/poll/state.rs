use vstd::prelude::*;
use crate::event_imp::{Ready, PollOpt, ready_as_usize, ready_from_usize, opt_as_usize, opt_from_usize};

verus! {

pub const READINESS_SHIFT: usize = 0;
pub const INTEREST_SHIFT: usize = 4;
pub const POLL_OPT_SHIFT: usize = 8;
pub const TOKEN_RD_SHIFT: usize = 12;
pub const TOKEN_WR_SHIFT: usize = 14;
pub const QUEUED_SHIFT: usize = 16;
pub const DROPPED_SHIFT: usize = 17;

pub const MASK_2: usize = 3;
pub const MASK_4: usize = 15;
pub const QUEUED_MASK: usize = 0x1_0000;
pub const DROPPED_MASK: usize = 0x2_0000;

/// The field of `s` of width `mask` that starts at bit `shift`.
pub open spec fn field(s: usize, mask: usize, shift: usize) -> usize {
    (s >> shift) & mask
}

/// `s` with the field at `shift` replaced by `val`.
pub open spec fn with_field(s: usize, val: usize, mask: usize, shift: usize) -> usize {
    (s & !(mask << shift)) | (val << shift)
}

/// The packed state of a readiness node:
/// readiness (bits 0-3), interest (4-7), poll options (8-11),
/// token read position (12-13), token write position (14-15),
/// queued (16) and dropped (17).
#[derive(Clone, Copy, Debug, PartialEq, Eq, Structural)]
pub struct ReadinessState(pub usize);

impl View for ReadinessState {
    type V = usize;

    open spec fn view(&self) -> usize {
        self.0
    }
}

impl ReadinessState {
    pub open spec fn readiness_spec(self) -> usize {
        field(self.0, MASK_4, READINESS_SHIFT)
    }

    pub open spec fn interest_spec(self) -> usize {
        field(self.0, MASK_4, INTEREST_SHIFT)
    }

    pub open spec fn opt_spec(self) -> usize {
        field(self.0, MASK_4, POLL_OPT_SHIFT)
    }

    pub open spec fn read_pos_spec(self) -> usize {
        field(self.0, MASK_2, TOKEN_RD_SHIFT)
    }

    pub open spec fn write_pos_spec(self) -> usize {
        field(self.0, MASK_2, TOKEN_WR_SHIFT)
    }

    pub open spec fn queued_spec(self) -> bool {
        self.0 & QUEUED_MASK == QUEUED_MASK
    }

    pub open spec fn dropped_spec(self) -> bool {
        self.0 & DROPPED_MASK == DROPPED_MASK
    }

    /// The readiness that the registration asked to hear about.
    pub open spec fn effective_spec(self) -> usize {
        self.readiness_spec() & self.interest_spec()
    }

    pub open spec fn new_spec(interest: usize, opt: usize) -> ReadinessState {
        ReadinessState((interest << INTEREST_SHIFT) | (opt << POLL_OPT_SHIFT))
    }

    pub fn new(interest: Ready, opt: PollOpt) -> (r: ReadinessState)
        requires
            interest@ <= MASK_4,
            opt@ <= MASK_4,
        ensures
            r == ReadinessState::new_spec(interest@, opt@),
            r.readiness_spec() == 0,
            r.interest_spec() == interest@,
            r.opt_spec() == opt@,
            r.read_pos_spec() == 0,
            r.write_pos_spec() == 0,
            !r.queued_spec(),
            !r.dropped_spec(),
    {
        let interest = ready_as_usize(interest);
        let opt = opt_as_usize(opt);
        let mut val = interest << INTEREST_SHIFT;
        val = val | (opt << POLL_OPT_SHIFT);
        proof {
            lemma_new_fields(interest, opt);
        }
        ReadinessState(val)
    }

    pub fn get(self, mask: usize, shift: usize) -> (r: usize)
        requires
            shift < 32,
        ensures
            r == field(self.0, mask, shift),
    {
        (self.0 >> shift) & mask
    }

    pub fn set(&mut self, val: usize, mask: usize, shift: usize)
        requires
            shift < 32,
        ensures
            final(self).0 == with_field(old(self).0, val, mask, shift),
    {
        self.0 = (self.0 & !(mask << shift)) | (val << shift)
    }

    pub fn readiness(self) -> (r: Ready)
        ensures
            r@ == self.readiness_spec(),
    {
        let v = self.get(MASK_4, READINESS_SHIFT);
        ready_from_usize(v)
    }

    pub fn interest(self) -> (r: Ready)
        ensures
            r@ == self.interest_spec(),
    {
        let v = self.get(MASK_4, INTEREST_SHIFT);
        ready_from_usize(v)
    }

    pub fn poll_opt(self) -> (r: PollOpt)
        ensures
            r@ == self.opt_spec(),
    {
        let v = self.get(MASK_4, POLL_OPT_SHIFT);
        opt_from_usize(v)
    }

    pub fn effective_readiness(self) -> (r: Ready)
        ensures
            r@ == self.effective_spec(),
    {
        self.readiness() & self.interest()
    }

    pub fn set_readiness(&mut self, v: Ready)
        ensures
            final(self).0 == with_field(old(self).0, v@, MASK_4, READINESS_SHIFT),
            v@ <= MASK_4 ==> final(self).readiness_spec() == v@,
            v@ <= MASK_4 ==> final(self).interest_spec() == old(self).interest_spec(),
            v@ <= MASK_4 ==> final(self).opt_spec() == old(self).opt_spec(),
            v@ <= MASK_4 ==> final(self).read_pos_spec() == old(self).read_pos_spec(),
            v@ <= MASK_4 ==> final(self).write_pos_spec() == old(self).write_pos_spec(),
            v@ <= MASK_4 ==> final(self).queued_spec() == old(self).queued_spec(),
            v@ <= MASK_4 ==> final(self).dropped_spec() == old(self).dropped_spec(),
    {
        self.set(ready_as_usize(v), MASK_4, READINESS_SHIFT);
        proof {
            lemma_set_readiness(old(self).0, v@);
        }
    }

    pub fn set_interest(&mut self, v: Ready)
        ensures
            final(self).0 == with_field(old(self).0, v@, MASK_4, INTEREST_SHIFT),
            v@ <= MASK_4 ==> final(self).readiness_spec() == old(self).readiness_spec(),
            v@ <= MASK_4 ==> final(self).interest_spec() == v@,
            v@ <= MASK_4 ==> final(self).opt_spec() == old(self).opt_spec(),
            v@ <= MASK_4 ==> final(self).read_pos_spec() == old(self).read_pos_spec(),
            v@ <= MASK_4 ==> final(self).write_pos_spec() == old(self).write_pos_spec(),
            v@ <= MASK_4 ==> final(self).queued_spec() == old(self).queued_spec(),
            v@ <= MASK_4 ==> final(self).dropped_spec() == old(self).dropped_spec(),
    {
        self.set(ready_as_usize(v), MASK_4, INTEREST_SHIFT);
        proof {
            lemma_set_interest(old(self).0, v@);
        }
    }

    pub fn set_poll_opt(&mut self, v: PollOpt)
        ensures
            final(self).0 == with_field(old(self).0, v@, MASK_4, POLL_OPT_SHIFT),
            v@ <= MASK_4 ==> final(self).readiness_spec() == old(self).readiness_spec(),
            v@ <= MASK_4 ==> final(self).interest_spec() == old(self).interest_spec(),
            v@ <= MASK_4 ==> final(self).opt_spec() == v@,
            v@ <= MASK_4 ==> final(self).read_pos_spec() == old(self).read_pos_spec(),
            v@ <= MASK_4 ==> final(self).write_pos_spec() == old(self).write_pos_spec(),
            v@ <= MASK_4 ==> final(self).queued_spec() == old(self).queued_spec(),
            v@ <= MASK_4 ==> final(self).dropped_spec() == old(self).dropped_spec(),
    {
        self.set(opt_as_usize(v), MASK_4, POLL_OPT_SHIFT);
        proof {
            lemma_set_opt(old(self).0, v@);
        }
    }

    /// Stops the node from reporting anything until its interest is set again.
    pub fn disarm(&mut self)
        ensures
            final(self).0 == with_field(old(self).0, 0, MASK_4, INTEREST_SHIFT),
            final(self).readiness_spec() == old(self).readiness_spec(),
            final(self).interest_spec() == 0,
            final(self).opt_spec() == old(self).opt_spec(),
            final(self).read_pos_spec() == old(self).read_pos_spec(),
            final(self).write_pos_spec() == old(self).write_pos_spec(),
            final(self).queued_spec() == old(self).queued_spec(),
            final(self).dropped_spec() == old(self).dropped_spec(),
    {
        self.set_interest(Ready::empty())
    }

    pub fn is_queued(self) -> (r: bool)
        ensures
            r == self.queued_spec(),
    {
        self.0 & QUEUED_MASK == QUEUED_MASK
    }

    pub fn is_dropped(self) -> (r: bool)
        ensures
            r == self.dropped_spec(),
    {
        self.0 & DROPPED_MASK == DROPPED_MASK
    }

    pub fn set_queued(&mut self)
        requires
            !old(self).dropped_spec(),
        ensures
            final(self).0 == old(self).0 | QUEUED_MASK,
            final(self).readiness_spec() == old(self).readiness_spec(),
            final(self).interest_spec() == old(self).interest_spec(),
            final(self).opt_spec() == old(self).opt_spec(),
            final(self).read_pos_spec() == old(self).read_pos_spec(),
            final(self).write_pos_spec() == old(self).write_pos_spec(),
            final(self).queued_spec(),
            !final(self).dropped_spec(),
    {
        self.0 = self.0 | QUEUED_MASK;
        proof {
            lemma_set_queued(old(self).0);
        }
    }

    pub fn set_dequeued(&mut self)
        requires
            old(self).queued_spec(),
        ensures
            final(self).0 == old(self).0 & !QUEUED_MASK,
            final(self).readiness_spec() == old(self).readiness_spec(),
            final(self).interest_spec() == old(self).interest_spec(),
            final(self).opt_spec() == old(self).opt_spec(),
            final(self).read_pos_spec() == old(self).read_pos_spec(),
            final(self).write_pos_spec() == old(self).write_pos_spec(),
            !final(self).queued_spec(),
            final(self).dropped_spec() == old(self).dropped_spec(),
    {
        self.0 = self.0 & !QUEUED_MASK;
        proof {
            lemma_set_dequeued(old(self).0);
        }
    }

    pub fn token_read_pos(self) -> (r: usize)
        ensures
            r == self.read_pos_spec(),
            r <= 3,
    {
        let r = self.get(MASK_2, TOKEN_RD_SHIFT);
        proof {
            let s = self.0;
            assert((s >> 12usize) & 3usize <= 3usize) by (bit_vector);
        }
        r
    }

    pub fn token_write_pos(self) -> (r: usize)
        ensures
            r == self.write_pos_spec(),
            r <= 3,
    {
        let r = self.get(MASK_2, TOKEN_WR_SHIFT);
        proof {
            let s = self.0;
            assert((s >> 14usize) & 3usize <= 3usize) by (bit_vector);
        }
        r
    }

    pub fn set_token_write_pos(&mut self, val: usize)
        ensures
            final(self).0 == with_field(old(self).0, val, MASK_2, TOKEN_WR_SHIFT),
            val <= MASK_2 ==> final(self).readiness_spec() == old(self).readiness_spec(),
            val <= MASK_2 ==> final(self).interest_spec() == old(self).interest_spec(),
            val <= MASK_2 ==> final(self).opt_spec() == old(self).opt_spec(),
            val <= MASK_2 ==> final(self).read_pos_spec() == old(self).read_pos_spec(),
            val <= MASK_2 ==> final(self).write_pos_spec() == val,
            val <= MASK_2 ==> final(self).queued_spec() == old(self).queued_spec(),
            val <= MASK_2 ==> final(self).dropped_spec() == old(self).dropped_spec(),
    {
        self.set(val, MASK_2, TOKEN_WR_SHIFT);
        proof {
            lemma_set_write_pos(old(self).0, val);
        }
    }

    /// Makes the position last written the one to read from.
    pub fn update_token_read_pos(&mut self)
        ensures
            final(self).0 == with_field(old(self).0, old(self).write_pos_spec(), MASK_2, TOKEN_RD_SHIFT),
            final(self).readiness_spec() == old(self).readiness_spec(),
            final(self).interest_spec() == old(self).interest_spec(),
            final(self).opt_spec() == old(self).opt_spec(),
            final(self).read_pos_spec() == old(self).write_pos_spec(),
            final(self).write_pos_spec() == old(self).write_pos_spec(),
            final(self).queued_spec() == old(self).queued_spec(),
            final(self).dropped_spec() == old(self).dropped_spec(),
    {
        let val = self.token_write_pos();
        self.set(val, MASK_2, TOKEN_RD_SHIFT);
        proof {
            lemma_set_read_pos(old(self).0, val);
        }
    }

    /// The slot a new token is written to: the third one when the slots
    /// being read and last written differ, else the one after the slot last
    /// written, round the three.
    pub open spec fn next_token_pos_spec(self) -> usize {
        let wr = self.write_pos_spec();
        let rd = self.read_pos_spec();
        if wr == rd {
            ((wr + 1) % 3) as usize
        } else {
            (3 - wr - rd) as usize
        }
    }

    /// A token slot that is neither the one being read nor the one last written.
    pub fn next_token_pos(self) -> (r: usize)
        requires
            self.read_pos_spec() < 3,
            self.write_pos_spec() < 3,
        ensures
            r < 3,
            r != self.write_pos_spec(),
            r != self.read_pos_spec(),
            r == self.next_token_pos_spec(),
    {
        let rd = self.token_read_pos();
        let wr = self.token_write_pos();
        match wr {
            0 => {
                match rd {
                    1 => 2,
                    2 => 1,
                    _ => 1,
                }
            },
            1 => {
                match rd {
                    0 => 2,
                    2 => 0,
                    _ => 2,
                }
            },
            _ => {
                match rd {
                    0 => 1,
                    1 => 0,
                    _ => 0,
                }
            },
        }
    }
}

impl From<ReadinessState> for usize {
    fn from(src: ReadinessState) -> (r: usize)
        ensures
            r == src.0,
    {
        src.0
    }
}

impl vstd::std_specs::convert::FromSpecImpl<ReadinessState> for usize {
    open spec fn obeys_from_spec() -> bool {
        true
    }

    open spec fn from_spec(v: ReadinessState) -> usize {
        v.0
    }
}

impl From<usize> for ReadinessState {
    fn from(src: usize) -> (r: ReadinessState)
        ensures
            r.0 == src,
    {
        ReadinessState(src)
    }
}

impl vstd::std_specs::convert::FromSpecImpl<usize> for ReadinessState {
    open spec fn obeys_from_spec() -> bool {
        true
    }

    open spec fn from_spec(v: usize) -> ReadinessState {
        ReadinessState(v)
    }
}

proof fn lemma_new_fields(i: usize, o: usize)
    requires
        i <= 15,
        o <= 15,
    ensures
        field((i << 4usize) | (o << 8usize), 15, 0) == 0,
        field((i << 4usize) | (o << 8usize), 15, 4) == i,
        field((i << 4usize) | (o << 8usize), 15, 8) == o,
        field((i << 4usize) | (o << 8usize), 3, 12) == 0,
        field((i << 4usize) | (o << 8usize), 3, 14) == 0,
        ((i << 4usize) | (o << 8usize)) & 0x1_0000 != 0x1_0000,
        ((i << 4usize) | (o << 8usize)) & 0x2_0000 != 0x2_0000,
{
    assert(
        ((((i << 4usize) | (o << 8usize)) >> 0usize) & 15usize == 0)
        && ((((i << 4usize) | (o << 8usize)) >> 4usize) & 15usize == i)
        && ((((i << 4usize) | (o << 8usize)) >> 8usize) & 15usize == o)
        && ((((i << 4usize) | (o << 8usize)) >> 12usize) & 3usize == 0)
        && ((((i << 4usize) | (o << 8usize)) >> 14usize) & 3usize == 0)
        && (((i << 4usize) | (o << 8usize)) & 0x1_0000usize != 0x1_0000usize)
        && (((i << 4usize) | (o << 8usize)) & 0x2_0000usize != 0x2_0000usize)
    ) by (bit_vector)
        requires
            i <= 15usize,
            o <= 15usize,
    ;
}

/// Writing one field of the packed state and reading each field back.
pub open spec fn fields_after(s: usize, n: usize, rd: usize, intr: usize, opt: usize, rp: usize, wp: usize, q: bool, d: bool) -> bool {
    &&& field(n, 15, 0) == rd
    &&& field(n, 15, 4) == intr
    &&& field(n, 15, 8) == opt
    &&& field(n, 3, 12) == rp
    &&& field(n, 3, 14) == wp
    &&& (n & 0x1_0000 == 0x1_0000) == q
    &&& (n & 0x2_0000 == 0x2_0000) == d
}

proof fn lemma_set_readiness(s: usize, v: usize)
    ensures
        v <= 15 ==> fields_after(s, with_field(s, v, 15, 0), v, field(s, 15, 4), field(s, 15, 8),
            field(s, 3, 12), field(s, 3, 14), s & 0x1_0000 == 0x1_0000, s & 0x2_0000 == 0x2_0000),
{
    assert(v <= 15usize ==> {
        let n = (s & !(15usize << 0usize)) | (v << 0usize);
        &&& (n >> 0usize) & 15usize == v
        &&& (n >> 4usize) & 15usize == (s >> 4usize) & 15usize
        &&& (n >> 8usize) & 15usize == (s >> 8usize) & 15usize
        &&& (n >> 12usize) & 3usize == (s >> 12usize) & 3usize
        &&& (n >> 14usize) & 3usize == (s >> 14usize) & 3usize
        &&& (n & 0x1_0000usize == 0x1_0000usize) == (s & 0x1_0000usize == 0x1_0000usize)
        &&& (n & 0x2_0000usize == 0x2_0000usize) == (s & 0x2_0000usize == 0x2_0000usize)
    }) by (bit_vector);
}

proof fn lemma_set_interest(s: usize, v: usize)
    ensures
        v <= 15 ==> fields_after(s, with_field(s, v, 15, 4), field(s, 15, 0), v, field(s, 15, 8),
            field(s, 3, 12), field(s, 3, 14), s & 0x1_0000 == 0x1_0000, s & 0x2_0000 == 0x2_0000),
{
    assert(v <= 15usize ==> {
        let n = (s & !(15usize << 4usize)) | (v << 4usize);
        &&& (n >> 0usize) & 15usize == (s >> 0usize) & 15usize
        &&& (n >> 4usize) & 15usize == v
        &&& (n >> 8usize) & 15usize == (s >> 8usize) & 15usize
        &&& (n >> 12usize) & 3usize == (s >> 12usize) & 3usize
        &&& (n >> 14usize) & 3usize == (s >> 14usize) & 3usize
        &&& (n & 0x1_0000usize == 0x1_0000usize) == (s & 0x1_0000usize == 0x1_0000usize)
        &&& (n & 0x2_0000usize == 0x2_0000usize) == (s & 0x2_0000usize == 0x2_0000usize)
    }) by (bit_vector);
}

proof fn lemma_set_opt(s: usize, v: usize)
    ensures
        v <= 15 ==> fields_after(s, with_field(s, v, 15, 8), field(s, 15, 0), field(s, 15, 4), v,
            field(s, 3, 12), field(s, 3, 14), s & 0x1_0000 == 0x1_0000, s & 0x2_0000 == 0x2_0000),
{
    assert(v <= 15usize ==> {
        let n = (s & !(15usize << 8usize)) | (v << 8usize);
        &&& (n >> 0usize) & 15usize == (s >> 0usize) & 15usize
        &&& (n >> 4usize) & 15usize == (s >> 4usize) & 15usize
        &&& (n >> 8usize) & 15usize == v
        &&& (n >> 12usize) & 3usize == (s >> 12usize) & 3usize
        &&& (n >> 14usize) & 3usize == (s >> 14usize) & 3usize
        &&& (n & 0x1_0000usize == 0x1_0000usize) == (s & 0x1_0000usize == 0x1_0000usize)
        &&& (n & 0x2_0000usize == 0x2_0000usize) == (s & 0x2_0000usize == 0x2_0000usize)
    }) by (bit_vector);
}

proof fn lemma_set_read_pos(s: usize, v: usize)
    requires
        v <= 3,
    ensures
        fields_after(s, with_field(s, v, 3, 12), field(s, 15, 0), field(s, 15, 4), field(s, 15, 8),
            v, field(s, 3, 14), s & 0x1_0000 == 0x1_0000, s & 0x2_0000 == 0x2_0000),
{
    assert({
        let n = (s & !(3usize << 12usize)) | (v << 12usize);
        &&& (n >> 0usize) & 15usize == (s >> 0usize) & 15usize
        &&& (n >> 4usize) & 15usize == (s >> 4usize) & 15usize
        &&& (n >> 8usize) & 15usize == (s >> 8usize) & 15usize
        &&& (n >> 12usize) & 3usize == v
        &&& (n >> 14usize) & 3usize == (s >> 14usize) & 3usize
        &&& (n & 0x1_0000usize == 0x1_0000usize) == (s & 0x1_0000usize == 0x1_0000usize)
        &&& (n & 0x2_0000usize == 0x2_0000usize) == (s & 0x2_0000usize == 0x2_0000usize)
    }) by (bit_vector)
        requires
            v <= 3usize,
    ;
}

proof fn lemma_set_write_pos(s: usize, v: usize)
    ensures
        v <= 3 ==> fields_after(s, with_field(s, v, 3, 14), field(s, 15, 0), field(s, 15, 4), field(s, 15, 8),
            field(s, 3, 12), v, s & 0x1_0000 == 0x1_0000, s & 0x2_0000 == 0x2_0000),
{
    assert(v <= 3usize ==> {
        let n = (s & !(3usize << 14usize)) | (v << 14usize);
        &&& (n >> 0usize) & 15usize == (s >> 0usize) & 15usize
        &&& (n >> 4usize) & 15usize == (s >> 4usize) & 15usize
        &&& (n >> 8usize) & 15usize == (s >> 8usize) & 15usize
        &&& (n >> 12usize) & 3usize == (s >> 12usize) & 3usize
        &&& (n >> 14usize) & 3usize == v
        &&& (n & 0x1_0000usize == 0x1_0000usize) == (s & 0x1_0000usize == 0x1_0000usize)
        &&& (n & 0x2_0000usize == 0x2_0000usize) == (s & 0x2_0000usize == 0x2_0000usize)
    }) by (bit_vector);
}

proof fn lemma_set_queued(s: usize)
    requires
        s & 0x2_0000 != 0x2_0000,
    ensures
        fields_after(s, s | 0x1_0000, field(s, 15, 0), field(s, 15, 4), field(s, 15, 8),
            field(s, 3, 12), field(s, 3, 14), true, false),
{
    assert({
        let n = s | 0x1_0000usize;
        &&& (n >> 0usize) & 15usize == (s >> 0usize) & 15usize
        &&& (n >> 4usize) & 15usize == (s >> 4usize) & 15usize
        &&& (n >> 8usize) & 15usize == (s >> 8usize) & 15usize
        &&& (n >> 12usize) & 3usize == (s >> 12usize) & 3usize
        &&& (n >> 14usize) & 3usize == (s >> 14usize) & 3usize
        &&& n & 0x1_0000usize == 0x1_0000usize
        &&& n & 0x2_0000usize != 0x2_0000usize
    }) by (bit_vector)
        requires
            s & 0x2_0000usize != 0x2_0000usize,
    ;
}

proof fn lemma_set_dequeued(s: usize)
    ensures
        fields_after(s, s & !0x1_0000usize, field(s, 15, 0), field(s, 15, 4), field(s, 15, 8),
            field(s, 3, 12), field(s, 3, 14), false, s & 0x2_0000 == 0x2_0000),
{
    assert({
        let n = s & !0x1_0000usize;
        &&& (n >> 0usize) & 15usize == (s >> 0usize) & 15usize
        &&& (n >> 4usize) & 15usize == (s >> 4usize) & 15usize
        &&& (n >> 8usize) & 15usize == (s >> 8usize) & 15usize
        &&& (n >> 12usize) & 3usize == (s >> 12usize) & 3usize
        &&& (n >> 14usize) & 3usize == (s >> 14usize) & 3usize
        &&& n & 0x1_0000usize != 0x1_0000usize
        &&& (n & 0x2_0000usize == 0x2_0000usize) == (s & 0x2_0000usize == 0x2_0000usize)
    }) by (bit_vector);
}

/// Writes that spill over a field's width never reach the token positions
/// or the two flags, as long as they stay below bit 12.
pub proof fn lemma_wide_writes(s: usize, v: usize)
    ensures
        v < 0x1000 ==> {
            let n = with_field(s, v, 15, 0);
            &&& field(n, 3, 12) == field(s, 3, 12)
            &&& field(n, 3, 14) == field(s, 3, 14)
            &&& (n & 0x1_0000 == 0x1_0000) == (s & 0x1_0000 == 0x1_0000)
            &&& (n & 0x2_0000 == 0x2_0000) == (s & 0x2_0000 == 0x2_0000)
        },
        v < 0x100 ==> {
            let n = with_field(s, v, 15, 4);
            &&& field(n, 3, 12) == field(s, 3, 12)
            &&& field(n, 3, 14) == field(s, 3, 14)
            &&& (n & 0x1_0000 == 0x1_0000) == (s & 0x1_0000 == 0x1_0000)
            &&& (n & 0x2_0000 == 0x2_0000) == (s & 0x2_0000 == 0x2_0000)
        },
        v < 0x10 ==> {
            let n = with_field(s, v, 15, 8);
            &&& field(n, 3, 12) == field(s, 3, 12)
            &&& field(n, 3, 14) == field(s, 3, 14)
            &&& (n & 0x1_0000 == 0x1_0000) == (s & 0x1_0000 == 0x1_0000)
            &&& (n & 0x2_0000 == 0x2_0000) == (s & 0x2_0000 == 0x2_0000)
        },
{
    assert(v < 0x1000usize ==> {
        let n = (s & !(15usize << 0usize)) | (v << 0usize);
        &&& (n >> 12usize) & 3usize == (s >> 12usize) & 3usize
        &&& (n >> 14usize) & 3usize == (s >> 14usize) & 3usize
        &&& (n & 0x1_0000usize == 0x1_0000usize) == (s & 0x1_0000usize == 0x1_0000usize)
        &&& (n & 0x2_0000usize == 0x2_0000usize) == (s & 0x2_0000usize == 0x2_0000usize)
    }) by (bit_vector);
    assert(v < 0x100usize ==> {
        let n = (s & !(15usize << 4usize)) | (v << 4usize);
        &&& (n >> 12usize) & 3usize == (s >> 12usize) & 3usize
        &&& (n >> 14usize) & 3usize == (s >> 14usize) & 3usize
        &&& (n & 0x1_0000usize == 0x1_0000usize) == (s & 0x1_0000usize == 0x1_0000usize)
        &&& (n & 0x2_0000usize == 0x2_0000usize) == (s & 0x2_0000usize == 0x2_0000usize)
    }) by (bit_vector);
    assert(v < 0x10usize ==> {
        let n = (s & !(15usize << 8usize)) | (v << 8usize);
        &&& (n >> 12usize) & 3usize == (s >> 12usize) & 3usize
        &&& (n >> 14usize) & 3usize == (s >> 14usize) & 3usize
        &&& (n & 0x1_0000usize == 0x1_0000usize) == (s & 0x1_0000usize == 0x1_0000usize)
        &&& (n & 0x2_0000usize == 0x2_0000usize) == (s & 0x2_0000usize == 0x2_0000usize)
    }) by (bit_vector);
}

/// Writing a field with a value that fits and reading it back gives the value,
/// and every other field keeps its value.
pub proof fn lemma_field_roundtrip(s: usize, v: usize)
    ensures
        v <= 15 ==> field(with_field(s, v, 15, 0), 15, 0) == v,
        v <= 15 ==> field(with_field(s, v, 15, 4), 15, 4) == v,
        v <= 15 ==> field(with_field(s, v, 15, 8), 15, 8) == v,
        v <= 3 ==> field(with_field(s, v, 3, 12), 3, 12) == v,
        v <= 3 ==> field(with_field(s, v, 3, 14), 3, 14) == v,
        v <= 15 ==> field(with_field(s, v, 15, 4), 15, 0) == field(s, 15, 0),
        v <= 15 ==> field(with_field(s, v, 15, 0), 15, 4) == field(s, 15, 4),
{
    lemma_set_readiness(s, v);
    lemma_set_interest(s, v);
    lemma_set_opt(s, v);
    lemma_set_write_pos(s, v);
    if v <= 3 {
        lemma_set_read_pos(s, v);
    }
}

} // verus!

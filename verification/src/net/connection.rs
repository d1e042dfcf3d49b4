use vstd::prelude::*;
use bytes::{BufMut, BytesMut};
use crate::event_imp::{bits_contain, ready_from_usize, READABLE, WRITABLE, ERROR, HUP};

verus! {

#[verifier::external_type_specification]
#[verifier::external_body]
pub struct ExBytesMut(BytesMut);

/// The bytes a `BytesMut` holds, in order.
pub uninterp spec fn bytes_contents(b: BytesMut) -> Seq<u8>;

/// Calls `BytesMut::with_capacity`, whose buffer holds no bytes whatever its
/// capacity; the capacity stays within what `Vec::with_capacity` accepts.
#[verifier::external_body]
fn bytes_with_capacity(capacity: usize) -> (r: BytesMut)
    requires
        capacity <= isize::MAX,
    ensures
        bytes_contents(r).len() == 0,
{
    BytesMut::with_capacity(capacity)
}

/// Calls `BytesMut::len`: how many bytes the buffer holds.
#[verifier::external_body]
fn bytes_len(b: &BytesMut) -> (r: usize)
    ensures
        r == bytes_contents(*b).len(),
{
    b.len()
}

/// Calls `BytesMut::split`, which moves every byte into the buffer it
/// returns and leaves `b` empty.
#[verifier::external_body]
fn bytes_split(b: &mut BytesMut) -> (r: BytesMut)
    ensures
        bytes_contents(r) == bytes_contents(*old(b)),
        bytes_contents(*final(b)).len() == 0,
{
    b.split()
}

/// Calls `BufMut::put` on `b` with `src` as the source, which appends all of
/// `src`'s bytes; the total stays within what one allocation can hold.
#[verifier::external_body]
fn bytes_put(b: &mut BytesMut, src: BytesMut)
    requires
        bytes_contents(*old(b)).len() + bytes_contents(src).len() <= isize::MAX,
    ensures
        bytes_contents(*final(b)) == bytes_contents(*old(b)) + bytes_contents(src),
{
    b.put(src)
}

/// How many bytes a buffer holds.
pub fn buffer_len(b: &BytesMut) -> (r: usize)
    ensures
        r == bytes_contents(*b).len(),
{
    bytes_len(b)
}

/// The bytes of a buffer that may be absent.
pub open spec fn opt_contents(b: Option<BytesMut>) -> Option<Seq<u8>> {
    match b {
        Some(b) => Some(bytes_contents(b)),
        None => None,
    }
}

/// Where a connection is in its life.
#[derive(Clone, Copy, Debug, PartialEq, Eq, Structural)]
pub enum StateE {
    Disconnected,
    Connecting,
    Connected,
    Disconnecting,
}

/// What a connection holds, as values: its state, its switches, and the bytes
/// of its buffers (a buffer is absent while it is handed out, and for good
/// once a failed read or write has dropped it).
#[verifier::ext_equal]
pub struct ConnView {
    pub state: StateE,
    pub read_enabled: bool,
    pub write_enabled: bool,
    pub read_triggered: bool,
    pub write_triggered: bool,
    pub read_buffer: Option<Seq<u8>>,
    pub sending: Option<Seq<u8>>,
    pub waiting: Seq<u8>,
}

/// The bytes still to be written, in order: those of a write that did not
/// finish, then those queued since.
pub open spec fn pending(v: ConnView) -> Seq<u8> {
    match v.sending {
        Some(s) => s + v.waiting,
        None => v.waiting,
    }
}

/// How one read from the stream went.
#[derive(Clone, Copy, Debug, PartialEq, Eq, Structural)]
pub enum ReadOutcome {
    /// Nothing to read now.
    WouldBlock,
    /// This many bytes were read; zero means the peer closed its side.
    Read(usize),
    /// The read failed.
    Failed,
}

/// What follows a read.
#[derive(Clone, Copy, Debug, PartialEq, Eq, Structural)]
pub enum ReadAction {
    /// Read again.
    Again,
    /// Stop reading until the next readiness.
    Stop,
    /// Stop and close the stream.
    Close,
}

/// How one write to the stream went; the buffer handed back holds what is
/// left of it.
#[derive(Clone, Copy, Debug, PartialEq, Eq, Structural)]
pub enum WriteOutcome {
    /// The stream took nothing now.
    WouldBlock,
    /// The stream took some bytes.
    Wrote,
    /// The write failed.
    Failed,
}

/// What follows a write.
#[derive(Clone, Copy, Debug, PartialEq, Eq, Structural)]
pub enum WriteAction {
    /// Nothing more to do now.
    Done,
    /// Everything handed out was written: run the written callback, and
    /// close the stream when it answers `false`.
    Flushed,
}

/// Which handlers a readiness event calls, in this order.
#[derive(Clone, Copy, Debug, PartialEq, Eq, Structural)]
pub struct EventPlan {
    pub read: bool,
    pub write: bool,
    pub hangup: bool,
}

/// The handlers that an event, the readiness as a number, calls: read for
/// readable, write for writable, and close for an error or a hang-up.
pub fn event_plan(event: i64) -> (r: EventPlan)
    ensures
        r.read == bits_contain(event as usize, READABLE),
        r.write == bits_contain(event as usize, WRITABLE),
        r.hangup == (bits_contain(event as usize, ERROR) || bits_contain(event as usize, HUP)),
{
    let ready = ready_from_usize(event as usize);
    EventPlan { read: ready.is_readable(), write: ready.is_writable(), hangup: ready.is_error() || ready.is_hup() }
}

/// A stream connection's state and buffers; the stream itself is carried
/// as it is, and the reading and writing are done by the caller.
pub struct TcpConnection<S> {
    pub tcp_stream: S,
    read_buffer: Option<BytesMut>,
    write_buffer_sending: Option<BytesMut>,
    write_buffer_waiting: BytesMut,
    state: StateE,
    read_enabled: bool,
    write_enabled: bool,
    read_triggered: bool,
    write_triggered: bool,
}

impl<S> View for TcpConnection<S> {
    type V = ConnView;

    closed spec fn view(&self) -> ConnView {
        ConnView {
            state: self.state,
            read_enabled: self.read_enabled,
            write_enabled: self.write_enabled,
            read_triggered: self.read_triggered,
            write_triggered: self.write_triggered,
            read_buffer: opt_contents(self.read_buffer),
            sending: opt_contents(self.write_buffer_sending),
            waiting: bytes_contents(self.write_buffer_waiting),
        }
    }
}

impl<S> TcpConnection<S> {
    /// The stream the connection carries.
    pub closed spec fn stream(&self) -> S {
        self.tcp_stream
    }

    /// A connection that is still connecting, with empty buffers, both
    /// directions enabled and nothing triggered.
    pub fn new(tcp_stream: S) -> (r: Self)
        ensures
            r.stream() == tcp_stream,
            r@ == (ConnView {
                state: StateE::Connecting,
                read_enabled: true,
                write_enabled: true,
                read_triggered: false,
                write_triggered: false,
                read_buffer: Some(Seq::empty()),
                sending: Some(Seq::empty()),
                waiting: Seq::empty(),
            }),
    {
        let r = TcpConnection {
            tcp_stream,
            read_buffer: Some(bytes_with_capacity(1024)),
            write_buffer_sending: Some(bytes_with_capacity(1024)),
            write_buffer_waiting: bytes_with_capacity(1024),
            state: StateE::Connecting,
            read_enabled: true,
            write_enabled: true,
            read_triggered: false,
            write_triggered: false,
        };
        assert(r@.read_buffer =~= Some(Seq::<u8>::empty()));
        assert(r@.sending =~= Some(Seq::<u8>::empty()));
        r
    }

    pub fn connected(&self) -> (r: bool)
        ensures
            r == (self@.state == StateE::Connected),
    {
        self.state == StateE::Connected
    }

    pub fn disconnected(&self) -> (r: bool)
        ensures
            r == (self@.state == StateE::Disconnected),
    {
        self.state == StateE::Disconnected
    }

    pub fn set_state(&mut self, state: StateE)
        ensures
            final(self).stream() == old(self).stream(),
            final(self)@ == (ConnView { state, ..old(self)@ }),
    {
        self.state = state;
    }

    /// Switches both directions on or off.
    pub fn set_enabled(&mut self, enable: bool)
        ensures
            final(self).stream() == old(self).stream(),
            final(self)@ == (ConnView { read_enabled: enable, write_enabled: enable, ..old(self)@ }),
    {
        self.read_enabled = enable;
        self.write_enabled = enable;
    }

    /// Marks the connection readable before its reads.
    pub fn on_readable(&mut self)
        ensures
            final(self).stream() == old(self).stream(),
            final(self)@ == (ConnView { read_triggered: true, ..old(self)@ }),
    {
        self.read_triggered = true;
    }

    /// Marks the connection writable before its writes.
    pub fn on_writable(&mut self)
        ensures
            final(self).stream() == old(self).stream(),
            final(self)@ == (ConnView { write_triggered: true, ..old(self)@ }),
    {
        self.write_triggered = true;
    }

    /// The connection is closed: disconnected, with both directions off.
    pub fn handle_close(&mut self)
        ensures
            final(self).stream() == old(self).stream(),
            final(self)@ == (ConnView {
                state: StateE::Disconnected,
                read_enabled: false,
                write_enabled: false,
                ..old(self)@
            }),
    {
        self.set_state(StateE::Disconnected);
        self.set_enabled(false);
    }

    /// An error or a hang-up: both directions are marked triggered and the
    /// connection is closed.
    pub fn on_hangup(&mut self)
        ensures
            final(self).stream() == old(self).stream(),
            final(self)@ == (ConnView {
                state: StateE::Disconnected,
                read_enabled: false,
                write_enabled: false,
                read_triggered: true,
                write_triggered: true,
                ..old(self)@
            }),
    {
        self.read_triggered = true;
        self.write_triggered = true;
        self.handle_close();
    }

    /// Hands out the read buffer for one read; `None` once a failed read has
    /// dropped it.
    pub fn take_read_buffer(&mut self) -> (r: Option<BytesMut>)
        ensures
            final(self).stream() == old(self).stream(),
            opt_contents(r) == old(self)@.read_buffer,
            final(self)@ == (ConnView { read_buffer: None, ..old(self)@ }),
    {
        self.read_buffer.take()
    }

    /// Takes back the read buffer after a read (and after the read callback
    /// has seen the bytes) and says what follows: read again after bytes,
    /// stop when nothing is there, close when the peer closed or the read
    /// failed. A failed read drops the buffer.
    pub fn after_read(&mut self, buf: BytesMut, outcome: ReadOutcome) -> (r: ReadAction)
        ensures
            final(self).stream() == old(self).stream(),
            match outcome {
                ReadOutcome::WouldBlock => r == ReadAction::Stop && final(self)@ == (ConnView {
                    read_buffer: Some(bytes_contents(buf)),
                    read_triggered: false,
                    ..old(self)@
                }),
                ReadOutcome::Read(n) => if n > 0 {
                    r == ReadAction::Again && final(self)@ == (ConnView {
                        read_buffer: Some(bytes_contents(buf)),
                        ..old(self)@
                    })
                } else {
                    r == ReadAction::Close && final(self)@ == (ConnView {
                        read_buffer: Some(bytes_contents(buf)),
                        read_triggered: false,
                        ..old(self)@
                    })
                },
                ReadOutcome::Failed => r == ReadAction::Close && final(self)@ == (ConnView {
                    read_triggered: false,
                    ..old(self)@
                }),
            },
    {
        match outcome {
            ReadOutcome::WouldBlock => {
                self.read_buffer = Some(buf);
                self.read_triggered = false;
                ReadAction::Stop
            },
            ReadOutcome::Read(n) => {
                self.read_buffer = Some(buf);
                if n > 0 {
                    ReadAction::Again
                } else {
                    self.read_triggered = false;
                    ReadAction::Close
                }
            },
            ReadOutcome::Failed => {
                self.read_triggered = false;
                ReadAction::Close
            },
        }
    }

    /// Whether the write buffer is in place: it is not while a write is
    /// under way, nor for good once a failed write has dropped it.
    pub fn write_buffer_ready(&self) -> (r: bool)
        ensures
            r == (self@.sending is Some),
    {
        self.write_buffer_sending.is_some()
    }

    /// How many bytes wait behind the write under way.
    pub fn waiting_len(&self) -> (r: usize)
        ensures
            r == self@.waiting.len(),
    {
        bytes_len(&self.write_buffer_waiting)
    }

    /// Whether a writable event has anything to write.
    pub fn has_pending_writes(&self) -> (r: bool)
        requires
            self@.sending is Some,
        ensures
            r == (pending(self@).len() > 0),
    {
        match &self.write_buffer_sending {
            Some(s) => bytes_len(&self.write_buffer_waiting) > 0 || bytes_len(s) > 0,
            None => false,
        }
    }

    /// Queues bytes behind those already waiting, on a connected connection;
    /// answers how many were queued (none when not connected or empty).
    pub fn queue_send(&mut self, bytes: BytesMut) -> (r: usize)
        requires
            old(self)@.state == StateE::Connected ==> old(self)@.waiting.len() + bytes_contents(bytes).len()
                <= isize::MAX,
        ensures
            final(self).stream() == old(self).stream(),
            if old(self)@.state != StateE::Connected || bytes_contents(bytes).len() == 0 {
                r == 0 && final(self)@ == old(self)@
            } else {
                r == bytes_contents(bytes).len() && final(self)@ == (ConnView {
                    waiting: old(self)@.waiting + bytes_contents(bytes),
                    ..old(self)@
                })
            },
    {
        if self.state != StateE::Connected {
            return 0;
        }
        let len = bytes_len(&bytes);
        if len == 0 {
            return 0;
        }
        bytes_put(&mut self.write_buffer_waiting, bytes);
        len
    }

    /// Hands out what the next write sends: the bytes of an unfinished write
    /// first, else everything waiting. Nothing on a connection that is not
    /// connected or has nothing to write.
    pub fn begin_write(&mut self) -> (r: Option<BytesMut>)
        requires
            old(self)@.state == StateE::Connected ==> old(self)@.sending is Some,
        ensures
            final(self).stream() == old(self).stream(),
            begin_write_result(old(self)@, final(self)@, opt_contents(r)),
    {
        if self.state != StateE::Connected {
            return None;
        }
        let mut sending = self.write_buffer_sending.take().unwrap();
        if bytes_len(&sending) > 0 {
            let out = bytes_split(&mut sending);
            return Some(out);
        }
        if bytes_len(&self.write_buffer_waiting) > 0 {
            let out = bytes_split(&mut self.write_buffer_waiting);
            proof {
                assert(bytes_contents(self.write_buffer_waiting) =~= Seq::<u8>::empty());
            }
            return Some(out);
        }
        self.write_buffer_sending = Some(sending);
        None
    }

    /// Takes back what is left of the buffer after a write and says what
    /// follows. What the stream did not take goes first in line again; a
    /// failed write drops it.
    pub fn after_write(&mut self, buf: BytesMut, outcome: WriteOutcome) -> (r: WriteAction)
        ensures
            final(self).stream() == old(self).stream(),
            after_write_result(old(self)@, bytes_contents(buf), outcome, final(self)@, r),
    {
        let mut buf = buf;
        match outcome {
            WriteOutcome::WouldBlock => {
                self.write_buffer_sending = Some(bytes_split(&mut buf));
                self.write_triggered = false;
                WriteAction::Done
            },
            WriteOutcome::Wrote => {
                if bytes_len(&buf) > 0 {
                    self.write_buffer_sending = Some(bytes_split(&mut buf));
                    WriteAction::Done
                } else {
                    self.write_triggered = false;
                    self.write_buffer_sending = Some(bytes_split(&mut buf));
                    proof {
                        assert(opt_contents(self.write_buffer_sending) =~= Some(Seq::<u8>::empty()));
                    }
                    WriteAction::Flushed
                }
            },
            WriteOutcome::Failed => {
                self.write_triggered = false;
                WriteAction::Done
            },
        }
    }
}

/// What `begin_write` does: from `before` to `after`, handing out `out`.
pub open spec fn begin_write_result(before: ConnView, after: ConnView, out: Option<Seq<u8>>) -> bool {
    if before.state != StateE::Connected {
        out is None && after == before
    } else {
        let sending = before.sending->0;
        &&& before.sending is Some
        &&& if sending.len() > 0 {
            out == Some(sending) && after == (ConnView { sending: None, ..before })
        } else if before.waiting.len() > 0 {
            out == Some(before.waiting) && after == (ConnView {
                sending: None,
                waiting: Seq::empty(),
                ..before
            })
        } else {
            out is None && after == before
        }
    }
}

/// What `after_write` does: from `before` to `after`, given the bytes
/// `left` of the handed-out buffer, answering `r`.
pub open spec fn after_write_result(
    before: ConnView,
    left: Seq<u8>,
    outcome: WriteOutcome,
    after: ConnView,
    r: WriteAction,
) -> bool {
    match outcome {
        WriteOutcome::WouldBlock => r == WriteAction::Done && after == (ConnView {
            sending: Some(left),
            write_triggered: false,
            ..before
        }),
        WriteOutcome::Wrote => if left.len() > 0 {
            r == WriteAction::Done && after == (ConnView { sending: Some(left), ..before })
        } else {
            r == WriteAction::Flushed && after == (ConnView {
                sending: Some(left),
                write_triggered: false,
                ..before
            })
        },
        WriteOutcome::Failed => r == WriteAction::Done && after == (ConnView {
            write_triggered: false,
            ..before
        }),
    }
}

/// Bytes leave in the order they were queued: when a write hands out a
/// buffer and the stream takes `written` from its front, what was pending
/// before is `written` followed by what is pending after.
pub proof fn law_writes_keep_order(
    c0: ConnView,
    c1: ConnView,
    out: Seq<u8>,
    written: Seq<u8>,
    left: Seq<u8>,
    outcome: WriteOutcome,
    c2: ConnView,
    r: WriteAction,
)
    requires
        begin_write_result(c0, c1, Some(out)),
        out == written + left,
        outcome != WriteOutcome::Failed,
        outcome == WriteOutcome::WouldBlock ==> written.len() == 0,
        after_write_result(c1, left, outcome, c2, r),
    ensures
        pending(c0) == written + pending(c2),
{
    assert(c0.sending is Some);
    let sending = c0.sending->0;
    if sending.len() > 0 {
        assert(pending(c0) =~= written + (left + c0.waiting));
        assert(pending(c2) =~= left + c0.waiting);
    } else {
        assert(sending =~= Seq::<u8>::empty());
        assert(pending(c0) =~= written + left);
        assert(pending(c2) =~= left + Seq::<u8>::empty());
    }
}

/// Queued bytes join the end of what is pending.
pub proof fn law_send_appends(c0: ConnView, bytes: Seq<u8>)
    requires
        c0.state == StateE::Connected,
    ensures
        pending(ConnView { waiting: c0.waiting + bytes, ..c0 }) == pending(c0) + bytes,
{
    match c0.sending {
        Some(s) => {
            assert(s + (c0.waiting + bytes) =~= (s + c0.waiting) + bytes);
        },
        None => {},
    }
}

} // verus!

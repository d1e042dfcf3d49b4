# my_mio

A readiness-based event notification library for Linux, in the style of an
epoll reactor, with its logic proved by Verus.

## Layout

- `src/` — the verified library.
  - `event_imp`, `token`, `sys/ready` — readiness sets, poll options, tokens.
  - `poll/state` — the bit-packed state word of a registration node.
  - `poll/queue` — the user-space readiness queue: enqueue, the sleep and
    end markers, and what a poll reports and puts back.
  - `poll/registration` — registration and readiness handles over the queue.
  - `poll/lock` — the protocol of the poll lock word and the timeouts of a
    poll.
  - `poll/ids`, `poll/laws` — id and token allocation; laws of the queue.
  - `timer` — a hashed timing wheel on a `slab`, and the decisions of its
    wakeup thread.
  - `sys/epoll`, `sys/duration` — epoll flags, selected events, millisecond
    arithmetic.
  - `channel`, `lazycell`, `io` — channel readiness counters, lazily filled
    cells, non-blocking results.
  - `net` — event loop wiring, the stream connection state machine with its
    `bytes` buffers, acceptor and server decisions.
- `tests/` — tests of the library.
- `app/` — the runtime around it: epoll and pipe system calls, the poller's
  threads and locks, channels over `std::sync::mpsc`, the timer's wakeup
  thread, and TCP networking.

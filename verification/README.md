# nesty

A minimal async runtime: a work-stealing executor, a reactor thread driving
mio readiness and timers, async TCP sockets, and a pool of pre-allocated
request buffers.

The library (`src/`) holds the runtime's rules, verified with Verus:

| Module | What is proved |
|---|---|
| `pool` | buffers handed back are handed out next (last in, first out); an empty pool falls back to a fresh zeroed buffer |
| `reactor` | the timer queue is a binary min-heap by deadline; expiry fires exactly the due timers, earliest first; the waker table returns what was stored for a token, once, also across a batch of events |
| `timer` | a sleep completes exactly when its deadline has passed and registers its timer at most once |
| `net` | a socket is registered with the reactor on its first blocked attempt and re-registered afterwards |
| `executor` | the worker's search rule (own queue, then the global queue retried while contended, then the siblings in order, then park) as a step function `next_step`, and that `find_task`'s result is what that rule gives for the trace of attempt outcomes it reports (the trace itself is not tied to the queues asked, whose answers depend on other threads); the index of the worker that spawning, scheduling or notifying wakes (round robin); one queue, stealer and notifier per worker (as counts) and one global queue shared with the spawner; the one-shot yield |

`app/` is the server program: threads, the clock, mio sockets and polling,
and the futures that drive the library's state machines.

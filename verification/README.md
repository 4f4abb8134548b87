# aletheia_wal

The front end of a write-ahead log, verified with Verus: striped ring buffers,
blocking appends with stall deadlines, group commit, transaction frames, and
the decisions of the background flusher.

## Layout

- `src/` holds the library. Every type is a plain state machine whose methods
  carry contracts over a mathematical value (`self@`). No method blocks, sleeps
  or reads a clock: where the log has to wait, a method says for how long and
  hands back what the caller returns with; where something has to reach the
  disk, a method hands out the entries and a second one takes in how the write
  went.
- `tests/` drives the library on concrete values, with a simulated clock and an
  in-memory list of segments.
- `app/` is ordinary Rust around the library: the shared service with its
  mutex, condition variables and flush thread, and the trait behind which the
  segments live.

## What is proved

- A ring buffer loses, duplicates and reorders nothing, whatever the
  interleaving of its writers and its reader, and the wraparound of its
  counters is invisible (`ring_buffer`).
- A bounded append is answered by its deadline, a batch that makes progress is
  never failed by it, and a closed buffer beats both (`deadline`,
  `ring_buffer`, `concurrent`).
- A batch with an operation that cannot be serialized leaves no residue
  (`concurrent`).
- Over the whole life of a log no LSN is handed out twice, a drain hands out
  every pending entry once and in strictly increasing LSN order, and the count
  of appends is what was drained and what is pending (`history`).
- A synchronous append is answered with success only after its own entry was
  written, and a batch only after all of it was (`concurrent_system`,
  `history`).
- A shutdown leaves nothing pending, in any mode, and a roll of the active
  segment flushes everything before the keyring moves on (`concurrent_system`,
  `flusher`).
- Every epoch of group commit is accounted for between flush cycles, no epoch
  is left behind, and no waiter on an epoch whose flush failed is ever told
  that it is durable (`group_commit`, `flusher`).
- A transaction is logged as one frame, and a torn frame has no commit marker
  (`transaction`).

## What is trusted

- `text::show_duration`: that the debug text of a `std::time::Duration` depends
  on its length alone.
- `keyring::KeyringCell`: that an `arc_swap::ArcSwapOption` holds what was
  stored last, and that loading returns it.

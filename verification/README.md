# waterwheel

The scheduling core of a workflow scheduler, written in Verus. The decisions of
the scheduler are functions in `src/` whose contracts Verus proves; what comes
from outside crates and from the standard library's atomics and clock is
reached through small trusted wrappers, whose contracts are believed rather than
proved and are stated in their doc comments.

- `src/` — the library. Trigger schedules and catch-up (`schedule`), the
  scheduler's and the retry loop's queues and steps (`queue`, `scheduler`,
  `retries`), token decisions (`tokens`, `progress`, `execute`), rendezvous
  hashing of work between cluster members (`rendezvous`), task references and
  durations of job definitions (`reference`, `durations`, `api_types`), signed
  stash and configuration tokens (`jwt`), authorisation decisions (`auth`), the
  tokens overview (`overview`), log tailing (`logs`) and the shared message types.
  The outside crates it calls are xxhash, humantime, cron, chrono,
  binary-heap-plus, rand, regex-syntax, uuid and jsonwebtoken.
- `tests/` — tests of the library on concrete values.
- `app/` — the command around the library: configuration loading, reading key
  files, the JSON forms of messages, and the scheduler's waiting loops.

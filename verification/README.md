# reel

A library for the boundary between an agent's speculative work and the systems
that it does not own: an action that is discarded is never performed.

- `src/` is the library, verified with Verus: content-addressed blocks, named
  pointers, deltas, attenuating authority, views, the in-memory store with its
  reachability walk and collection, the effect classes, the kernel's verbs, and
  the decisions of the filesystem and Slack adapters. Each public function
  states what it returns and when; functions named `law_*` state properties that
  span several of them.
- `src/interop/` and `src/namespace.rs` hold the calls into other crates, each
  behind a contract that says what is relied on.
- `tests/` run the library with the real crates linked.
- `app/` is ordinary Rust around the library: the persistent store on `redb`,
  files on a disk, awaited transports and effects, and the serialised forms.

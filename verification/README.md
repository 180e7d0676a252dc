# residiuum_sdk

The verified client library of a document store. `src/` decides: it parses,
plans, checks, orders, hashes, caches and schedules, and every function states
in its contract what it decides. `app/` acts: it talks to stores and servers,
runs threads, reads the clock, and serializes, by asking `src/` what comes next.

- `src/` holds the library. The public proof functions named `law_*` state what
  holds across several functions. The functions marked `external_body`, the
  declared types and the functions without a body are what the proofs rest on;
  each says above it what it claims of which outside function.
- `tests/` runs the library on concrete values, with the outside crates linked.
- `app/` is ordinary Rust around the library.

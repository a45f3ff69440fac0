# secs_gem

SECS-II messages over HSMS, the way semiconductor equipment talks to a factory
host, as a Verus library: every function states what it returns, and Verus
proves it.

- `src/hsms.rs`: HSMS messages and their bytes.
- `src/item.rs`: SECS-II items and their bytes; floating-point values by their
  bits. `src/item_laws.rs` holds what is proved of them.
- `src/connection.rs`: a session, either side, as steps: what to write, and
  what becomes of what was read. `src/connection_laws.rs` holds what is proved
  of two sides and of whole operations.
- `src/target.rs`: what a target names. `src/target_laws.rs` holds what is
  proved of targets and origin URIs.
- `src/error.rs`, `src/text.rs`, `src/wire.rs`, `src/number.rs`: reasons for a
  refusal, numerals, big-endian words and the integers of numeric items.
- `tests/`: the library on concrete values.
- `app/`: the sockets and the traits of the `transport` crate around it.

Two calls into the standard library are trusted: `String::from_utf8_lossy` and
`format!` with `{:?}` on a `str`.

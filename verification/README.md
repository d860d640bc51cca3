# uid_generator_rs

Unique ID generation, verified with Verus: Snowflake-style 64-bit IDs
(41-bit timestamp, 10-bit machine ID, 12-bit sequence) and ULIDs (48-bit
timestamp and 80 random bits, written as 26 Crockford Base32 characters that
sort by time).

## Layout

- `src/snowflake.rs` — the generator: issuing IDs for clock readings, waiting
  out a backward clock or a used-up millisecond, decomposing IDs. Proved:
  while the milliseconds since the epoch stay below 2^42, each issued ID is
  greater than the one before it (so none repeats), and decomposition gives
  back the fields.
- `src/ulid.rs`, `src/ulid_order.rs` — ULIDs: creation, text encoding and
  parsing, the order of ULIDs. Proved: parsing a ULID's text gives the ULID
  back; a canonical text survives parsing and printing; text order, byte
  order and `<` agree; an earlier timestamp sorts first.
- `src/machine_id.rs` — FNV-1a, decimal parsing, and turning what was read
  from the environment, the network or the hostname into a machine ID.
- `src/radix.rs` — numbers as digit sequences, used by both ID kinds.
- `src/clock.rs`, `src/entropy.rs`, `src/text.rs` — the system clock, the
  `getrandom` crate, and string building.
- `app/lib.rs` — reading the machine ID sources from the operating system,
  and a generator shared between threads behind a mutex.

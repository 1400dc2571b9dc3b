# clob

A central limit order book with crankless matching and atomic settlement, written in Verus.

- `src/` is the verified library. Every function carries a contract, and what holds across
  functions is stated by the proof functions named `law_…`: the tree is a balanced ordered
  map, the queue is price-time priority, every fill is exact and fair, no history of
  operations on behalf of claimed seats creates, destroys or strands value, a market can
  always be drained, and whatever is written as bytes is read back.
- `tests/` runs the library on concrete values, with the outside crates linked.
- `app/` is the command-line program: arguments, files, keypairs, and a relay program that
  talks to the cluster.

A market account is a flat run of bytes. `src/bytes.rs` says which bytes each type is, and
`src/client/state.rs` decodes an account that nobody vouched for: damaged links are an error,
never a panic.

What the deployed program fixes (address seeds, account and event versions) is handed to the
library as `client::program::ProgramConstants`.

The operator program reads `.clob/config.json`, which names the relay, the program, the
keypair and those constants.

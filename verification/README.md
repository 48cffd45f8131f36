# freenet_bitcoin

Bitcoin observations on Freenet, as a verified library.

A bridge follows the Bitcoin chain and publishes what it sees, signed, in Freenet contracts:
one for each output script, and one for each network's recent blocks. Every claim that a
payment was made carries the transaction, its place in a block, and the headers on top of it,
so that a reader can check what was paid and to whom. Which blocks are on Bitcoin is the
bridge's word.

- `src/` is the library: the contracts' states and their merges, the evidence, and what a
  bridge decides. Every function there is verified with Verus against the contract in its
  header. The laws that relate several functions are public proof functions, most of them in
  `convergence`, `tip_convergence`, `fold`, `signing` and `inbox_laws`.
- `src/outside.rs` and `src/cbor.rs` hold the calls into other crates, with what is relied on
  them for. Nothing else is believed without proof.
- `app/` is the bridge itself: files, the database, the two nodes, HTTP and the clock around
  the library's decisions.
- `tests/` runs the library with the other crates linked.

# taron

A chain of blocks with its difficulty rules, the ledger that follows it, and the
decisions a node takes while it keeps its chain in step with its peers, written and
proved in Verus.

- `src/` is the verified library. It holds no socket, no file and no clock: records
  read from disk, messages of peers and moments of time come in as plain values, and
  writes, replies and requests come back as plain values.
  - `model`, `params`: what a chain is, as mathematics, and its constants.
  - `block`, `codec`, `hash`, `records`: blocks, their stored bytes, their hashes,
    and the key-value records a chain lives on, with a journal of pending writes.
  - `blockchain`, `load`, `apply`, `difficulty`, `queries`: opening, extending,
    taking back and reading the chain.
  - `ledger`: what the chain asks of a ledger, and a ledger of plain accounts.
  - `node`, `session`, `batch`, `sync`, `peers`, `transactions`, `geo`: the node.
  - `laws`, `history_laws`, `difficulty_laws`, `locator_laws`, `ledger_laws`,
    `node_laws`: what holds of all of this, proved over the same definitions.
- `tests/` runs the library on concrete values.
- `app/` is the running node around the library: sockets, RocksDB, HTTP, tasks. What
  a particular network brings along (peer table, mempool, wire protocol, header
  hash, signatures) comes in through the traits in `app/services.rs`.

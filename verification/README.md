# indexer

An indexer for an Ethereum beacon chain: it follows the chain's blocks, tracks the
requests it sends to peers, gathers blocks into epochs and turns them into rows,
vote lists and ranked indexes that a static web front end reads as MessagePack files.

The library in `src/` is written in Verus; every function there carries a contract
that Verus proves, except the few wrappers around calls into outside crates
(MessagePack encoding, random choice of peers), whose contracts are trusted and say
in their doc comments what they claim.

- `types/` — the models of blocks, epochs, validators and deposits, and the rows
  derived from them.
- `network/` — the peer-facing state machines: block requests by range and by root,
  the request manager, channels, peers, the persist service and its workers.
- `workers/` — the index worker, the vote counting of stored blocks and the
  validator worker.
- `persistable*`, `orderable`, `msgpack` — ranked indexes of the epochs and their
  MessagePack files.
- `node_to_files_indexer` — the whole index of a retrieved stretch of chain.

`app/` is the command line program around the library: argument parsing, logging and
file input and output.

# torsten-network

The network layer of a Cardano node: the Ouroboros mini-protocols that the node speaks
with other nodes (node-to-node) and with local clients (node-to-client), multiplexing, and
peer management. The library in `src/` is verified with Verus.

## Layout

- `src/cbor.rs`: CBOR items as byte sequences, and the calls into `minicbor`. These calls
  are the only trusted items of the library.
- `src/mux/`, `src/multiplexer.rs`, `src/receive.rs`: segments, channels, when and in
  which order to send, and the limits of what is received.
- `src/n2n_server/`: handshake, ChainSync, BlockFetch, TxSubmission2, KeepAlive and
  PeerSharing with other nodes; how often a host may connect.
- `src/n2c/`: handshake, LocalStateQuery with the encoding of all results,
  LocalTxSubmission, LocalTxMonitor and LocalChainSync with clients.
- `src/n2c_server/`: a plain variant of the node-to-client server.
- `src/n2c_client.rs`: the channels that a client opens.
- `src/peer.rs`, `src/peer/`, `src/peer_manager.rs`: which peers are known, which ones to
  connect to and which ones to let go.
- `app/`: sockets, tasks and the floating-point scores of peers.
- `tests/`: tests of the library.

## How contracts are written

What a handler sends is stated byte for byte: each message has a spec function that gives
its bytes, and each handler says which message it answers with and how the state of the
connection changes. Blocks and transactions come from implementations of `BlockProvider`
and `MempoolProvider`, which may change between any two calls; a handler that asks them
says what follows from each possible answer.
What a mempool may be given is a requirement of the methods that add transactions: a
handler that may only pass on what was validated, or what was requested, adds nothing
else.

A connection is a state with a function for each event: bytes came in, a block was
announced, the chain was rolled back. Each says what to send, and whether to wait or to
close the connection; `app/` does so.

Time is an argument: functions that depend on it take a reading of a clock that is never
set back. Scores of peers are floating-point numbers; the library sees them as integers in
the same order.

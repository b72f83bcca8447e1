# FaultyCoin node

The decision logic of a simplified blockchain node, verified with Verus. Nodes form a
peer-to-peer network and exchange blocks, transactions and block requests as JSON text over
TCP, each message followed by a zero byte.

- `src/data.rs`: blocks, transactions, messages.
- `src/gossip_service.rs`: which peers hear of which blocks and transactions.
- `src/peer_service.rs`: whom to dial, session numbers, where commands go.
- `src/session.rs`: reading and writing the messages of one session.
- `src/session_laws.rs`: what holds of a session from its first byte to its end.
- `src/mining_service.rs`: the block to mine and the rounds in which it is mined.
- `src/miner.rs`: the search for a nonce.
- `src/laws.rs`: what holds of the services together, and of miners that work at the same time.
- `app/`: the threads, sockets, channels and JSON around the library. The block forest and the
  rules of the chain are parameters (`app/chain.rs`).

| Service | Parameter | Meaning |
| --- | --- | --- |
| peer | `listen_address` | where to listen for peers |
| peer | `dial_addresses` | the peers to connect to |
| peer | `dial_cooldown` | how long to wait after a failed attempt to connect |
| gossip | `eager_requests_interval` | time between rounds of requests for unknown blocks; none if zero |
| mining | `thread_count` | how many miners search at a time |
| mining | `max_tx_per_block` | how many transactions a block holds at most |
| mining | `public_key` | who is paid for a block |

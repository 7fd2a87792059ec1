# dal

`dal` is a replicated, partitioned key/value store. Keys are hashed to
partitions, every partition is a Raft group, and a meta group holds the node
directory, the placement map and the search catalog.

The library under `src/` decides; the program under `app/` acts. Every decision
(what a command does to the records, where a replica moves, who answers a read,
which frame goes where, what a node may start) is a Verus function on plain
values with a contract, and the properties that span functions are proof
functions named `law_*`.

| module | what it decides |
| --- | --- |
| `types`, `wire`, `transport`, `error`, `time`, `config`, `search` | the vocabulary and its validation |
| `keyspace`, `bytes`, `codec`, `hashing` | keys and serialized records |
| `partition` | the data groups: commands, log, snapshots, reads, recovery |
| `meta` | the meta group: directory, placements, plans, catalog, bootstrap |
| `placement` | which replica moves next |
| `api` | clients: routing, retries, the gateway |
| `runtime` | a node: start, dispatch, rebalancing, discovery, status, operators |
| `cli`, `perf`, `number`, `text`, `sets`, `assoc`, `tables`, `strings` | support |

`app/` holds the sockets (ZeroMQ), the database (RocksDB), the consensus runtime
(openraft), the HTTP plane (axum) and the command line. `tests/` runs the
library.

What the proofs rest on beside Verus and `vstd`: the contracts of
`codec::{encode, decode, encoded_len}` (bincode), `hashing::{hash_128, hash_64}`
(xxHash), `keyspace::text_of_utf8` and `text::quoted` (the standard library).

# nodedb_lite

The logic of an embedded multi-model database: key-value entries, columnar rows,
documents, vectors, graph edges, full-text search and the joins over them, with
offline writes that are queued for replication.

`src/` holds the verified library. Its functions take what was read from the
store and return what is to be written and answered, so that each of them is a
function of plain values with a contract. `app/` holds the host: storage, locks,
timers, the in-memory engines, and the arithmetic on fractions.

| Module | What it decides |
| --- | --- |
| `policy`, `dispatch` | which operations are refused and which handler runs the others |
| `kv` | key-value writes, counters, field updates and transfers |
| `columnar` | line protocol, payload decoding, inserts, updates and deletes of rows |
| `document`, `steps` | the ordered steps of document writes and history |
| `vector` | identifiers, tombstones and sidecars of vector indexes, and their writes |
| `graph` | edge keys and edge writes |
| `query` | catalog, scans, point reads, joins, lateral joins, sorting, text search |
| `persist` | the queue of unacknowledged mutations, flushing and restoring |
| `sync` | refusals, producer state and remote rows |
| `open`, `health` | configuration, background tasks, health reports |
| `filter`, `expression`, `timestamp` | which predicates and expressions a row answers, and their verdicts |
| `wire`, `json`, `native`, `render` | the boundary to the value and encoding crates |

Contracts are stated over views: sequences of bytes and characters, maps of
fields, and plan values. Laws that span several functions are public proof
functions beside the code they speak of, most of them in the `laws` modules.

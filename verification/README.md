# iedb

A store for time series at the edge. An agent takes line protocol, keeps the rows in
memory behind a log, and hands them to a server as Parquet files. The server keeps the
files and what is known of their tables, answers SQL over them, and can ask the agents for
the rows that they still hold.

- `src/` is the library: what the agent and the server decide and compute, with contracts
  that Verus proves.
- `src/agent/`: the buffer, the log, writes, snapshots and uploads, heartbeats, and what
  survives a crash (`recovery.rs`).
- `src/server/`: ingest, metadata, agents, compaction, SQL, and the queries that reach into
  the memory of the agents (`federation/`).
- `app/` is the program around it: files, sockets, SQLite, Parquet and DataFusion.
- `tests/` runs the library on concrete values.

What the library takes from other crates stands behind small functions marked
`external_body`, each with a comment on what is believed of the crate.

# redis_lite

The core of a small Redis-style server, verified with Verus.

- `src/resp.rs`: RESP values (`Resp`) and their model (`RespValue`).
- `src/decode.rs`, `src/encode.rs`: reading and writing RESP bytes, each
  stated by spec functions over byte sequences; `src/roundtrip.rs` proves
  that bulk strings and arrays of them read back as written.
- `src/store.rs`: the key/value store with per-entry expiry.
- `src/pool.rs`: the pool of workers connections are handed to.
- `src/server.rs`: the server state and the command dispatcher (`PING`,
  `ECHO`, `GET`, `SET`, `INFO`, `REPLCONF`, `PSYNC`, `WAIT`);
  `src/replication.rs` and `src/rdb.rs`: how a replica finds and greets its
  master, and the snapshot a master sends.
- `app/`: the program around the library: command line, sockets, threads
  and the replication channel.

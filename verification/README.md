# aether-cache

An in-memory cache that speaks the Redis Serialization Protocol (RESP), with its logic verified by
Verus.

- `src/` is the library. Requests are parsed out of a read buffer without copying payloads
  (`grammar`, `parse`), decoded (`command`), executed on a cache of independently locked shards
  (`shard`, `map`, `entry`, `store`, `server`) and answered (`reply`, `wire`). Two eviction policies
  trim a shard to its capacity (`eviction`). `buffers`, `map`, `locks` and `clock` state what is
  relied upon of the `bytes`, `hashbrown` and `parking_lot` crates and of the system clock.
- `app/` is the TCP server around it, on port 6379.
- `tests/` exercises the library.

What other threads may change at any time, such as the contents of a locked shard, an access counter
or the keys waiting in a read buffer, is not part of any value that a contract speaks of. The
functions that touch it say instead which calls they make: that under the lock of this shard
`store_value` was given this key and value, for example, or that this counter was advanced. What those
calls do to the value that they find is stated exactly by their own contracts.

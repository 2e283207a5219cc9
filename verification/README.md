# miniredis

A small Redis-compatible server whose core is verified with Verus.

- `src/` is the verified library: the RESP request parser (`parser`), decimal
  text (`decimal`), the key-value store with string and list values, key
  expiry and clients blocked on a list (`data_store`), the command executor
  (`executor`), the RESP answer text (`resp_serializer`), the active expiry
  cleanup (`key_recycler`), the handling of the bytes a client has sent
  (`connection`), the radix tree of stream ids (`streams`), the error texts
  (`redis_error`), and the properties that relate several operations (`laws`).
- `app/` is the server around it: the TCP listener, the per-connection read
  and write loop, the log file, the timer of the cleanup, and BLPOP's wait.
- `tests/` runs the library on concrete inputs.

Times are milliseconds on the server's monotonic clock; the server reads the
clock and hands the library the current time.

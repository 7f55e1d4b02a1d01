# rust_redis_rs

A Redis client whose protocol logic is written in Verus and proved against
its contracts.

- `src/` is the verified library: RESP encoding (`parser::append_args`) and an
  incremental RESP decoder (`parser::parse_reply`, which works on a byte buffer
  and says when it needs more input), the decoding of every reply type the
  client reads, the typed commands (`commands`), the bookkeeping of the
  connection pool (`pool`), pipelines and transactions (`pipeline`, `multi`),
  pub/sub messages (`pubsub`), Lua scripts and their SHA-1 names (`script`)
  and Sentinel replies (`sentinel`).
- `app/` drives the library over Tokio: sockets and timeouts, the async pool
  with its semaphore, and the async `Client` with one method per command.
  Floating-point scores and values are read there too.
- `tests/` runs the library on concrete inputs.

Laws that span several calls are stated as proof functions named `law_*`,
next to the functions they speak of.

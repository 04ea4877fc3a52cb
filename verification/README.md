# pooledsmtp

A pool of reusable SMTP connections for high-throughput e-mailing, with graceful
handling of idle connections, timeouts and retries. The message layer and the
decisions of the pool are verified with Verus.

## Layout

- `src/` is the verified library.
  - `header`, `fields`, `address`, `encoding`, `multipart`, `names`: what messages
    are made of.
  - `email`, `render`, `stamp`, `parse`: the message model, its MIME serialization
    and parsing; `readback` states what parsing gives back of a rendered message.
  - `smtp`, `pool`, `span`, `error`: dialling, envelopes, the classification of
    errors, and the decisions of the pool.
  - `text`: text primitives.
- `app/` meets the outside: readers and files, connections over the network, and
  the pool with its threads.
- `tests/` runs the library.

## Behaviour

- **Connection reuse rule**: after a failed send, a network error or SMTP `421`
  (rate-limit) closes the connection; other SMTP errors (e.g. `550`) issue `RSET`
  and return the connection to the pool.
- **Retries**: messages are retried up to `max_message_retries` times on network-type
  errors and on errors of the addresses in their envelopes, with an optional
  `message_retry_delay`.
- **Lazy growth** up to `max_conns`, a background idle sweeper, and a single
  `pool_wait_timeout` used for dialling, borrowing and returning connections.

Contracts stand with the functions. Properties that relate several functions are
stated by the public proof functions whose names start with `law_`.

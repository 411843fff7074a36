# sockudo_ws

WebSocket building blocks whose behaviour is stated in contracts and proved by
[Verus](https://github.com/verus-lang/verus).

`src/` is the library. It decides and computes; it reads and writes no socket.

| Module | What it holds |
|--------|---------------|
| `handshake`, `opening`, `headers`, `http_text` | The opening handshake over HTTP/1.1: reading, checking and writing both heads |
| `handshake_laws` | What the two sides of a handshake promise each other |
| `extended_connect`, `http2`, `http3` | Extended CONNECT over HTTP/2 and HTTP/3 |
| `axum_integration` | Upgrade requests as a framework presents them |
| `deflate`, `deflate_laws`, `zlib` | permessage-deflate: negotiation, compression, expansion |
| `simd`, `mask`, `utf8` | Frame masking and UTF-8 validation, of fragments too |
| `cork`, `buffers`, `receive`, `io_uring` | Write batching and read buffers |
| `pool`, `queue` | Slabs, arenas, buffer pools and bounded queues |
| `pubsub`, `dash` | Topic-based publish/subscribe |
| `stream`, `split`, `compio`, `clock` | The state machines of a connection |
| `protocol`, `error`, `transport`, `text`, `codec` | Messages, errors and helpers |

Calls into other crates stand behind items whose doc comments say what is
believed of them without proof. Functions whose names begin with `law_` state
what holds of several functions together.

`app/` performs the input and output that the state machines ask for, on Tokio,
tokio-uring and Compio, and connects the library to Axum, h2, h3 and quinn. The
frame codec and the heartbeat come from the program that uses it, through the
traits of `app/codec.rs`.

`tests/` runs the library from outside.

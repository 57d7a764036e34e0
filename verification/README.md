# heavy

A reverse proxy that shields an upstream service from excess load. While the load is high, clients
have to solve a proof-of-work puzzle in the browser, once, before their requests are passed on.

The logic of the proxy is a library that is verified with Verus. The program around it does the
input and output.

## The library (`src/`)

- `gateway`: what becomes of a request, the proxy's own replies, and what is logged.
- `challenge`: puzzles, proofs of work, and the tokens that they earn.
- `headers`: client address, user agent, cookies, and the headers that are passed on.
- `whitelist`: paths and networks that are never challenged.
- `config`: environment over configuration file over defaults.
- `latency`, `breaker`: when the load is high; `float_bits` orders the numbers that they compare.
- `access_log`: the entries of the log, and the steps of the task that writes it.
- `socket`: the commands of the debug socket.
- `ml`: features of requests, samples of them, and the lock on the data directory.
- `clock`, `crypto`, `ip`, `text`, `numbers`: what the others are built on.

What is known of other crates (BLAKE3, ChaCha8, regular expressions, header maps and so on) stands
in contracts of small functions marked `external_body`; each says which function it calls and what
it claims of it. The functions named `law_...` state what holds of the library as a whole.

Decisions that depend on the clock come in two forms. The one whose name ends in `_at` takes the
reading of the clock as an argument, and its contract is exact; the other reads the clock itself.

## The program (`app/`)

`main` accepts connections, asks the gateway what becomes of each request, and does that. The
moving averages and the backoff of the circuit breaker are computed here, in floating point; the
library holds the numbers as bits and decides by their order.

# solana-rpc-cluster

A Solana RPC proxy in front of several nodes: JSON-RPC, WebSocket, Yellowstone gRPC and aRPC behind
one endpoint, with health checks, failover, transaction fan-out, deduplicated gRPC streams, limits
per address and per key, and a dashboard.

## Layout

`src/` is the library, written in Verus: the rules that the proxy goes by, each with a contract that
is proved:

| Module | What it decides |
|---|---|
| `config` | What a configuration comes to, and what its limits add up to |
| `cluster` | Which nodes are up (`health`), which one serves a request (`router`), who connects a channel (`grpc_pool`) |
| `middleware` | Who may use the proxy (`ip_whitelist`, `api_keys`), how often (`rate_limiter`, over the `limiter` of `governor`), and the firewall's rules |
| `proxy` | How each protocol answers, what gRPC clients are sent, and when a stream is over |
| `stats` | The counters, per address and in all |
| `dashboard` | Credentials, what is shown, and changes to addresses and keys |
| `shadow` | The plan of a probe of an upstream, and each step of it |
| `text`, `names`, `net`, `codec`, `chance`, `dash` | Text, named entries, addresses, and the crates that the library calls |

Functions named `law_...` state what holds across several operations.

`app/` is the program around it: sockets, files, signals, timers and serialization. `tests/` runs the
library on concrete values.

## Time and chance

The library takes the time as an argument. A limiter of `governor` reads its own clock, and chance
decides the random part of keys and waits, so that contracts leave open what these bring. They do say
which limiter is asked and how often, that what is random was drawn, what a limiter answers as long as
it is asked at one instant, and what follows from each outcome.

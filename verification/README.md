# subspace_daemon

A daemon that keeps connections to Subspace servers, decides with receptors which messages deserve
attention, stores the accepted ones and wakes agent sessions with them through a local gateway.

The library under `src/` is verified with Verus. Every function states in its contract what it
returns or changes; the laws that hold across functions are public proof functions whose names begin
with `law_`. The program under `app/` does the input and output: it asks the library what to do, does
it, and reports back what happened.

## The library

| Module | What it holds |
| --- | --- |
| `config`, `paths`, `server_url` | the configuration and its defaults, paths, canonical server URLs and server keys |
| `attention` | receptor packs, the attention layer and its decisions, embeddings of messages going out |
| `runtime_store` | which messages have been handled, and the pauses after failures to connect |
| `subspace` | identities, sessions, authentication, the connection to a server and its manager |
| `gateway` | the device, its tokens, the protocol of the gateway and the connection to it |
| `supervisor` | the health of the daemon, the way of an accepted message to its sinks, the parts that are started |
| `ipc`, `setup`, `cli` | requests of local clients, setting up a server, what the commands decide |
| `storage`, `hard_failure`, `launchd`, `build_info` | rows of the delivery database, failure hooks, the service description, the build |
| `text`, `json`, `sorted_map`, `clock`, `retry`, `crypto`, `websocket`, `failure`, `lists` | what the others are built on |

A connection is a state machine. `ServerConnection`, `ServerManager`, `GatewaySession` and `WakeRun`
take what has happened and return what is to be done next; none of them reads a clock, a socket or a
file.

Floating-point numbers pass through the library as their bits: it compares them and writes them in
decimals, and leaves arithmetic on them to the program.

## What is trusted

Calls into `url`, `serde_json`, `time`, `base64`, `sha2`, `ed25519-dalek` and `pkcs8`, and a few into
the standard library, stand in small functions whose contracts are believed rather than proved. Each
says in its doc comment what it claims of the function that it calls.

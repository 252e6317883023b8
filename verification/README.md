# supergateway

A gateway between the transports of the Model Context Protocol. It runs a server that
speaks over stdio and offers it over Server-Sent Events, WebSocket or streamable HTTP
(with or without sessions), or it reaches a remote server and offers it over stdio.

The decisions of the gateway are a library whose contracts Verus proves: what is done
with a request, a line of a child, an event of a stream or a timer, as functions from a
state and an input to the next state and what is to be done. A thin program around it
owns the sockets, the processes and the threads.

## Layout

- `src/` is the library.
  - `jsonrpc`, `json`, `members`, `codec`: messages, and lines of them on the standard
    streams.
  - `client::sse`, `client::http`: reading an event stream; requests, redirects and the
    session of a remote server.
  - `gateway`: the transports. `hub` holds the clients of a broadcast and their queues,
    `mux` the ids of requests that share one child, `exchange` the answers that a POST
    waits for, `reply` what all servers answer alike.
  - `session`, `store`: sessions with their timers and their bound.
  - `serve`, `h1`: HTTP requests and answers, and WebSocket frames, as bytes.
  - `cli`, `cors`, `health`, `oauth2`, `error`, `observe`, `child`: flags and their
    rules, cross-origin headers, health checks, the authorization server, error answers,
    log lines and counters, the life of a child process.
  - `text`, `pairs`, `system`: strings, header lists, clocks and random names.
- `app/` is the program.
- `tests/` runs the library on concrete values.

A public proof function whose name begins with `law_` states what holds across several
functions; its doc comment says it in words. Functions marked
`#[verifier::external_body]` call another crate or the standard library, and their doc
comments say what is believed of the call.

# rustbox

The logic of a proxy engine, verified with Verus: wire formats, DNS policy,
traffic inspection, session multiplexing, and the decisions that inbound and
outbound services take.

## Layout

- `src/` is the library. Verus verifies all of it: what a function returns or
  changes is stated over spec functions and views of the data.
  - `types`, `octets`, `text`, `address`, `table`, `events`: shared values.
  - `crypto`: digests, ciphers, base64, identifiers and random numbers, each
    behind one function whose contract is taken on trust.
  - `codec`: SOCKS5 messages.
  - `dns`: rules, cache, reverse memory, made-up addresses, servers, packets.
  - `inspect`: what the first bytes of a flow tell.
  - `anytls`: settings, padding, sessions, pipes, UDP over TCP.
  - `transport`: TLS layers and pins, HTTP/2 tunnels, Mux.Cool, ShadowTLS.
  - `outbound`, `inbound`, `stack`: one module per protocol.
- `tests/` runs the library with the real crates linked.
- `app/` is ordinary Rust around the library: sockets, TLS handshakes, files.

Nothing in `src/` waits. What reads or writes a stream is a value that takes
the bytes that came and says what to do next, so that `app/` is left with loops
that read, write and hand over.

## What is taken on trust

Functions marked `#[verifier::external_body]` call another crate. Their doc
comments name the call and say what is claimed of it. Names declared with
`uninterp` stand for results that depend on the arguments alone.

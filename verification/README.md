# tcp_chat

A small TCP chat service whose decisions carry machine-checked proofs.

- `src/` is the verified library:
  - `chan`: channels of text, numbered per pair, and the outbox that alone
    sends on them and records every hand-over;
  - `roster`: peers by address, none twice (a type invariant), with
    broadcast;
  - `state`: the server's handling of events and one session's step;
  - `server::state`, `server::relay`: the standalone server's roster,
    sessions and relay framing;
  - `terminal`: what the client shows of a received line.
- `app/` holds the programs around it (`server`, `standalone`, `events`,
  `client`): sockets, the async runtime, the terminal, and the loops that
  perform the actions the library returns.
- `tests/` runs the library on concrete values.

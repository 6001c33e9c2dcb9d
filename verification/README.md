# payjoin-harness

Runs a payjoin between two boards that talk to a host over serial links.

- A board plays the sender role, the receiver role, or answers the version 2
  probe. It needs nothing but a `Transport`: something that sends and receives
  bytes.
- The host relays frames between two boards without looking into them. On the
  way it gives a request (`OutRequest`) the tag that a receiver accepts
  (`OriginalPsbt`), and a proposal (`SignedPsbt`) the tag that a sender accepts
  (`InResponse`). Without that translation both boards refuse.
- Frames are `[command][length, low byte first][payload][crc16, low byte first]`,
  with at most 4096 bytes of payload.

`src/` is the library, verified with Verus: every function states what it
returns, and reading and writing are stated over the log of the link. The laws
that hold across functions are in `src/proto_laws.rs` and `src/session_laws.rs`.
What the `payjoin`, `bitcoin` and `base64` crates compute is called through the
wrappers in `src/bip78.rs`, whose contracts are trusted.

`app/` opens the serial ports:

```
payjoin-harness --sender-port <port> --receiver-port <port>
payjoin-harness --mode v2-probe --device-port <port> --seed <text>
payjoin-harness sender-sim <device-port>
payjoin-harness receiver-sim <device-port>
```

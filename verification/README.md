# mc_honeypot

A Minecraft honeypot proxy: it forwards every client connection to a real
server, and records who pinged it or tried to log in, reporting each event and
a running summary to Discord webhooks.

- `src/` is the verified library (Verus): VarInt reading (`varint`), framing
  and packet selection (`packet`), the client database (`database`), the
  report texts and the summary webhook's bookkeeping (`webhook`), the settings
  (`config`), the decision what to record (`logger`) and text helpers (`text`).
- `app/` is the program around it: the TCP proxy, file and HTTP I/O, packet
  decoding with azalea-protocol, and the serde and clap copies of the settings
  and records.
- `tests/` runs the library on concrete values.

# colorsky_udp

UDP game server for *Sky: Children of the Light*, on ENet with CRC32
packet checksums. The library holds the wire protocol, the snapshot codec
and every decision of the server, each function with a Verus contract;
the program around it runs ENet and reads the command line and config.

## Layout

- `src/protocol/` – packet and game message framing, level data, UUIDs.
- `src/utils/` – byte helpers, player IDs, connection magic, hex previews;
  `snapshot.rs` is the delta/key/raw frame codec with its RLE, and
  `snapshot_laws.rs` proves its laws over sequences of calls: a reader
  that holds the frame the writer diffs against decodes what the writer
  emits, and from a fresh writer and reader this holds whatever states,
  acknowledgments and forced keyframes come; a writer made without ack
  tracking never tracks acks; a keyframe comes at least every
  `KEYFRAME_INTERVAL` deltas; and after too many missed acks the writer
  sends raw frames until an ack is accepted or a keyframe forced.
- `src/server/` – the connection table and the handlers. `model.rs`
  states what each handler does over the abstract state; the handlers
  return the packets to send as `Outgoing` values; `laws.rs` holds
  properties over all inputs.
- `src/config.rs` – defaults and the priority command line > config file >
  defaults.
- `app/main.rs` – command line, config file, and the ENet event loop that
  feeds events to the library and sends what it returns.
- `tests/` – scenario tests of the library.

## Running

```bash
cargo run --release -- --host 127.0.0.1 --port 7777
cargo run --release -- -c path/to/config.toml
```

```toml
[server]
host = "0.0.0.0"
port = 9999
```

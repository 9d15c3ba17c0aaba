# ggrs

Rollback networking building blocks, verified with Verus.

The library (`src/`) holds the logic, each function with a contract that Verus proves:

- `input_queue` — the per-player ring of inputs with frame delay, prediction of missing
  inputs and detection of mispredictions, plus the laws that tie reads to writes.
- `network::compression` — the wire format of input bytes: delta encoding against the previous
  input with length prefixes, then run-length encoding (through `bitfield-rle`), and the
  round-trip law.
- `network::protocol` — the endpoint of the peer-to-peer protocol with one remote client:
  handshake, compressed input exchange with acknowledgements, quality reports, keep-alives,
  interruption and disconnect detection. Time is passed in, messages to send are handed out,
  received messages are handed in; random values come from `rand`.
- `time_sync` — frame-advantage bookkeeping and the recommended wait.
- `classic` — the byte-buffer API: sync layer (saved-state ring, input queues, confirmed
  frame), the sync test session that rolls back and resimulates every frame, and the
  peer-to-peer session that keeps one protocol endpoint per remote player, confirms frames,
  propagates disconnects and rolls back on mispredictions.
- `ggez` — the first API generation: its input queue, sync layer and data types.
- `sessions` — the player registry, the session builder's validation, and the spectator
  session that follows a host and hands out its confirmed inputs frame by frame, catching up
  when it falls behind.
- `box_game` — a small deterministic game used to exercise sessions, with its state encoding
  (through `bincode`) and checksum (through `adler`).
- `frame_info`, `error`, `init_pad`, `ggpo`, `network::messages` — data types.

`app/` holds what touches the operating system or needs outside derives: a non-blocking UDP
socket, serde copies of the message types, displayable error types, the wall clock, and the
loops that run a protocol endpoint or a peer-to-peer session over the socket and the clock.

`tests/` exercises the library with concrete scenarios.

Not here: the request-based sessions (a peer-to-peer session and a sync test that hand the
game a list of save, load and advance requests, with sparse saving, wait recommendations and
desync detection), their sync layer with shared state cells, and the builder functions that
start them. Their code refers to a generation of the library that is not otherwise present
(other error, event and request types, an input queue generic over the input type, endpoint
methods that do not exist), so it would have to be redesigned rather than verified as written.
The byte-buffer sessions in `classic` play the same roles over the same endpoint.

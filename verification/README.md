# livesplit_plugin

The verified core of a ClassiCube plugin that drives a LiveSplit timer.

- `src/decode.rs` — receiving a track over chat: the `LS ...` line grammar
  and the state machine that buffers checkpoints until a track is complete,
  with its laws (a title resets, rejected lines keep the state, a loaded
  track is complete, one colour code is ignored).
- `src/encode.rs` — sending a track over chat as lines of at most
  `MAX_LINE_CP` characters, with its laws.
- `src/protocol.rs` — timer commands as lines of the desktop line protocol,
  and the timer events acted on.
- `src/geometry.rs` — tracks, checkpoints, triggers and boxes, with views.
- `src/fixture.rs` — the load-test track.
- `src/command.rs` — the answer to the `/client LiveSplit` chat command.
- `src/text.rs` — character classes, search and split, decimal rendering
  and parsing over `Seq<char>`.
- `app/` — the game-facing plugin: chat output, command registration, the
  per-thread receiver, the FFI speed global and serde forms of the commands.

The sender and the receiver frame a track differently. The receiver reads
`LS start` for the first checkpoint and `LS endcp` / `LS endmap` for the
last, and a track is loaded when the last one is labelled; the sender
writes every box as `LS cp`, every map as `LS map`, and closes with
`LS end`, a keyword the receiver does not know. So a track that
`encode_for_chat` writes is not loaded by `feed_chat_line`: the first
`LS cp` after the title is answered with "no `LS start` yet".

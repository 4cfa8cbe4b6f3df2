# creek

Realtime-safe disk streaming of audio files, verified with Verus.

A read stream hands a realtime thread blocks of a file that an IO server
thread decodes ahead of the playhead, with caches of chosen regions (such as
the start of a loop) that let a seek resume at once. A write stream collects
the realtime thread's frames in blocks that an IO server thread encodes.

## Layout

- `src/` is the verified library:
  - `read/`: the read stream (`read_stream.rs`: prefetch slots, caches,
    seeking, reading), its IO server (`server.rs`), blocks and errors.
  - `write/`: the write stream (`write_stream.rs`), its IO server
    (`server.rs`), blocks, errors and the naming of extra files.
  - `wav/`: sample formats, the RIFF/WAVE header (`header.rs`), sample
    encodings (`wav_bit_depth.rs`) and the bookkeeping of a WAV encoder
    (`encoder_state.rs`).
  - `decode.rs`: the position bookkeeping of a packet decoder.
  - `channel.rs`: the ring-buffer channels between a stream and its server.
- `app/` runs the servers on threads, opens streams, and holds the WAV file
  encoder and the symphonia decoder, which work on files and floats.
- `tests/` exercise the library, streams against their servers included.

# rkyv_codec

Length-prefixed framing of [rkyv](https://github.com/rkyv/rkyv) archives, with
its behaviour stated in contracts and proved by Verus.

A frame is the length of an archive, followed by the archive. The length is
written by a `LengthCodec`: a varint (`VarintLength`) or a big-endian integer of
fixed width (`U8Length`, `U16Length`, `U32Length`, `U64Length`). Frames travel
three ways:

* in byte buffers: `archive_sink_bytes` and `archive_stream_bytes`;
* over streams: `RkyvWriter` and `archive_sink` say what to write,
  `LengthReader` and `archive_stream` what to read;
* in a growing buffer, packet by packet: `RkyvCodec`.

## Layout

* `src/` is the verified library. `length_codec.rs` holds the trait of length
  codecs, `varint.rs` and `big_endian.rs` its implementations, `frame.rs`,
  `rkyv_codec.rs` and `framed_codec.rs` the three ways above, `error.rs` the
  errors, `buffers.rs` the buffers that frames are read from and written to.
  `laws.rs` states what these promise together: what was written is read back,
  in order, and what is cut short is refused. `outside/` says what is relied on
  of the crates `bytes`, `rkyv` and `unsigned_varint`.
* `app/` is ordinary Rust on top: packets of any archivable type, `AsyncRead`
  and `AsyncWrite`, a `Sink`, and a codec for `asynchronous_codec`.
* `tests/` runs the library.

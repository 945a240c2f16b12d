# osu_editor

The core of an osu! beatmap editor, verified with Verus.

- `src/dotosu/`: the `.osu` text format. Each section has a reader whose
  contract says, over the section's lines, when it is accepted and what it
  holds, and a writer whose contract gives the exact text. `roundtrip.rs`,
  `objects_roundtrip.rs`, `events_roundtrip.rs` and `events_layout.rs` prove
  that what the writers write reads back (the storyboard commands nested as
  they were), and `file_roundtrip.rs` that a whole written file does: each
  section is found under its header, line for line as written. Decimal
  numbers are held as the text the file gives; `src/float_syntax.rs` states
  which texts read as an `f64`, and the readers refuse any other.
- `src/files.rs`, `src/exports.rs`, `src/archive.rs`: file names, the asset
  store of a beatmapset, the files of an export and their `.osz` archive
  (when packing succeeds, and that unpacking gives the files back where
  each is under `u32::MAX` bytes and none is named as a directory).
- `src/gui.rs`, `src/dialogue.rs`, `src/editor.rs`: the pointer's hover and drag
  state machine, choosing a dialogue entry by text, the rename box, sample
  sets and bookmarks.
- `src/audio.rs`, `src/audio_cache.rs`, `src/variant_cache.rs`,
  `src/planar.rs`, `src/msaa.rs`, `src/geometry.rs`: the audio clock's integer
  side and the blocks of music to queue, the rendered-audio cache (its file
  names, its format, and the variants kept in memory), sample buffers per
  channel and interleaved, the multisample count, and a point shared between
  threads.
- `app/`: the shell around the library: files on disk, prompts, floating-point
  geometry, the clock in milliseconds, the hitbox handlers, and the audio
  engine (decoding, resampling, time-stretching, mixing and the output
  device).

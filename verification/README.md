# shiguredo_mp4 (verified parts)

Building blocks for MP4 (ISO base media file format), written in Verus and
proved against their specifications:

- `aac`: AudioSpecificConfig parsing and encoding, ADTS frames, and the
  `mp4a` sample entry built from an AudioSpecificConfig.
- `sample_entry`, `sample_entries` and the configuration boxes (`avcc`,
  `hvcc`, `config_simple`, `dfla`, `esds`, `subtitle`, `tx3g`): the `stsd`
  sample entries, each with an encoder and a decoder proved to round-trip.
- `codec_string`: RFC 6381 `codecs` strings of sample entries.
- `segment_muxer` (with `fmp4`, `fmp4_init`, `fmp4_media`, `init_boxes`,
  `media_boxes`, `mux`): a fragmented MP4 muxer that learns its tracks from
  the samples of each media segment and builds the initialization segment,
  media segment heads (optionally behind a `sidx`) and the `mfra` index.

The specifications are spec functions over the values' views; the laws of
the muxer (the layout of the initialization and media segments, sequence
numbers, decode times, random access entries, data offsets, sample entries,
and what a series of segments leaves) are public proof functions in
`segment_muxer` and `fmp4_init`.

`tests/` holds the executable tests.

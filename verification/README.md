# mp4

Reading and writing of ISO base media file format (MP4, ISO/IEC 14496-12)
boxes, verified with Verus.

Each box type has a decoder that reads it from an in-memory buffer (a
`Reader`) and an encoder that appends it to a `Vec<u8>`. Their contracts
state, over spec functions on byte sequences, exactly which value a decoder
produces from which bytes and which bytes an encoder appends. The
`lemma_*_roundtrip` proof functions in each box module prove that decoding
what an encoder produced gives the value back, under the conditions their
`requires` name (fields that fit the bytes they are written in, sizes that
fit in 32 bits).

Layout:

- `src/` — the verified library: box headers, descriptors, the box types
  under `src/mp4box/`, media and track configuration, fixed-point numbers,
  four-character codes and sample flags. Big-endian integers are read and
  written through `byteorder`.
- `app/` — ordinary Rust around the library: one-line summaries of boxes,
  their JSON form through `serde`/`serde_json`, and text for the library's
  enumerations and codes.
- `tests/` — tests of the library on concrete boxes.

Not included: the sample table box and the boxes that hold it (`minf`,
`mdia`, `trak`, `moov`), the edit list boxes (`edts`, `elst`), the media
header, user data and HEVC (`hev1`) boxes, and the file-level reader and
writer built on them. The sample entry boxes (`stsd`, `encv`) therefore
read and write H.264, VP9, AAC and timed text entries only; an `hev1`
entry is skipped when read.

# neftodng

A batch converter from camera raw files to DNG that proves each
result holds the same raw data as its source before accepting it. The
decisions of the converter are a Verus-verified library; the desktop window,
the file system work and the raw decoder sit in a thin program around it.

## Layout

- `src/` — the verified library.
  - `paths.rs`: where a converted file is written, the hidden `.part` file
    beside it, which files count as raw input, and whole-component path
    containment. Paths are modelled as sequences of components.
  - `convert.rs`: the conversion of one file as a state machine — check the
    target, create its directory, clear a stale `.part`, write, verify, rename,
    measure — with the safety rules stated as laws.
  - `verify.rs`: bit-for-bit comparison of decoded raw samples, and of the
    lens tags read from both files.
  - `metadata.rs`: comparison of what a renderer reads besides the samples
    (levels, CFA, areas, colour matrices) and of the shot data.
  - `exif_tags.rs`: a small TIFF/EXIF reader for the lens tags, over bytes.
  - `summary.rs`, `presentation.rs`, `queue.rs`, `scan.rs`: the batch
    totals, the wording of rows and of the completion dialog, queue
    de-duplication, and the choice and order of files found in a folder.
  - `text.rs`: small verified string helpers.
- `tests/` — tests of the library on concrete values.
- `app/` — the GTK4/libadwaita program: the window, folder walks, the raw
  decoder and encoder, and the file system actions the state machine asks for.

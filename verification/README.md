# proedit

The core of a video editor: exact rational time and timecode, frame buffers,
keyframe tracks, edit history, colour pipeline plans and `.cube` LUT files,
and the integer side of the AI analysis (scene cuts, segmentation masks,
tiling, sampling statistics, analysis windows, filler words, ingest progress).

- `src/` is the library, written in Verus: every function carries a
  `requires`/`ensures` contract, and the laws that tie operations together
  (time arithmetic, timecode round trips, keyframe and undo/redo round trips,
  tile coverage, spacing of detected cuts, ...) are proof functions beside
  the code they speak of. Everything is verified except a small set of
  trusted wrappers (marked `#[verifier::external_body]`) whose contracts are
  assumed: the `num-rational` arithmetic (`ratio_*`), the `smallvec` plane
  list (`planes_*`), `num_cpus::get` (`cpu_count`), and a few std calls
  (`to_lower`, `parse_usize`, `text_of`, `io_error_text`, `vec_range_mut`).
- `tests/` runs the library on concrete values.
- `app/` is the program around it: the command line, files, processes, JSON,
  and the signal and image processing that works in floating point, built on
  the library's exact counts, windows and orders.

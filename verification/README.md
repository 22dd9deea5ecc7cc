# studio_core

The headless core of a raster-to-vector tracing studio, verified with Verus.

- `src/` — the library, its functions' contracts proved by Verus, except the
  few trusted wrappers around outside calls (BLAKE3, PNG encoding, error
  texts, SVG path colours) and the specification of `String::push`, whose
  contracts are taken from those crates' sources and documentation:
  - `matrix`, `matrix_laws`: experiment axes (validation, sorting, dedup),
    the Cartesian product, the sparse probe set (cube corners + center), the
    scheduling order of a run, and their laws (unique ids, idempotent
    normalisation, lexicographic order, each cell scheduled once, a full
    run as the sparse set followed by the rest of the product in order).
  - `config`: the tracer configuration under its UI names, ranges, presets.
  - `recipe`: recipes and sessions, version gates and load-time checks.
  - `image_io`: decoded pixels, their identity hash, ROI checks and crops.
  - `cache`: cache keys. `digest`: BLAKE3 as lowercase hex.
  - `metrics`, `runner`: per-candidate numbers and the decisions of a run.
  - `text`, `seqs`, `error`: decimal/hex rendering, sequence vocabulary,
    errors and their messages.
  Binary64 numbers (segment length, viewport) are held as IEEE-754 bit
  patterns; arithmetic on them, and their decimal rendering (the value in
  the out-of-range `segment_length` report), lives outside the library.
- `app/` — the shell: serde mirrors and JSON files, image decoding and
  previews, the tracer and rasterizer calls, the worker pool.
- `tests/` — tests of the library, run against the real outside crates.

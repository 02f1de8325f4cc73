# tva_core

The verified core of a temporal video analyzer: it finds duplicate-frame
streaks and horizontal screen tears in a stream of decoded frames, compares
two versions of a video frame by frame, and parses the small inputs of its
command line. Every function under `src/` carries a contract that Verus
proves; the few calls into outside crates (`image`) and into std that vstd
does not specify stand behind trusted wrappers whose doc comments say what is
assumed of them.

Layout:

- `src/` — the library, verified by Verus.
  - `pixel_buffer`, `detect`, `degradation`, `pipeline`: frames, duplicate
    and tear detection, frame differences, the per-frame analysis state.
  - `scale`, `output`, `adapters::metric`: names and targets given on the
    command line.
  - `adapters/`: the comparators and smoothers by name, the mean absolute
    difference, and the row copy of a decoder.
- `tests/` — ordinary Rust tests of the library.
- `app/` — the `tva` program: file and video I/O, floating-point metrics,
  spectra and similarity scores, JSON/CSV output, and the C and WASM
  bindings. It feeds decoded frames to the library and reports what it
  returns.

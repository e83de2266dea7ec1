# nexfilm_engine

The engine behind a film-scanning workstation: it decides how each scanned
frame is processed, writes and reads the DNG and ICC files it exchanges with
other tools, masks unusable capture samples, and keeps the edit state of rolls
and frames consistent.

- `src/` is the library, verified with Verus. Every public function states in
  its contract what it returns; the `law_*` proof functions state properties
  that span several functions (what a reader gives back of what a writer
  wrote, what every migration keeps, what a settings copy changes).
- `tests/` runs the library on concrete values.
- `app/` is the command-line program around the library: files, the SQLite
  store, image decoding and analysis through `image` and `imageproc`, and the
  floating-point colour and density arithmetic.

# vigilo_core

Camera frames in, proctoring signals and violations out.

The library under `src/` is the deciding half of the engine, verified with
Verus: what counts as a violation and when it is reported (`fusion`), how a
session starts, degrades and ends (`pipeline`), how sources and cameras are
named and listed (`capture`), what is known of a model without running it
(`models`), and what the command line makes of its arguments (`cli`). It opens
nothing. Times, frames and model outputs arrive as values; a clock is read only
to stamp a frame with the moment it was captured, and no decision rests on it.

Floating-point numbers are held as bit patterns (`number`): comparing them is
exact, and the arithmetic that makes new ones is handed in by the caller.

- `src/fusion/model.rs` states what fusion decides. `src/fusion/laws.rs` proves
  what holds of every session; `recordings.rs`, `evidence.rs`, `absence.rs`,
  `direction.rs` and `identity.rs` beside it prove what two recordings share,
  what a frame without objects says, when an absence is reported, what a gaze is
  judged by, and when someone is taken for another person.
- `app/` is the `detect-cli` program around the library: files, processes,
  threads, model sessions, printing.
- `tests/` runs the library on concrete values.

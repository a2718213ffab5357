# espn_ffl

A command-line companion for ESPN fantasy football leagues: weekly player points under a
league's own scoring, projection-bias analysis, and a value-over-replacement draft board
that can follow a live draft.

## Layout

- `src/` — the library, verified with Verus: command-line types and their parsing, the
  player filters, ESPN request shapes and retry/pacing decisions, cache keys, stat-block
  selection, replacement levels and value over replacement, the draft board and its
  text rendering, the pick tracker and the live-draft state machine, and the decoding of
  the draft room's snapshot. Scoring weights and projection statistics are fractional, so
  the library takes projections as millionths of a point and rounds a value to tenths
  where the board shows it.
- `app/` — the program around it: argument parsing, HTTP, the disk cache, the SQLite
  database, floating-point scoring, terminal I/O, and the loops that feed the library's
  state machines.
- `tests/` — tests of the library on concrete values.

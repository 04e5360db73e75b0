# fantasy_hockey

The logic of a fantasy-hockey playoff pool, written in Verus: the
library's functions are verified by Verus, those that compute a result
carry an `ensures` contract stating it, and the laws the pool relies on (rankings are ordered and complete,
a rebuilt bracket always has the 8-4-2-1 shape, series states mirror each
other, the draft order is a permutation, …) are stated as proof functions.

## Layout

- `src/` — the verified library.
  - `domain/` — NHL and fantasy data shapes, bracket rebuild from game
    results, series classification, season phase, carousel tallies, grading
    pills, and the season and daily fantasy rankings.
  - `infra/` — what runs around the database and the NHL API: row shaping
    and grouping, the skater and goalie leaderboard merges, the random draft order, the
    poller and rehydration plans, request-parameter checks, cache keys and
    the calibration inputs.
  - `nhl_api/` — NHL endpoint addresses, the team-name table, the response
    cache, the retry policy, game-center state and the player search.
  - `utils/` — boxscore and game-log sums, game-day performances, the
    playoff ingest rows, which games a day's rankings score, the merge of
    the games' team lines, and the date ranges of a backfill.
  - `ws/` — the draft-room connection as a state machine.
  - `calendar.rs`, `sorting.rs`, `tally.rs`, `text.rs` — day numbers and
    their `YYYY-MM-DD` texts (through chrono), a stable sort with its
    proofs, per-team game tallies, and string helpers.
- `tests/` — tests run against the compiled library.
- `app/` — a command-line front end (JSON files in, JSON out) and the
  floating-point engines: the Monte Carlo race simulation, Elo and team
  ratings, projections, grades and calibration metrics.

## Checking

The library is verified with Verus on `src/lib.rs`; the tests are ordinary
`cargo test` tests of the crate named `fantasy_hockey`.

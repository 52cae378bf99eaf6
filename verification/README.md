# quiz_scoreboard

The scoring engine of a quiz-show scoreboard, written in Verus and verified.

A round has players, questions and a scoring rule (Free Batting, N Correct M
Wrong, UpDown, N Freeze, N by M). During a question the operator records
buzzes, correct and wrong answers; the rule turns each player's events into a
new score, win or elimination. Between questions the shown statuses are
updated, frozen players thaw, and at the end the players who advance to the
next round are chosen.

Layout:

- `src/` — the verified library.
  - `data.rs`: players, questions, statuses, events, rules, the shared state.
  - `rules.rs`: the scoring rules and what each does to a status.
  - `terminal.rs`: the operator's answer and `set` commands, command parsing.
  - `round.rs`: starting a round, scoring pending events, finishing ranks,
    moving to the next question, the answer buttons.
  - `loader.rs`, `advance.rs`: file contents (player and question lists, the
    answer log) and the choice of the players who advance.
  - `display.rs`: the texts the scoreboard shows.
  - `fits.rs`: whether a question's numbers fit their integer types.
  - `text.rs`: number and text helpers over `std`.
  - `laws.rs` (and `law_advancing_players` in `advance.rs`): properties that
    span several functions.
- `tests/` — tests on concrete values.
- `app/` — the program around the library: CSV files, the console, and the
  egui window.

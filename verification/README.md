# word_trainer

A vocabulary trainer (English → Russian) with SM-2 spaced repetition, a
terminal front end and a small REST API, whose logic is verified with Verus.

## Layout

- `src/` — the verified library
  - `text.rs`: Unicode white space, trimming, decimal numerals, case folding
  - `models.rs`: words, screens, the front end's state; Levenshtein distance
    and the quality an answer earns, with the distance's metric properties
  - `search.rs`: exact and similarity search over the word list
  - `import.rs`: the markdown word-list format
  - `sm2.rs`: repetitions and fixed intervals of the SM-2 schedule
  - `handlers.rs`: key handling as a state machine that returns the outside
    work to do (`Command`), and the methods that take its outcome back
  - `api.rs`, `db.rs`: request/reply values and the schema check
- `app/` — the program: terminal drawing (ratatui), key events (crossterm),
  SQLite storage (rusqlite), the HTTP server (axum, tokio), JSON (serde), and
  the floating-point ease factor of SM-2
- `tests/` — tests of the library

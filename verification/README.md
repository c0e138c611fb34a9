# jotr_core

The core of JotR, a sticky-note application: notes with soft deletion,
restore, and retention cleanup, verified with Verus.

- `src/timestamp.rs` — instants as seconds and nanoseconds; whole-day
  subtraction; reading the clock.
- `src/note.rs` — a note and its mathematical value.
- `src/database.rs` — the `notes` table in rowid order, one function per
  statement on it, each with a contract over the table's value.
- `src/store.rs` — `NoteStore`, the API callers use.
- `src/laws.rs` — proved properties that relate several operations.
- `app/` — storing the table in the SQLite file `jotr.db`.

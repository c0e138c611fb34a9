//! The `notes` table and one function per statement on it.
//!
//! The table holds its rows in rowid order: ids strictly increase from the
//! first row to the last. A new note gets the rowid one larger than the
//! largest present (the last row's), or 1 in an empty table.
use vstd::prelude::*;

use crate::note::{is_active, views, view_opt, Note, NoteView};
use crate::timestamp::{clock_instant, read_once, ClockLog, Timestamp};

verus! {

/// Why an operation on the database failed.
#[derive(Debug, Clone, Copy, PartialEq, Eq, Structural)]
pub enum DbError {
    /// The `notes` table has not been created yet.
    NoSuchTable,
    /// The largest rowid is `i64::MAX`: no larger id is left for a new note.
    Full,
    /// A retention cutoff falls outside the range of representable instants.
    CutoffOutOfRange,
    /// The system clock reads a time before the Unix epoch, or past the
    /// latest representable instant.
    ClockUnavailable,
}

/// The value of a database: `None` before the `notes` table exists, else its
/// rows in rowid order.
pub type DbView = Option<Seq<NoteView>>;

/// Row ids strictly increase along the table.
pub open spec fn ids_increasing(rows: Seq<NoteView>) -> bool {
    forall|i: int, j: int| 0 <= i < j < rows.len() ==> rows[i].id < rows[j].id
}

/// The invariant of every database value.
pub open spec fn valid_db(db: DbView) -> bool {
    match db {
        Some(rows) => ids_increasing(rows),
        None => true,
    }
}

/// Some row has this id.
pub open spec fn has_id(rows: Seq<NoteView>, id: i64) -> bool {
    exists|i: int| 0 <= i < rows.len() && rows[i].id == id
}

/// The row with this id (ids are unique, so there is at most one).
pub open spec fn row_with_id(rows: Seq<NoteView>, id: i64) -> NoteView
    recommends
        has_id(rows, id),
{
    rows[choose|i: int| 0 <= i < rows.len() && rows[i].id == id]
}

/// The row with this id, if there is one.
pub open spec fn lookup(rows: Seq<NoteView>, id: i64) -> Option<NoteView> {
    if has_id(rows, id) {
        Some(row_with_id(rows, id))
    } else {
        None
    }
}

/// The rowid a new note gets: one more than the largest present (the last
/// row's), 1 in an empty table, none when the largest is `i64::MAX`.
pub open spec fn next_rowid(rows: Seq<NoteView>) -> Option<i64> {
    if rows.len() == 0 {
        Some(1)
    } else if rows.last().id == i64::MAX {
        None
    } else {
        Some((rows.last().id + 1) as i64)
    }
}

/// A freshly added note: created and updated at `now`, active.
pub open spec fn new_row(id: i64, content: Seq<char>, now: Timestamp) -> NoteView {
    NoteView { id, content, created_at: now, updated_at: now, deleted_at: None }
}

/// `CREATE TABLE IF NOT EXISTS notes (...)`.
pub open spec fn create_table(db: DbView) -> DbView {
    match db {
        Some(rows) => Some(rows),
        None => Some(Seq::empty()),
    }
}

/// `INSERT INTO notes (content, created_at, updated_at) VALUES (content, now, now)`:
/// the new state and the new note's id.
pub open spec fn insert_note(db: DbView, content: Seq<char>, now: Timestamp) -> (
    DbView,
    Result<i64, DbError>,
) {
    match db {
        None => (db, Err(DbError::NoSuchTable)),
        Some(rows) => match next_rowid(rows) {
            None => (db, Err(DbError::Full)),
            Some(id) => (Some(rows.push(new_row(id, content, now))), Ok(id)),
        },
    }
}

/// `SELECT ... WHERE id = ? AND deleted_at IS NULL`.
pub open spec fn select_note(db: DbView, id: i64) -> Result<Option<NoteView>, DbError> {
    match db {
        None => Err(DbError::NoSuchTable),
        Some(rows) => match lookup(rows, id) {
            Some(n) => if is_active(n) {
                Ok(Some(n))
            } else {
                Ok(None)
            },
            None => Ok(None),
        },
    }
}

/// The value of a lookup's result.
pub open spec fn view_found(r: Result<Option<Note>, DbError>) -> Result<Option<NoteView>, DbError> {
    match r {
        Ok(o) => Ok(view_opt(o)),
        Err(e) => Err(e),
    }
}

/// The value of a listing's result.
pub open spec fn view_listed(r: Result<Vec<Note>, DbError>) -> Result<Seq<NoteView>, DbError> {
    match r {
        Ok(v) => Ok(views(v@)),
        Err(e) => Err(e),
    }
}


/// Rows that carry no tombstone.
pub open spec fn active() -> spec_fn(NoteView) -> bool {
    |n: NoteView| is_active(n)
}

/// Rows that carry a tombstone.
pub open spec fn trashed() -> spec_fn(NoteView) -> bool {
    |n: NoteView| !is_active(n)
}

/// Rows whose id differs from `id`.
pub open spec fn other_than(id: i64) -> spec_fn(NoteView) -> bool {
    |n: NoteView| n.id != id
}

/// A row trashed strictly before `cutoff`.
pub open spec fn is_expired(n: NoteView, cutoff: Timestamp) -> bool {
    n.deleted_at matches Some(d) && d.is_before(cutoff)
}

/// Rows trashed strictly before `cutoff`.
pub open spec fn expired(cutoff: Timestamp) -> spec_fn(NoteView) -> bool {
    |n: NoteView| is_expired(n, cutoff)
}

/// Rows not trashed strictly before `cutoff`.
pub open spec fn unexpired(cutoff: Timestamp) -> spec_fn(NoteView) -> bool {
    |n: NoteView| !is_expired(n, cutoff)
}

/// `SELECT ... WHERE deleted_at IS NULL ORDER BY id`.
pub open spec fn select_active(db: DbView) -> Result<Seq<NoteView>, DbError> {
    match db {
        None => Err(DbError::NoSuchTable),
        Some(rows) => Ok(rows.filter(active())),
    }
}

/// The row with new content, updated at `now`.
pub open spec fn rewritten(n: NoteView, content: Seq<char>, now: Timestamp) -> NoteView {
    NoteView { content, updated_at: now, ..n }
}

/// `UPDATE notes SET content = ?, updated_at = now WHERE id = ?`: the new
/// state, and whether a row changed.
pub open spec fn update_content(db: DbView, id: i64, content: Seq<char>, now: Timestamp) -> (
    DbView,
    Result<bool, DbError>,
) {
    match db {
        None => (db, Err(DbError::NoSuchTable)),
        Some(rows) => (
            Some(rows.map_values(|n: NoteView| if n.id == id { rewritten(n, content, now) } else { n })),
            Ok(has_id(rows, id)),
        ),
    }
}

/// The row trashed at `now`.
pub open spec fn tombstoned(n: NoteView, now: Timestamp) -> NoteView {
    NoteView { deleted_at: Some(now), ..n }
}

/// `UPDATE notes SET deleted_at = now WHERE id = ? AND deleted_at IS NULL`:
/// the new state, and whether a row changed.
pub open spec fn trash_note(db: DbView, id: i64, now: Timestamp) -> (DbView, Result<bool, DbError>) {
    match db {
        None => (db, Err(DbError::NoSuchTable)),
        Some(rows) => (
            Some(rows.map_values(|n: NoteView| if n.id == id && is_active(n) { tombstoned(n, now) } else { n })),
            Ok(has_id(rows, id) && is_active(row_with_id(rows, id))),
        ),
    }
}

/// The row with its tombstone removed.
pub open spec fn revived(n: NoteView) -> NoteView {
    NoteView { deleted_at: None, ..n }
}

/// `UPDATE notes SET deleted_at = NULL WHERE id = ? AND deleted_at IS NOT NULL`:
/// the new state, and whether a row changed.
pub open spec fn untrash_note(db: DbView, id: i64) -> (DbView, Result<bool, DbError>) {
    match db {
        None => (db, Err(DbError::NoSuchTable)),
        Some(rows) => (
            Some(rows.map_values(|n: NoteView| if n.id == id && !is_active(n) { revived(n) } else { n })),
            Ok(has_id(rows, id) && !is_active(row_with_id(rows, id))),
        ),
    }
}

/// `DELETE FROM notes WHERE id = ?`: the new state, and whether a row went.
pub open spec fn erase_note(db: DbView, id: i64) -> (DbView, Result<bool, DbError>) {
    match db {
        None => (db, Err(DbError::NoSuchTable)),
        Some(rows) => (Some(rows.filter(other_than(id))), Ok(has_id(rows, id))),
    }
}

/// `DELETE FROM notes WHERE deleted_at IS NOT NULL AND deleted_at < cutoff`:
/// the new state, and how many rows went.
pub open spec fn purge_expired(db: DbView, cutoff: Timestamp) -> (DbView, Result<usize, DbError>) {
    match db {
        None => (db, Err(DbError::NoSuchTable)),
        Some(rows) => (
            Some(rows.filter(unexpired(cutoff))),
            Ok(rows.filter(expired(cutoff)).len() as usize),
        ),
    }
}

/// In the listing of trashed notes, `a` comes before `b`: it was trashed
/// later, or at the same instant with a larger id (it was added later).
pub open spec fn listed_before(a: NoteView, b: NoteView) -> bool {
    let ta = a.deleted_at.unwrap();
    let tb = b.deleted_at.unwrap();
    ||| tb.is_before(ta)
    ||| (ta == tb && a.id > b.id)
}

/// `out` holds exactly the trashed rows, most recently trashed first
/// (`ORDER BY deleted_at DESC`, ties by decreasing id).
pub open spec fn trashed_listing(rows: Seq<NoteView>, out: Seq<NoteView>) -> bool {
    &&& out.to_multiset() == rows.filter(trashed()).to_multiset()
    &&& forall|i: int, j: int| 0 <= i < j < out.len() ==> listed_before(out[i], out[j])
}

/// What `SELECT ... WHERE deleted_at IS NOT NULL ORDER BY deleted_at DESC` may return.
pub open spec fn selects_trashed(db: DbView, r: Result<Seq<NoteView>, DbError>) -> bool {
    match db {
        None => r == Err::<Seq<NoteView>, DbError>(DbError::NoSuchTable),
        Some(rows) => r matches Ok(out) && trashed_listing(rows, out),
    }
}

/// Every row of the table, in rowid order.
pub open spec fn select_all(db: DbView) -> Result<Seq<NoteView>, DbError> {
    match db {
        None => Err(DbError::NoSuchTable),
        Some(rows) => Ok(rows),
    }
}

/// A filter keeps ids increasing, and keeps only rows of the sequence.
pub proof fn lemma_filter_keeps_order(s: Seq<NoteView>, p: spec_fn(NoteView) -> bool)
    requires
        ids_increasing(s),
    ensures
        ids_increasing(s.filter(p)),
        forall|k: int| 0 <= k < s.filter(p).len() ==> s.contains(#[trigger] s.filter(p)[k]),
    decreases s.len(),
{
    if s.len() > 0 {
        let s0 = s.drop_last();
        let x = s.last();
        lemma_filter_keeps_order(s0, p);
        assert(s0.push(x) =~= s);
        s0.lemma_filter_push(x, p);
        let f0 = s0.filter(p);
        assert forall|k: int| 0 <= k < f0.len() implies #[trigger] f0[k].id < x.id by {
            assert(s0.contains(f0[k]));
            let j = choose|j: int| 0 <= j < s0.len() && s0[j] == f0[k];
            assert(s[j] == s0[j]);
        }
    }
}

/// The prefix of length `i + 1` is the prefix of length `i` and one more row.
pub proof fn lemma_take_succ(s: Seq<NoteView>, i: int)
    requires
        0 <= i < s.len(),
    ensures
        s.take(i + 1) == s.take(i).push(s[i]),
{
    assert(s.take(i + 1) =~= s.take(i).push(s[i]));
}

/// An in-memory database holding the `notes` table once it is created.
pub struct Database {
    table: Option<Vec<Note>>,
    clock: ClockLog,
}

impl View for Database {
    type V = DbView;

    closed spec fn view(&self) -> DbView {
        match self.table {
            Some(v) => Some(views(v@)),
            None => None,
        }
    }
}

impl Database {
    /// The table's rows keep their ids strictly increasing.
    #[verifier::type_invariant]
    pub(crate) open spec fn inv(self) -> bool {
        valid_db(self@)
    }

    /// Every database keeps the ids of its rows strictly increasing; this
    /// brings that fact to a caller that holds a database (it does nothing at
    /// run time).
    pub fn ids_increase(&self)
        ensures
            valid_db(self@),
    {
        proof {
            use_type_invariant(self);
        }
    }

    /// The instants this database has read from the system clock, oldest first.
    pub closed spec fn readings(&self) -> Seq<Timestamp> {
        self.clock.readings()
    }

    /// Reads the current instant from the system clock and records it in the
    /// database's readings; the table is untouched.
    pub fn read_clock(&mut self) -> (r: Option<Timestamp>)
        ensures
            final(self)@ == old(self)@,
            match r {
                Some(t) => clock_instant(t) && final(self).readings() == old(self).readings().push(
                    t,
                ),
                None => final(self).readings() == old(self).readings(),
            },
    {
        proof {
            use_type_invariant(&*self);
        }
        let mut log = ClockLog::new();
        std::mem::swap(&mut log, &mut self.clock);
        let r = log.read();
        self.clock = log;
        r
    }

    /// A new, empty database: the `notes` table does not exist yet.
    pub fn open_in_memory() -> (db: Database)
        ensures
            db@ is None,
            db.readings() == Seq::<Timestamp>::empty(),
    {
        Database { table: None, clock: ClockLog::new() }
    }

    /// Moves the table out, leaving the database without one.
    fn take_table(&mut self) -> (t: Option<Vec<Note>>)
        ensures
            final(self)@ is None,
            final(self).readings() == old(self).readings(),
            match t {
                Some(v) => old(self)@ == Some(views(v@)),
                None => old(self)@ is None,
            },
            valid_db(old(self)@),
    {
        proof {
            use_type_invariant(&*self);
        }
        let mut t: Option<Vec<Note>> = None;
        std::mem::swap(&mut t, &mut self.table);
        t
    }

    /// Puts a table back.
    fn put_table(&mut self, rows: Vec<Note>)
        requires
            ids_increasing(views(rows@)),
        ensures
            final(self)@ == Some(views(rows@)),
            final(self).readings() == old(self).readings(),
    {
        self.table = Some(rows);
    }
}

/// The index of the row with this id, found by binary search over the
/// increasing ids.
fn find_index(rows: &Vec<Note>, id: i64) -> (r: Option<usize>)
    requires
        ids_increasing(views(rows@)),
    ensures
        match r {
            Some(i) => i < rows@.len() && rows@[i as int].id == id,
            None => !has_id(views(rows@), id),
        },
{
    let ghost vs = views(rows@);
    let mut lo: usize = 0;
    let mut hi: usize = rows.len();
    while lo < hi
        invariant
            vs == views(rows@),
            ids_increasing(vs),
            0 <= lo <= hi <= rows@.len(),
            forall|k: int| 0 <= k < lo ==> #[trigger] vs[k].id < id,
            forall|k: int| hi <= k < rows@.len() ==> #[trigger] vs[k].id > id,
        decreases hi - lo,
    {
        let mid = lo + (hi - lo) / 2;
        let mid_id = rows[mid].id;
        assert(vs[mid as int].id == mid_id);
        if mid_id == id {
            return Some(mid);
        } else if mid_id < id {
            lo = mid + 1;
        } else {
            hi = mid;
        }
    }
    assert(forall|k: int| 0 <= k < vs.len() ==> #[trigger] vs[k].id != id);
    None
}

/// Runs `CREATE TABLE IF NOT EXISTS notes (...)`.
pub fn initialize_database(connection: &mut Database) -> (r: Result<(), DbError>)
    ensures
        r is Ok,
        final(connection)@ == create_table(old(connection)@),
        final(connection).readings() == old(connection).readings(),
        valid_db(final(connection)@),
{
    let t = connection.take_table();
    match t {
        Some(rows) => connection.put_table(rows),
        None => {
            let rows: Vec<Note> = Vec::new();
            assert(views(rows@) =~= Seq::<NoteView>::empty());
            connection.put_table(rows);
        },
    }
    Ok(())
}

/// Adds a note with this content, created and updated at `now`; returns its id.
pub fn add_note_at(connection: &mut Database, content: &str, now: Timestamp) -> (r: Result<
    i64,
    DbError,
>)
    ensures
        (final(connection)@, r) == insert_note(old(connection)@, content@, now),
        final(connection).readings() == old(connection).readings(),
        valid_db(final(connection)@),
{
    let t = connection.take_table();
    let mut rows = match t {
        None => return Err(DbError::NoSuchTable),
        Some(rows) => rows,
    };
    let ghost old_rows = views(rows@);
    let len = rows.len();
    let id: i64 = if len == 0 {
        1
    } else {
        let last = rows[len - 1].id;
        assert(old_rows.last().id == last);
        if last == i64::MAX {
            connection.put_table(rows);
            return Err(DbError::Full);
        }
        last + 1
    };
    let note = Note {
        id,
        content: content.to_string(),
        created_at: now,
        updated_at: now,
        deleted_at: None,
    };
    rows.push(note);
    assert(views(rows@) =~= old_rows.push(new_row(id, content@, now)));
    connection.put_table(rows);
    Ok(id)
}

/// Adds a note with this content, stamped with the current time; returns its id.
pub fn add_note(connection: &mut Database, content: &str) -> (r: Result<i64, DbError>)
    ensures
        r == Err::<i64, DbError>(DbError::ClockUnavailable) ==> final(connection)@ == old(
            connection,
        )@,
        r != Err::<i64, DbError>(DbError::ClockUnavailable) ==> exists|now: Timestamp|
            clock_instant(now) && (final(connection)@, r) == insert_note(
                old(connection)@,
                content@,
                now,
            ),
        r == Err::<i64, DbError>(DbError::ClockUnavailable) ==> final(connection).readings()
            == old(connection).readings(),
        r != Err::<i64, DbError>(DbError::ClockUnavailable) ==> read_once(
            old(connection).readings(),
            final(connection).readings(),
        ) && clock_instant(final(connection).readings().last()) && (final(connection)@, r)
            == insert_note(
                old(connection)@,
                content@,
                final(connection).readings().last(),
            ),
        valid_db(final(connection)@),
{
    proof {
        use_type_invariant(&*connection);
    }
    match connection.read_clock() {
        Some(now) => {
            let r = add_note_at(connection, content, now);
            proof {
                assert(connection.readings().drop_last() =~= old(connection).readings());
            }
            r
        },
        None => Err(DbError::ClockUnavailable),
    }
}

/// The active note with this id, if there is one.
pub fn get_note_by_id(connection: &Database, id: i64) -> (r: Result<Option<Note>, DbError>)
    ensures
        view_found(r) == select_note(connection@, id),
{
    proof {
        use_type_invariant(connection);
    }
    match &connection.table {
        None => Err(DbError::NoSuchTable),
        Some(rows) => {
            let ghost vs = views(rows@);
            match find_index(rows, id) {
                None => Ok(None),
                Some(i) => {
                    proof {
                        assert(vs[i as int].id == id);
                        assert(has_id(vs, id));
                        let k = choose|k: int| 0 <= k < vs.len() && vs[k].id == id;
                        assert(k == i);
                    }
                    if rows[i].is_active() {
                        Ok(Some(rows[i].duplicate()))
                    } else {
                        Ok(None)
                    }
                },
            }
        },
    }
}


/// The active notes in id order.
pub fn get_all_notes(connection: &Database) -> (r: Result<Vec<Note>, DbError>)
    ensures
        view_listed(r) == select_active(connection@),
{
    proof {
        use_type_invariant(connection);
    }
    match &connection.table {
        None => Err(DbError::NoSuchTable),
        Some(rows) => {
            let ghost vs = views(rows@);
            let mut notes: Vec<Note> = Vec::new();
            let mut i: usize = 0;
            while i < rows.len()
                invariant
                    vs == views(rows@),
                    0 <= i <= rows@.len(),
                    views(notes@) == vs.take(i as int).filter(active()),
                decreases rows@.len() - i,
            {
                proof {
                    lemma_take_succ(vs, i as int);
                    vs.take(i as int).lemma_filter_push(vs[i as int], active());
                }
                if rows[i].is_active() {
                    let ghost before = views(notes@);
                    notes.push(rows[i].duplicate());
                    assert(views(notes@) =~= before.push(vs[i as int]));
                }
                i = i + 1;
            }
            assert(vs.take(rows@.len() as int) =~= vs);
            Ok(notes)
        },
    }
}

/// Every row of the table, trashed ones included, in id order.
pub fn get_all_rows(connection: &Database) -> (r: Result<Vec<Note>, DbError>)
    ensures
        view_listed(r) == select_all(connection@),
{
    match &connection.table {
        None => Err(DbError::NoSuchTable),
        Some(rows) => {
            let ghost vs = views(rows@);
            let mut out: Vec<Note> = Vec::new();
            let mut i: usize = 0;
            while i < rows.len()
                invariant
                    vs == views(rows@),
                    0 <= i <= rows@.len(),
                    views(out@) == vs.take(i as int),
                decreases rows@.len() - i,
            {
                proof {
                    lemma_take_succ(vs, i as int);
                }
                let ghost before = views(out@);
                out.push(rows[i].duplicate());
                assert(views(out@) =~= before.push(vs[i as int]));
                i = i + 1;
            }
            assert(vs.take(rows@.len() as int) =~= vs);
            Ok(out)
        },
    }
}

/// A database holding these rows, if their ids strictly increase.
pub fn from_rows(rows: Vec<Note>) -> (r: Option<Database>)
    ensures
        r is Some <==> ids_increasing(views(rows@)),
        r matches Some(db) ==> db@ == Some(views(rows@)),
{
    let ghost vs = views(rows@);
    let mut i: usize = 1;
    if rows.len() == 0 {
        return Some(Database { table: Some(rows), clock: ClockLog::new() });
    }
    while i < rows.len()
        invariant
            vs == views(rows@),
            1 <= i <= rows@.len(),
            ids_increasing(vs.take(i as int)),
        decreases rows@.len() - i,
    {
        if rows[i].id <= rows[i - 1].id {
            assert(!ids_increasing(vs) ) by {
                assert(vs[i - 1].id >= vs[i as int].id);
            }
            return None;
        }
        assert(ids_increasing(vs.take(i + 1))) by {
            let prev = vs.take(i as int);
            let next = vs.take(i + 1);
            assert forall|a: int, b: int| 0 <= a < b < i + 1 implies #[trigger] next[a].id
                < #[trigger] next[b].id by {
                if b == i {
                    if a < i - 1 {
                        assert(prev[a].id < prev[i - 1].id);
                    }
                } else {
                    assert(prev[a].id < prev[b].id);
                }
            }
        }
        i = i + 1;
    }
    assert(vs.take(rows@.len() as int) =~= vs);
    Some(Database { table: Some(rows), clock: ClockLog::new() })
}

/// Replaces the content of the note with this id and stamps `updated_at`
/// with `now`, whether or not it is trashed; says whether such a note exists.
pub fn update_note_at(connection: &mut Database, id: i64, new_content: &str, now: Timestamp) -> (r:
    Result<bool, DbError>)
    ensures
        (final(connection)@, r) == update_content(old(connection)@, id, new_content@, now),
        final(connection).readings() == old(connection).readings(),
        valid_db(final(connection)@),
{
    let t = connection.take_table();
    let mut rows = match t {
        None => return Err(DbError::NoSuchTable),
        Some(rows) => rows,
    };
    let ghost vs = views(rows@);
    let ghost f = |n: NoteView| if n.id == id { rewritten(n, new_content@, now) } else { n };
    match find_index(&rows, id) {
        None => {
            assert(vs.map_values(f) =~= vs);
            connection.put_table(rows);
            Ok(false)
        },
        Some(i) => {
            let old_note = &rows[i];
            let note = Note {
                id: old_note.id,
                content: new_content.to_string(),
                created_at: old_note.created_at,
                updated_at: now,
                deleted_at: old_note.deleted_at,
            };
            rows.set(i, note);
            proof {
                assert(vs[i as int].id == id);
                assert(has_id(vs, id));
                assert(views(rows@) =~= vs.map_values(f)) by {
                    assert forall|k: int| 0 <= k < vs.len() implies #[trigger] views(rows@)[k]
                        == vs.map_values(f)[k] by {
                        if k != i {
                            assert(vs[k].id != id);
                        }
                    }
                }
            }
            connection.put_table(rows);
            Ok(true)
        },
    }
}

/// Replaces the content of the note with this id, stamped with the current
/// time; says whether such a note exists.
pub fn update_note(connection: &mut Database, id: i64, new_content: &str) -> (r: Result<
    bool,
    DbError,
>)
    ensures
        r == Err::<bool, DbError>(DbError::ClockUnavailable) ==> final(connection)@ == old(
            connection,
        )@,
        r != Err::<bool, DbError>(DbError::ClockUnavailable) ==> exists|now: Timestamp|
            clock_instant(now) && (final(connection)@, r) == update_content(
                old(connection)@,
                id,
                new_content@,
                now,
            ),
        r == Err::<bool, DbError>(DbError::ClockUnavailable) ==> final(connection).readings()
            == old(connection).readings(),
        r != Err::<bool, DbError>(DbError::ClockUnavailable) ==> read_once(
            old(connection).readings(),
            final(connection).readings(),
        ) && clock_instant(final(connection).readings().last()) && (final(connection)@, r)
            == update_content(
                old(connection)@,
                id,
                new_content@,
                final(connection).readings().last(),
            ),
        valid_db(final(connection)@),
{
    proof {
        use_type_invariant(&*connection);
    }
    match connection.read_clock() {
        Some(now) => {
            let r = update_note_at(connection, id, new_content, now);
            proof {
                assert(connection.readings().drop_last() =~= old(connection).readings());
            }
            r
        },
        None => Err(DbError::ClockUnavailable),
    }
}

/// Trashes the note with this id at `now`, if it is active; says whether it was.
pub fn soft_delete_note_at(connection: &mut Database, id: i64, now: Timestamp) -> (r: Result<
    bool,
    DbError,
>)
    ensures
        (final(connection)@, r) == trash_note(old(connection)@, id, now),
        final(connection).readings() == old(connection).readings(),
        valid_db(final(connection)@),
{
    let t = connection.take_table();
    let mut rows = match t {
        None => return Err(DbError::NoSuchTable),
        Some(rows) => rows,
    };
    let ghost vs = views(rows@);
    let ghost f = |n: NoteView| if n.id == id && is_active(n) { tombstoned(n, now) } else { n };
    match find_index(&rows, id) {
        None => {
            assert(vs.map_values(f) =~= vs);
            connection.put_table(rows);
            Ok(false)
        },
        Some(i) => {
            proof {
                assert(vs[i as int].id == id);
                assert(has_id(vs, id));
                let k = choose|k: int| 0 <= k < vs.len() && vs[k].id == id;
                assert(k == i);
            }
            if !rows[i].is_active() {
                assert(vs.map_values(f) =~= vs) by {
                    assert forall|k: int| 0 <= k < vs.len() implies #[trigger] vs.map_values(f)[k]
                        == vs[k] by {
                        if k != i {
                            assert(vs[k].id != id);
                        }
                    }
                }
                connection.put_table(rows);
                return Ok(false);
            }
            let old_note = &rows[i];
            let note = Note {
                id: old_note.id,
                content: old_note.content.clone(),
                created_at: old_note.created_at,
                updated_at: old_note.updated_at,
                deleted_at: Some(now),
            };
            rows.set(i, note);
            proof {
                assert(views(rows@) =~= vs.map_values(f)) by {
                    assert forall|k: int| 0 <= k < vs.len() implies #[trigger] views(rows@)[k]
                        == vs.map_values(f)[k] by {
                        if k != i {
                            assert(vs[k].id != id);
                        }
                    }
                }
            }
            connection.put_table(rows);
            Ok(true)
        },
    }
}

/// Trashes the note with this id at the current time, if it is active; says
/// whether it was.
pub fn soft_delete_note(connection: &mut Database, id: i64) -> (r: Result<bool, DbError>)
    ensures
        r == Err::<bool, DbError>(DbError::ClockUnavailable) ==> final(connection)@ == old(
            connection,
        )@,
        r != Err::<bool, DbError>(DbError::ClockUnavailable) ==> exists|now: Timestamp|
            clock_instant(now) && (final(connection)@, r) == trash_note(
                old(connection)@,
                id,
                now,
            ),
        r == Err::<bool, DbError>(DbError::ClockUnavailable) ==> final(connection).readings()
            == old(connection).readings(),
        r != Err::<bool, DbError>(DbError::ClockUnavailable) ==> read_once(
            old(connection).readings(),
            final(connection).readings(),
        ) && clock_instant(final(connection).readings().last()) && (final(connection)@, r)
            == trash_note(
                old(connection)@,
                id,
                final(connection).readings().last(),
            ),
        valid_db(final(connection)@),
{
    proof {
        use_type_invariant(&*connection);
    }
    match connection.read_clock() {
        Some(now) => {
            let r = soft_delete_note_at(connection, id, now);
            proof {
                assert(connection.readings().drop_last() =~= old(connection).readings());
            }
            r
        },
        None => Err(DbError::ClockUnavailable),
    }
}

/// Takes the tombstone off the note with this id, if it is trashed; says
/// whether it was.
pub fn restore_note(connection: &mut Database, id: i64) -> (r: Result<bool, DbError>)
    ensures
        (final(connection)@, r) == untrash_note(old(connection)@, id),
        final(connection).readings() == old(connection).readings(),
        valid_db(final(connection)@),
{
    let t = connection.take_table();
    let mut rows = match t {
        None => return Err(DbError::NoSuchTable),
        Some(rows) => rows,
    };
    let ghost vs = views(rows@);
    let ghost f = |n: NoteView| if n.id == id && !is_active(n) { revived(n) } else { n };
    match find_index(&rows, id) {
        None => {
            assert(vs.map_values(f) =~= vs);
            connection.put_table(rows);
            Ok(false)
        },
        Some(i) => {
            proof {
                assert(vs[i as int].id == id);
                assert(has_id(vs, id));
                let k = choose|k: int| 0 <= k < vs.len() && vs[k].id == id;
                assert(k == i);
            }
            if rows[i].is_active() {
                assert(vs.map_values(f) =~= vs) by {
                    assert forall|k: int| 0 <= k < vs.len() implies #[trigger] vs.map_values(f)[k]
                        == vs[k] by {
                        if k != i {
                            assert(vs[k].id != id);
                        }
                    }
                }
                connection.put_table(rows);
                return Ok(false);
            }
            let old_note = &rows[i];
            let note = Note {
                id: old_note.id,
                content: old_note.content.clone(),
                created_at: old_note.created_at,
                updated_at: old_note.updated_at,
                deleted_at: None,
            };
            rows.set(i, note);
            proof {
                assert(views(rows@) =~= vs.map_values(f)) by {
                    assert forall|k: int| 0 <= k < vs.len() implies #[trigger] views(rows@)[k]
                        == vs.map_values(f)[k] by {
                        if k != i {
                            assert(vs[k].id != id);
                        }
                    }
                }
            }
            connection.put_table(rows);
            Ok(true)
        },
    }
}


/// Removes the note with this id for good, trashed or not; says whether it existed.
pub fn hard_delete_note(connection: &mut Database, id: i64) -> (r: Result<bool, DbError>)
    ensures
        (final(connection)@, r) == erase_note(old(connection)@, id),
        final(connection).readings() == old(connection).readings(),
        valid_db(final(connection)@),
{
    let t = connection.take_table();
    let rows = match t {
        None => return Err(DbError::NoSuchTable),
        Some(rows) => rows,
    };
    let ghost vs = views(rows@);
    let mut kept: Vec<Note> = Vec::new();
    let mut found = false;
    let mut i: usize = 0;
    while i < rows.len()
        invariant
            vs == views(rows@),
            ids_increasing(vs),
            0 <= i <= rows@.len(),
            views(kept@) == vs.take(i as int).filter(other_than(id)),
            found == has_id(vs.take(i as int), id),
        decreases rows@.len() - i,
    {
        proof {
            lemma_take_succ(vs, i as int);
            vs.take(i as int).lemma_filter_push(vs[i as int], other_than(id));
        }
        let ghost before = views(kept@);
        if rows[i].id == id {
            found = true;
            assert(vs.take(i + 1)[i as int].id == id);
        } else {
            kept.push(rows[i].duplicate());
            assert(views(kept@) =~= before.push(vs[i as int]));
            proof {
                let t0 = vs.take(i as int);
                let t1 = vs.take(i + 1);
                if has_id(t1, id) {
                    let k = choose|k: int| 0 <= k < t1.len() && #[trigger] t1[k].id == id;
                    assert(t0[k].id == id);
                }
                if has_id(t0, id) {
                    let k = choose|k: int| 0 <= k < t0.len() && #[trigger] t0[k].id == id;
                    assert(t1[k].id == id);
                }
            }
        }
        i = i + 1;
    }
    assert(vs.take(rows@.len() as int) =~= vs);
    proof {
        lemma_filter_keeps_order(vs, other_than(id));
    }
    connection.put_table(kept);
    Ok(found)
}

/// Removes for good every note trashed strictly before `cutoff`; returns how
/// many went.
pub fn hard_delete_expired_notes(connection: &mut Database, cutoff: Timestamp) -> (r: Result<
    usize,
    DbError,
>)
    ensures
        (final(connection)@, r) == purge_expired(old(connection)@, cutoff),
        final(connection).readings() == old(connection).readings(),
        valid_db(final(connection)@),
{
    let t = connection.take_table();
    let rows = match t {
        None => return Err(DbError::NoSuchTable),
        Some(rows) => rows,
    };
    let ghost vs = views(rows@);
    let mut kept: Vec<Note> = Vec::new();
    let mut removed: usize = 0;
    let mut i: usize = 0;
    while i < rows.len()
        invariant
            vs == views(rows@),
            ids_increasing(vs),
            0 <= i <= rows@.len(),
            views(kept@) == vs.take(i as int).filter(unexpired(cutoff)),
            removed == vs.take(i as int).filter(expired(cutoff)).len(),
            removed <= i,
        decreases rows@.len() - i,
    {
        proof {
            lemma_take_succ(vs, i as int);
            vs.take(i as int).lemma_filter_push(vs[i as int], unexpired(cutoff));
            vs.take(i as int).lemma_filter_push(vs[i as int], expired(cutoff));
        }
        let ghost before = views(kept@);
        let is_expired = match rows[i].deleted_at {
            Some(d) => d.before(&cutoff),
            None => false,
        };
        if is_expired {
            removed = removed + 1;
        } else {
            kept.push(rows[i].duplicate());
            assert(views(kept@) =~= before.push(vs[i as int]));
        }
        i = i + 1;
    }
    assert(vs.take(rows@.len() as int) =~= vs);
    proof {
        lemma_filter_keeps_order(vs, unexpired(cutoff));
    }
    connection.put_table(kept);
    Ok(removed)
}

/// Whether trashed note `a` is listed before trashed note `b`.
fn listed_first(a: &Note, b: &Note) -> (r: bool)
    requires
        a.deleted_at is Some,
        b.deleted_at is Some,
    ensures
        r == listed_before(a@, b@),
{
    let ta = a.deleted_at.unwrap();
    let tb = b.deleted_at.unwrap();
    tb.before(&ta) || (ta == tb && a.id > b.id)
}

/// The trashed notes, most recently trashed first; notes trashed at the same
/// instant come in decreasing id order.
pub fn get_deleted_notes(connection: &Database) -> (r: Result<Vec<Note>, DbError>)
    ensures
        selects_trashed(connection@, view_listed(r)),
{
    proof {
        use_type_invariant(connection);
    }
    let rows = match &connection.table {
        None => return Err(DbError::NoSuchTable),
        Some(rows) => rows,
    };
    let ghost vs = views(rows@);
    let mut out: Vec<Note> = Vec::new();
    let mut i: usize = 0;
    proof {
        assert(vs.take(0).filter(trashed()) =~= Seq::<NoteView>::empty());
        assert(views(out@) =~= Seq::<NoteView>::empty());
    }
    while i < rows.len()
        invariant
            vs == views(rows@),
            ids_increasing(vs),
            0 <= i <= rows@.len(),
            views(out@).to_multiset() == vs.take(i as int).filter(trashed()).to_multiset(),
            forall|a: int, b: int|
                0 <= a < b < out@.len() ==> listed_before(#[trigger] out@[a]@, #[trigger] out@[b]@),
            forall|a: int| 0 <= a < out@.len() ==> (#[trigger] out@[a]).deleted_at is Some,
            forall|a: int, j: int|
                0 <= a < out@.len() && i <= j < vs.len() ==> (#[trigger] out@[a]).id < #[trigger] vs[j].id,
        decreases rows@.len() - i,
    {
        proof {
            lemma_take_succ(vs, i as int);
            vs.take(i as int).lemma_filter_push(vs[i as int], trashed());
        }
        if !rows[i].is_active() {
            let note = &rows[i];
            let mut p: usize = 0;
            while p < out.len()
                invariant
                    0 <= p <= out@.len(),
                    note.deleted_at is Some,
                    forall|a: int| 0 <= a < out@.len() ==> (#[trigger] out@[a]).deleted_at is Some,
                    forall|a: int| 0 <= a < p ==> !listed_before(note@, (#[trigger] out@[a])@),
                ensures
                    0 <= p <= out@.len(),
                    forall|a: int| 0 <= a < p ==> !listed_before(note@, (#[trigger] out@[a])@),
                    p < out@.len() ==> listed_before(note@, out@[p as int]@),
                decreases out@.len() - p,
            {
                if listed_first(note, &out[p]) {
                    break;
                }
                p = p + 1;
            }
            let ghost old_out = out@;
            let ghost x = note@;
            proof {
                assert(vs[i as int] == x);
                assert forall|a: int| 0 <= a < p implies listed_before(
                    (#[trigger] old_out[a])@,
                    x,
                ) by {
                    assert(old_out[a].id < vs[i as int].id);
                }
                assert forall|a: int| p <= a < old_out.len() implies listed_before(
                    x,
                    (#[trigger] old_out[a])@,
                ) by {
                    if a > p {
                        assert(listed_before(old_out[p as int]@, old_out[a]@));
                    }
                }
            }
            out.insert(p, note.duplicate());
            proof {
                assert(views(out@) =~= views(old_out).insert(p as int, x));
                vstd::seq_lib::to_multiset_insert(views(old_out), p as int, x);
                vstd::seq_lib::to_multiset_build(vs.take(i as int).filter(trashed()), x);
                assert forall|a: int, b: int| 0 <= a < b < out@.len() implies listed_before(
                    #[trigger] out@[a]@,
                    #[trigger] out@[b]@,
                ) by {
                    if b < p {
                        assert(out@[a] == old_out[a] && out@[b] == old_out[b]);
                    } else if b == p {
                        assert(out@[a] == old_out[a]);
                    } else if a < p {
                        assert(out@[a] == old_out[a] && out@[b] == old_out[b - 1]);
                    } else if a == p {
                        assert(out@[b] == old_out[b - 1]);
                    } else {
                        assert(out@[a] == old_out[a - 1] && out@[b] == old_out[b - 1]);
                    }
                }
                assert forall|a: int, j: int|
                    0 <= a < out@.len() && i + 1 <= j < vs.len() implies (#[trigger] out@[a]).id
                    < #[trigger] vs[j].id by {
                    if a < p {
                        assert(out@[a] == old_out[a]);
                    } else if a == p {
                    } else {
                        assert(out@[a] == old_out[a - 1]);
                    }
                }
                assert forall|a: int| 0 <= a < out@.len() implies (#[trigger] out@[a]).deleted_at is Some by {
                    if a < p {
                        assert(out@[a] == old_out[a]);
                    } else if a > p {
                        assert(out@[a] == old_out[a - 1]);
                    }
                }
            }
        }
        i = i + 1;
    }
    assert(vs.take(rows@.len() as int) =~= vs);
    Ok(out)
}

} // verus!

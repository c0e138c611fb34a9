//! `NoteStore`: the public API over the `notes` table, with the domain rules
//! of the application (soft delete, restore, retention cleanup).
use vstd::prelude::*;

use crate::database::{
    self, erase_note, insert_note, purge_expired, select_active, select_note, selects_trashed,
    trash_note, untrash_note, update_content, valid_db, view_found, view_listed, Database, DbError,
    DbView, has_id, row_with_id,
};
use crate::note::{is_active, Note, NoteView};
use crate::timestamp::{
    clock_instant, days_before, read_once, spec_days_before, Timestamp, MAX_RETENTION_DAYS,
    MAX_SPAN_DAYS, SECS_PER_DAY,
};

verus! {

/// Update the note with this id, then read it back: the new state and the
/// note as it now reads (none when no note has the id, or it is trashed).
pub open spec fn revise_note(db: DbView, id: i64, content: Seq<char>, now: Timestamp) -> (
    DbView,
    Result<Option<NoteView>, DbError>,
) {
    let (after, changed) = update_content(db, id, content, now);
    match changed {
        Err(e) => (after, Err(e)),
        Ok(true) => (after, select_note(after, id)),
        Ok(false) => (after, Ok(None)),
    }
}

/// Trash the active note with this id at `now`: the new state and the note
/// as it read before (none when there is no active note with the id).
pub open spec fn discard_note(db: DbView, id: i64, now: Timestamp) -> (
    DbView,
    Result<Option<NoteView>, DbError>,
) {
    match select_note(db, id) {
        Err(e) => (db, Err(e)),
        Ok(None) => (db, Ok(None)),
        Ok(Some(n)) => {
            let (after, r) = trash_note(db, id, now);
            match r {
                Err(e) => (after, Err(e)),
                Ok(_) => (after, Ok(Some(n))),
            }
        },
    }
}

/// Purge the notes trashed more than `retention_days` days before `now`.
pub open spec fn clean_up(db: DbView, now: Timestamp, retention_days: i64) -> (
    DbView,
    Result<usize, DbError>,
) {
    match spec_days_before(now, retention_days) {
        Some(cutoff) => purge_expired(db, cutoff),
        None => (db, Err(DbError::CutoffOutOfRange)),
    }
}

/// For a clock reading at or after the epoch, a retention of up to
/// `MAX_RETENTION_DAYS` days gives a representable cutoff.
pub proof fn lemma_retention_cutoff_representable(now: Timestamp, retention_days: i64)
    requires
        clock_instant(now),
    ensures
        0 <= retention_days <= MAX_RETENTION_DAYS ==> spec_days_before(now, retention_days) is Some,
{
    if 0 <= retention_days <= MAX_RETENTION_DAYS {
        assert(0 <= retention_days * SECS_PER_DAY <= MAX_RETENTION_DAYS * SECS_PER_DAY)
            by (nonlinear_arith)
            requires
                0 <= retention_days <= MAX_RETENTION_DAYS,
        ;
    }
}

/// The note store that callers use; they never touch the table directly.
pub struct NoteStore {
    connection: Database,
}

impl View for NoteStore {
    type V = DbView;

    closed spec fn view(&self) -> DbView {
        self.connection@
    }
}

impl NoteStore {
    /// Every store keeps the ids of its rows strictly increasing; this brings
    /// that fact to a caller that holds a store (it does nothing at run time).
    pub fn ids_increase(&self)
        ensures
            valid_db(self@),
    {
        self.connection.ids_increase();
    }

    /// The instants this store has read from the system clock, oldest first.
    pub closed spec fn readings(&self) -> Seq<Timestamp> {
        self.connection.readings()
    }

    /// A store over this database.
    pub fn from_connection(connection: Database) -> (s: Self)
        ensures
            s@ == connection@,
            s.readings() == connection.readings(),
    {
        NoteStore { connection }
    }

    /// The database the store works on.
    pub fn connection(&self) -> (r: &Database)
        ensures
            r@ == self@,
            r.readings() == self.readings(),
    {
        &self.connection
    }

    /// Adds a note with this content, created and updated at `now`; returns its id.
    pub fn add_note_at(&mut self, content: &str, now: Timestamp) -> (r: Result<i64, DbError>)
        ensures
            (final(self)@, r) == insert_note(old(self)@, content@, now),
            final(self).readings() == old(self).readings(),
            valid_db(final(self)@),
    {
        database::add_note_at(&mut self.connection, content, now)
    }

    /// Adds a note with this content, stamped with the current time; returns its id.
    pub fn add_note(&mut self, content: &str) -> (r: Result<i64, DbError>)
        ensures
            r == Err::<i64, DbError>(DbError::ClockUnavailable) ==> final(self)@ == old(self)@,
            r != Err::<i64, DbError>(DbError::ClockUnavailable) ==> exists|now: Timestamp|
                clock_instant(now) && (final(self)@, r) == insert_note(old(self)@, content@, now),
            r == Err::<i64, DbError>(DbError::ClockUnavailable) ==> final(self).readings()
                == old(self).readings(),
            r != Err::<i64, DbError>(DbError::ClockUnavailable) ==> read_once(
                old(self).readings(),
                final(self).readings(),
            ) && clock_instant(final(self).readings().last()) && (final(self)@, r) == insert_note(
                old(self)@,
                content@,
                final(self).readings().last(),
            ),
            valid_db(final(self)@),
    {
        proof {
            use_type_invariant(&self.connection);
        }
        match self.connection.read_clock() {
            Some(now) => {
                let r = self.add_note_at(content, now);
                proof {
                    assert(self.readings().drop_last() =~= old(self).readings());
                }
                r
            },
            None => Err(DbError::ClockUnavailable),
        }
    }

    /// The active note with this id, if there is one.
    pub fn get_note(&self, id: i64) -> (r: Result<Option<Note>, DbError>)
        ensures
            view_found(r) == select_note(self@, id),
    {
        database::get_note_by_id(&self.connection, id)
    }

    /// The active notes in id order.
    pub fn notes(&self) -> (r: Result<Vec<Note>, DbError>)
        ensures
            view_listed(r) == select_active(self@),
    {
        database::get_all_notes(&self.connection)
    }

    /// Replaces the content of the note with this id, stamped `now`, and
    /// returns the note as it now reads: none when no note has that id, or
    /// when it is trashed (its content changes all the same).
    pub fn update_note_at(&mut self, id: i64, content: &str, now: Timestamp) -> (r: Result<
        Option<Note>,
        DbError,
    >)
        ensures
            (final(self)@, view_found(r)) == revise_note(old(self)@, id, content@, now),
            final(self).readings() == old(self).readings(),
            valid_db(final(self)@),
    {
        let updated = database::update_note_at(&mut self.connection, id, content, now)?;
        if updated {
            self.get_note(id)
        } else {
            Ok(None)
        }
    }

    /// Replaces the content of the note with this id, stamped with the current
    /// time, and returns the note as it now reads.
    pub fn update_note(&mut self, id: i64, content: &str) -> (r: Result<Option<Note>, DbError>)
        ensures
            r == Err::<Option<Note>, DbError>(DbError::ClockUnavailable) ==> final(self)@ == old(
                self,
            )@,
            r != Err::<Option<Note>, DbError>(DbError::ClockUnavailable) ==> exists|now: Timestamp|
                clock_instant(now) && (final(self)@, view_found(r)) == revise_note(
                    old(self)@,
                    id,
                    content@,
                    now,
                ),
            r == Err::<Option<Note>, DbError>(DbError::ClockUnavailable) ==> final(self).readings()
                == old(self).readings(),
            r != Err::<Option<Note>, DbError>(DbError::ClockUnavailable) ==> read_once(
                old(self).readings(),
                final(self).readings(),
            ) && clock_instant(final(self).readings().last()) && (final(self)@, view_found(r)) == revise_note(
                old(self)@,
                id,
                content@,
                final(self).readings().last(),
            ),
            valid_db(final(self)@),
    {
        proof {
            use_type_invariant(&self.connection);
        }
        match self.connection.read_clock() {
            Some(now) => {
                let r = self.update_note_at(id, content, now);
                proof {
                    assert(self.readings().drop_last() =~= old(self).readings());
                }
                r
            },
            None => Err(DbError::ClockUnavailable),
        }
    }

    /// The trashed notes, most recently trashed first.
    pub fn deleted_notes(&self) -> (r: Result<Vec<Note>, DbError>)
        ensures
            selects_trashed(self@, view_listed(r)),
    {
        database::get_deleted_notes(&self.connection)
    }

    /// Trashes the active note with this id at `now`, and returns it as it
    /// read before; none when there is no active note with that id.
    pub fn delete_note_at(&mut self, id: i64, now: Timestamp) -> (r: Result<Option<Note>, DbError>)
        ensures
            (final(self)@, view_found(r)) == discard_note(old(self)@, id, now),
            final(self).readings() == old(self).readings(),
            valid_db(final(self)@),
    {
        proof {
            use_type_invariant(&self.connection);
        }
        let note = self.get_note(id)?;
        if note.is_some() {
            database::soft_delete_note_at(&mut self.connection, id, now)?;
        }
        Ok(note)
    }

    /// Trashes the active note with this id at the current time, and returns
    /// it as it read before. The clock is read only when there is such a
    /// note: without one, the result is none and nothing changes.
    pub fn delete_note(&mut self, id: i64) -> (r: Result<Option<Note>, DbError>)
        ensures
            r == Err::<Option<Note>, DbError>(DbError::ClockUnavailable) ==> final(self)@ == old(
                self,
            )@,
            r != Err::<Option<Note>, DbError>(DbError::ClockUnavailable) ==> exists|now: Timestamp|
                clock_instant(now) && (final(self)@, view_found(r)) == discard_note(
                    old(self)@,
                    id,
                    now,
                ),
            old(self)@ matches Some(rows) && !(has_id(rows, id) && is_active(row_with_id(rows, id)))
                ==> (r matches Ok(None) && final(self)@ == old(self)@),
            old(self)@ is None ==> r == Err::<Option<Note>, DbError>(DbError::NoSuchTable)
                && final(self)@ == old(self)@,
            !(select_note(old(self)@, id) matches Ok(Some(_))) ==> final(self).readings() == old(
                self,
            ).readings(),
            r == Err::<Option<Note>, DbError>(DbError::ClockUnavailable) ==> final(self).readings()
                == old(self).readings(),
            select_note(old(self)@, id) matches Ok(Some(_)) && r != Err::<Option<Note>, DbError>(
                DbError::ClockUnavailable,
            ) ==> read_once(old(self).readings(), final(self).readings()) && clock_instant(
                final(self).readings().last(),
            ) && (final(self)@, view_found(r)) == discard_note(
                old(self)@,
                id,
                final(self).readings().last(),
            ),
            valid_db(final(self)@),
    {
        proof {
            use_type_invariant(&self.connection);
        }
        let ghost epoch = Timestamp { secs: 0, nanos: 0 };
        let found = self.get_note(id);
        match found {
            Err(e) => {
                assert(clock_instant(epoch));
                assert(discard_note(self@, id, epoch) == (self@, Err::<Option<NoteView>, DbError>(e)));
                Err(e)
            },
            Ok(None) => {
                assert(clock_instant(epoch));
                assert(discard_note(self@, id, epoch) == (self@, Ok::<Option<NoteView>, DbError>(None)));
                Ok(None)
            },
            Ok(Some(note)) => match self.connection.read_clock() {
                None => Err(DbError::ClockUnavailable),
                Some(now) => {
                    let trashed = database::soft_delete_note_at(&mut self.connection, id, now);
                    proof {
                        assert(self.readings().drop_last() =~= old(self).readings());
                    }
                    match trashed {
                        Err(e) => Err(e),
                        Ok(_) => Ok(Some(note)),
                    }
                },
            },
        }
    }

    /// Purges the notes trashed more than `retention_days` days before `now`
    /// (a negative count reaches into the future); returns how many went.
    /// When that cutoff instant cannot be represented, nothing changes and the
    /// error says so.
    pub fn cleanup_deleted_notes_at(&mut self, now: Timestamp, retention_days: i64) -> (r: Result<
        usize,
        DbError,
    >)
        requires
            now.wf(),
            -MAX_SPAN_DAYS <= retention_days <= MAX_SPAN_DAYS,
        ensures
            (final(self)@, r) == clean_up(old(self)@, now, retention_days),
            final(self).readings() == old(self).readings(),
            valid_db(final(self)@),
    {
        proof {
            use_type_invariant(&self.connection);
        }
        match days_before(now, retention_days) {
            Some(cutoff) => database::hard_delete_expired_notes(&mut self.connection, cutoff),
            None => Err(DbError::CutoffOutOfRange),
        }
    }

    /// Purges the notes trashed more than `retention_days` days before the
    /// current time; returns how many went. With a table and a retention
    /// between 0 and `MAX_RETENTION_DAYS` days this succeeds unless the
    /// clock cannot be read.
    pub fn cleanup_deleted_notes(&mut self, retention_days: i64) -> (r: Result<usize, DbError>)
        requires
            -MAX_SPAN_DAYS <= retention_days <= MAX_SPAN_DAYS,
        ensures
            r == Err::<usize, DbError>(DbError::ClockUnavailable) ==> final(self)@ == old(self)@,
            r != Err::<usize, DbError>(DbError::ClockUnavailable) ==> exists|now: Timestamp|
                clock_instant(now) && (final(self)@, r) == clean_up(
                    old(self)@,
                    now,
                    retention_days,
                ),
            old(self)@ is Some && 0 <= retention_days <= MAX_RETENTION_DAYS ==> (r is Ok || r
                == Err::<usize, DbError>(DbError::ClockUnavailable)),
            r == Err::<usize, DbError>(DbError::ClockUnavailable) ==> final(self).readings()
                == old(self).readings(),
            r != Err::<usize, DbError>(DbError::ClockUnavailable) ==> read_once(
                old(self).readings(),
                final(self).readings(),
            ) && clock_instant(final(self).readings().last()) && (final(self)@, r) == clean_up(
                old(self)@,
                final(self).readings().last(),
                retention_days,
            ),
            valid_db(final(self)@),
    {
        proof {
            use_type_invariant(&self.connection);
        }
        match self.connection.read_clock() {
            Some(now) => {
                proof {
                    lemma_retention_cutoff_representable(now, retention_days);
                }
                let r = self.cleanup_deleted_notes_at(now, retention_days);
                proof {
                    assert(self.readings().drop_last() =~= old(self).readings());
                }
                r
            },
            None => Err(DbError::ClockUnavailable),
        }
    }

    /// Removes the note with this id for good, trashed or not; says whether it existed.
    pub fn permanently_delete_note(&mut self, id: i64) -> (r: Result<bool, DbError>)
        ensures
            (final(self)@, r) == erase_note(old(self)@, id),
            final(self).readings() == old(self).readings(),
            valid_db(final(self)@),
    {
        database::hard_delete_note(&mut self.connection, id)
    }

    /// Takes the tombstone off the note with this id, if it is trashed; says
    /// whether it was.
    pub fn restore_note(&mut self, id: i64) -> (r: Result<bool, DbError>)
        ensures
            (final(self)@, r) == untrash_note(old(self)@, id),
            final(self).readings() == old(self).readings(),
            valid_db(final(self)@),
    {
        database::restore_note(&mut self.connection, id)
    }
}

} // verus!

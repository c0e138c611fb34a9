use chrono::Utc;
use jotr_core::database::{
    add_note, get_all_notes, get_all_rows, get_deleted_notes, get_note_by_id,
    hard_delete_expired_notes, initialize_database, restore_note, soft_delete_note, update_note,
    Database, DbError,
};
use jotr_core::Timestamp;

type Result<T> = std::result::Result<T, DbError>;

fn stamp(t: chrono::DateTime<Utc>) -> Timestamp {
    Timestamp { secs: t.timestamp(), nanos: t.timestamp_subsec_nanos() }
}

fn setup_db() -> Result<Database> {
    let mut connection = Database::open_in_memory();

    initialize_database(&mut connection)?;

    Ok(connection)
}

#[test] // CREATE
fn can_add_note() -> Result<()> {
    let mut connection = setup_db()?;

    let id = add_note(&mut connection, "Hello JotR")?;

    assert_eq!(id, 1);

    Ok(())
}

#[test] // READ: Single Note
fn can_get_note_by_id() -> Result<()> {
    let mut connection = setup_db()?;

    let before = stamp(Utc::now());

    let id = add_note(&mut connection, "Hello JotR")?;

    let after = stamp(Utc::now());

    let note = get_note_by_id(&connection, id)?.expect("Note should exist");

    assert_eq!(note.id, id);
    assert_eq!(note.content, "Hello JotR");

    // Check that creation time (add_note call) is between `before` and `after` time
    assert!(note.created_at >= before);
    assert!(note.created_at <= after);

    // Note was only created, therefore no updates made
    assert!(note.updated_at == note.created_at);

    Ok(())
}

#[test] // READ: All Notes
fn get_all_notes_excludes_soft_deleted_notes() -> Result<()> {
    let mut connection = setup_db()?;

    let id1 = add_note(&mut connection, "First note")?;
    let id2 = add_note(&mut connection, "Second note")?;

    soft_delete_note(&mut connection, id1)?;

    let notes = get_all_notes(&connection)?;

    assert_eq!(notes.len(), 1);
    assert_eq!(notes[0].id, id2);
    assert_eq!(notes[0].content, "Second note");

    Ok(())
}

#[test] // UPDATE
fn can_update_note() -> Result<()> {
    let mut connection = setup_db()?;

    let id = add_note(&mut connection, "Hello JotR")?;

    let updated = update_note(&mut connection, id, "Updated content")?;

    assert!(updated);

    let note = get_note_by_id(&connection, id)?.expect("Note should exist");

    assert_eq!(note.content, "Updated content");

    Ok(())
}

#[test] // SOFT DELETE
fn can_soft_delete_note() -> Result<()> {
    let mut connection = setup_db()?;
    let id = add_note(&mut connection, "Hello JotR")?;
    let deleted = soft_delete_note(&mut connection, id)?;

    assert!(deleted);

    let note = get_note_by_id(&connection, id)?;

    assert!(note.is_none());

    Ok(())
}

#[test] // HARD DELETE
fn can_hard_delete_expired_notes() -> Result<()> {
    let mut connection = setup_db()?;

    let id1 = add_note(&mut connection, "First note")?;
    let id2 = add_note(&mut connection, "Second note")?;

    soft_delete_note(&mut connection, id1)?;
    soft_delete_note(&mut connection, id2)?;

    let cutoff = stamp(Utc::now() + chrono::Duration::seconds(1));

    let rows_deleted = hard_delete_expired_notes(&mut connection, cutoff)?;

    assert_eq!(rows_deleted, 2);

    let remaining = get_all_rows(&connection)?
        .iter()
        .filter(|note| note.id == id1 || note.id == id2)
        .count();

    assert_eq!(remaining, 0);

    Ok(())
}

#[test] // READ: Missing note that doesn't exist
fn getting_missing_note_returns_none() -> Result<()> {
    let connection = setup_db()?;

    let note = get_note_by_id(&connection, 999)?;

    assert_eq!(note, None);

    Ok(())
}

#[test] // UPDATE: Missing note that doesn't exist
fn updating_missing_note_returns_false() -> Result<()> {
    let mut connection = setup_db()?;

    let updated = update_note(&mut connection, 999, "Updated content")?;

    assert!(!updated);

    Ok(())
}

#[test] // SOFT DELETE: Missing note that doesn't exist
fn soft_deleting_missing_note_returns_false() -> Result<()> {
    let mut connection = setup_db()?;

    let deleted = soft_delete_note(&mut connection, 999)?;

    assert!(!deleted);

    Ok(())
}

#[test] // HARD DELETE: No notes to delete
fn hard_deleting_with_no_expired_notes_returns_zero() -> Result<()> {
    let mut connection = setup_db()?;

    let cutoff = stamp(Utc::now());

    let rows_deleted = hard_delete_expired_notes(&mut connection, cutoff)?;

    assert_eq!(rows_deleted, 0);

    Ok(())
}

#[test] // READ: Get deleted notes
fn can_get_deleted_notes() -> Result<()> {
    let mut connection = setup_db()?;

    let id1 = add_note(&mut connection, "First note")?;
    let id2 = add_note(&mut connection, "Second note")?;

    soft_delete_note(&mut connection, id1)?;
    soft_delete_note(&mut connection, id2)?;

    let deleted_notes = get_deleted_notes(&connection)?;

    assert_eq!(deleted_notes.len(), 2);
    assert_eq!(deleted_notes[0].id, id2);
    assert_eq!(deleted_notes[1].id, id1);

    Ok(())
}

#[test]
fn can_restore_note() -> Result<()> {
    let mut connection = setup_db()?;

    let id = add_note(&mut connection, "Hello JotR")?;
    soft_delete_note(&mut connection, id)?;

    let restored = restore_note(&mut connection, id)?;

    assert!(restored);

    let note = get_note_by_id(&connection, id)?.expect("Note should exist");

    assert_eq!(note.id, id);
    assert_eq!(note.content, "Hello JotR");
    assert!(note.deleted_at.is_none());

    Ok(())
}

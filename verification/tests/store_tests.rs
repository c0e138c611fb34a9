use jotr_core::database::{initialize_database, Database, DbError};
use jotr_core::NoteStore;

type Result<T> = std::result::Result<T, DbError>;

fn setup_store() -> Result<NoteStore> {
    let mut connection = Database::open_in_memory();
    initialize_database(&mut connection)?;

    Ok(NoteStore::from_connection(connection))
}

#[test]
fn update_returns_updated_note() -> Result<()> {
    let mut store = setup_store()?;

    let id = store.add_note("Hello JotR")?;
    let before_change = store.get_note(id)?.expect("Note should exist");

    let updated = store
        .update_note(id, "Updated content")?
        .expect("Updated note should exist");

    assert_eq!(updated.id, id);
    assert_eq!(updated.content, "Updated content");

    assert_eq!(updated.created_at, before_change.created_at);
    assert!(updated.updated_at >= before_change.updated_at);

    Ok(())
}

#[test]
fn delete_returns_deleted_note() -> Result<()> {
    let mut store = setup_store()?;

    let id = store.add_note("Hello JotR")?;
    let before_change = store.get_note(id)?.expect("Note should exist");

    let deleted = store
        .delete_note(id)?
        .expect("Deleted note should be returned");

    assert_eq!(deleted.id, id);
    assert_eq!(deleted.content, "Hello JotR");
    assert_eq!(deleted.created_at, before_change.created_at);
    assert_eq!(deleted.updated_at, before_change.updated_at);

    assert_eq!(store.get_note(id)?, None);

    Ok(())
}

#[test]
fn update_missing_note_returns_none() -> Result<()> {
    let mut store = setup_store()?;

    let note = store.update_note(999, "Updated content")?;

    assert_eq!(note, None);

    Ok(())
}

#[test]
fn delete_missing_note_returns_none() -> Result<()> {
    let mut store = setup_store()?;

    let note = store.delete_note(999)?;

    assert_eq!(note, None);

    Ok(())
}

#[test]
fn deleted_notes_returns_soft_deleted_notes() -> Result<()> {
    let mut store = setup_store()?;

    let id = store.add_note("Hello JotR")?;
    store.delete_note(id)?;

    let deleted = store.deleted_notes()?;

    assert_eq!(deleted.len(), 1);
    assert_eq!(deleted[0].id, id);
    assert!(deleted[0].deleted_at.is_some());

    Ok(())
}

#[test]
fn restore_returns_note_to_active_notes() -> Result<()> {
    let mut store = setup_store()?;

    let id = store.add_note("Hello JotR")?;
    store.delete_note(id)?;

    let restored = store.restore_note(id)?;

    assert!(restored);

    let note = store
        .get_note(id)?
        .expect("Restored note should be active again");

    assert_eq!(note.id, id);
    assert_eq!(note.content, "Hello JotR");
    assert_eq!(note.deleted_at, None);

    Ok(())
}

#[test]
fn cleanup_deleted_notes_removes_expired_notes() -> Result<()> {
    let mut store = setup_store()?;

    let id = store.add_note("Hello JotR")?;
    store.delete_note(id)?;

    let deleted = store.cleanup_deleted_notes(-1)?;

    assert_eq!(deleted, 1);
    assert!(store.deleted_notes()?.is_empty());

    Ok(())
}

#[test]
fn permanently_delete_note_removes_note() -> Result<()> {
    let mut store = setup_store()?;

    let id = store.add_note("Hello JotR")?;
    store.delete_note(id)?;

    let deleted = store.permanently_delete_note(id)?;

    assert!(deleted);
    assert!(store.deleted_notes()?.is_empty());

    Ok(())
}

use jotr_core::database::{
    add_note, add_note_at, from_rows, get_all_notes, get_all_rows, get_deleted_notes,
    get_note_by_id, hard_delete_expired_notes, hard_delete_note, initialize_database,
    restore_note, soft_delete_note, soft_delete_note_at, update_note, update_note_at, Database,
    DbError,
};
use jotr_core::{Note, NoteStore, Timestamp};

fn at(secs: i64) -> Timestamp {
    Timestamp { secs, nanos: 0 }
}

fn fresh() -> Database {
    let mut db = Database::open_in_memory();
    initialize_database(&mut db).unwrap();
    db
}

fn note(id: i64, content: &str, deleted_at: Option<Timestamp>) -> Note {
    Note {
        id,
        content: content.to_string(),
        created_at: at(100),
        updated_at: at(100),
        deleted_at,
    }
}

#[test]
fn every_statement_needs_the_table() {
    let mut db = Database::open_in_memory();
    assert_eq!(add_note(&mut db, "x"), Err(DbError::NoSuchTable));
    assert_eq!(get_note_by_id(&db, 1), Err(DbError::NoSuchTable));
    assert_eq!(get_all_notes(&db), Err(DbError::NoSuchTable));
    assert_eq!(get_deleted_notes(&db), Err(DbError::NoSuchTable));
    assert_eq!(update_note(&mut db, 1, "y"), Err(DbError::NoSuchTable));
    assert_eq!(soft_delete_note(&mut db, 1), Err(DbError::NoSuchTable));
    assert_eq!(restore_note(&mut db, 1), Err(DbError::NoSuchTable));
    assert_eq!(hard_delete_note(&mut db, 1), Err(DbError::NoSuchTable));
    assert_eq!(hard_delete_expired_notes(&mut db, at(0)), Err(DbError::NoSuchTable));
    assert_eq!(get_all_rows(&db), Err(DbError::NoSuchTable));
}

#[test]
fn initializing_twice_keeps_the_notes() {
    let mut db = fresh();
    add_note_at(&mut db, "kept", at(5)).unwrap();
    initialize_database(&mut db).unwrap();
    let rows = get_all_rows(&db).unwrap();
    assert_eq!(rows.len(), 1);
    assert_eq!(rows[0].content, "kept");
}

#[test]
fn add_then_get_gives_back_the_note() {
    let mut db = fresh();
    let id = add_note_at(&mut db, "hello", at(42)).unwrap();
    assert_eq!(id, 1);
    let n = get_note_by_id(&db, id).unwrap().unwrap();
    assert_eq!(n, Note {
        id: 1,
        content: "hello".to_string(),
        created_at: at(42),
        updated_at: at(42),
        deleted_at: None,
    });
}

#[test]
fn ids_are_one_more_than_the_largest() {
    let mut db = fresh();
    assert_eq!(add_note_at(&mut db, "a", at(1)), Ok(1));
    assert_eq!(add_note_at(&mut db, "b", at(2)), Ok(2));
    assert_eq!(add_note_at(&mut db, "c", at(3)), Ok(3));
    assert_eq!(hard_delete_note(&mut db, 2), Ok(true));
    assert_eq!(add_note_at(&mut db, "d", at(4)), Ok(4));
    assert_eq!(hard_delete_note(&mut db, 4), Ok(true));
    assert_eq!(add_note_at(&mut db, "e", at(5)), Ok(4));
}

#[test]
fn no_id_left_after_the_largest() {
    let mut db = from_rows(vec![note(i64::MAX, "last", None)]).unwrap();
    assert_eq!(add_note_at(&mut db, "more", at(1)), Err(DbError::Full));
    assert_eq!(get_all_rows(&db).unwrap().len(), 1);
}

#[test]
fn ids_follow_negative_rows() {
    let mut db = from_rows(vec![note(-5, "a", None)]).unwrap();
    assert_eq!(add_note_at(&mut db, "b", at(1)), Ok(-4));
}

#[test]
fn from_rows_wants_increasing_ids() {
    assert!(from_rows(vec![]).is_some());
    assert!(from_rows(vec![note(1, "a", None), note(3, "b", None)]).is_some());
    assert!(from_rows(vec![note(3, "a", None), note(1, "b", None)]).is_none());
    assert!(from_rows(vec![note(2, "a", None), note(2, "b", None)]).is_none());
}

#[test]
fn notes_are_listed_in_id_order_without_trashed_ones() {
    let mut db = fresh();
    for (i, c) in ["a", "b", "c", "d"].iter().enumerate() {
        add_note_at(&mut db, c, at(i as i64)).unwrap();
    }
    soft_delete_note_at(&mut db, 2, at(10)).unwrap();
    let ids: Vec<i64> = get_all_notes(&db).unwrap().iter().map(|n| n.id).collect();
    assert_eq!(ids, vec![1, 3, 4]);
}

#[test]
fn update_stamps_updated_at_only() {
    let mut db = fresh();
    let id = add_note_at(&mut db, "old", at(1)).unwrap();
    assert_eq!(update_note_at(&mut db, id, "new", at(9)), Ok(true));
    let n = get_note_by_id(&db, id).unwrap().unwrap();
    assert_eq!(n.content, "new");
    assert_eq!(n.created_at, at(1));
    assert_eq!(n.updated_at, at(9));
}

#[test]
fn update_reaches_trashed_notes_too() {
    let mut db = fresh();
    let id = add_note_at(&mut db, "old", at(1)).unwrap();
    soft_delete_note_at(&mut db, id, at(2)).unwrap();
    assert_eq!(update_note_at(&mut db, id, "new", at(3)), Ok(true));
    assert_eq!(get_note_by_id(&db, id), Ok(None));
    let rows = get_all_rows(&db).unwrap();
    assert_eq!(rows[0].content, "new");
    assert_eq!(rows[0].deleted_at, Some(at(2)));
}

#[test]
fn store_update_of_trashed_note_reads_none() {
    let mut db = fresh();
    let id = add_note_at(&mut db, "old", at(1)).unwrap();
    soft_delete_note_at(&mut db, id, at(2)).unwrap();
    let mut store = NoteStore::from_connection(db);
    assert_eq!(store.update_note_at(id, "new", at(3)), Ok(None));
    assert_eq!(get_all_rows(store.connection()).unwrap()[0].content, "new");
}

#[test]
fn deleting_twice_keeps_the_first_tombstone() {
    let mut db = fresh();
    let id = add_note_at(&mut db, "x", at(1)).unwrap();
    assert_eq!(soft_delete_note_at(&mut db, id, at(5)), Ok(true));
    assert_eq!(soft_delete_note_at(&mut db, id, at(9)), Ok(false));
    assert_eq!(get_all_rows(&db).unwrap()[0].deleted_at, Some(at(5)));
}

#[test]
fn restore_undoes_delete() {
    let mut db = fresh();
    add_note_at(&mut db, "a", at(1)).unwrap();
    let id = add_note_at(&mut db, "b", at(2)).unwrap();
    let before = get_all_rows(&db).unwrap();
    soft_delete_note_at(&mut db, id, at(7)).unwrap();
    assert_eq!(restore_note(&mut db, id), Ok(true));
    assert_eq!(get_all_rows(&db).unwrap(), before);
}

#[test]
fn restoring_an_active_note_does_nothing() {
    let mut db = fresh();
    let id = add_note_at(&mut db, "a", at(1)).unwrap();
    let before = get_all_rows(&db).unwrap();
    assert_eq!(restore_note(&mut db, id), Ok(false));
    assert_eq!(restore_note(&mut db, 77), Ok(false));
    assert_eq!(get_all_rows(&db).unwrap(), before);
}

#[test]
fn trashed_notes_come_latest_first_ties_by_decreasing_id() {
    let mut db = fresh();
    for i in 0..5 {
        add_note_at(&mut db, "n", at(i)).unwrap();
    }
    soft_delete_note_at(&mut db, 1, at(20)).unwrap();
    soft_delete_note_at(&mut db, 2, at(30)).unwrap();
    soft_delete_note_at(&mut db, 4, at(20)).unwrap();
    soft_delete_note_at(&mut db, 5, Timestamp { secs: 20, nanos: 1 }).unwrap();
    let ids: Vec<i64> = get_deleted_notes(&db).unwrap().iter().map(|n| n.id).collect();
    assert_eq!(ids, vec![2, 5, 4, 1]);
}

#[test]
fn purge_takes_only_notes_trashed_before_the_cutoff() {
    let mut db = fresh();
    for i in 0..4 {
        add_note_at(&mut db, "n", at(i)).unwrap();
    }
    soft_delete_note_at(&mut db, 1, at(10)).unwrap();
    soft_delete_note_at(&mut db, 2, at(20)).unwrap();
    soft_delete_note_at(&mut db, 3, at(30)).unwrap();
    assert_eq!(hard_delete_expired_notes(&mut db, at(20)), Ok(1));
    let ids: Vec<i64> = get_all_rows(&db).unwrap().iter().map(|n| n.id).collect();
    assert_eq!(ids, vec![2, 3, 4]);
    let active: Vec<i64> = get_all_notes(&db).unwrap().iter().map(|n| n.id).collect();
    assert_eq!(active, vec![4]);
}

#[test]
fn hard_delete_removes_trashed_or_active() {
    let mut db = fresh();
    add_note_at(&mut db, "a", at(1)).unwrap();
    add_note_at(&mut db, "b", at(2)).unwrap();
    soft_delete_note_at(&mut db, 1, at(3)).unwrap();
    assert_eq!(hard_delete_note(&mut db, 1), Ok(true));
    assert_eq!(hard_delete_note(&mut db, 2), Ok(true));
    assert_eq!(hard_delete_note(&mut db, 2), Ok(false));
    assert!(get_all_rows(&db).unwrap().is_empty());
}

#[test]
fn store_delete_hands_back_the_note_before_trashing() {
    let mut db = fresh();
    let id = add_note_at(&mut db, "x", at(1)).unwrap();
    let mut store = NoteStore::from_connection(db);
    let n = store.delete_note_at(id, at(4)).unwrap().unwrap();
    assert_eq!(n.deleted_at, None);
    assert_eq!(store.get_note(id), Ok(None));
    assert_eq!(store.delete_note_at(id, at(5)), Ok(None));
    assert_eq!(store.deleted_notes().unwrap()[0].deleted_at, Some(at(4)));
}

#[test]
fn store_cleanup_uses_whole_days() {
    let mut db = fresh();
    add_note_at(&mut db, "a", at(0)).unwrap();
    add_note_at(&mut db, "b", at(0)).unwrap();
    soft_delete_note_at(&mut db, 1, at(1_000)).unwrap();
    soft_delete_note_at(&mut db, 2, at(1_000 + 86_400)).unwrap();
    let mut store = NoteStore::from_connection(db);
    let now = at(1_000 + 2 * 86_400);
    assert_eq!(store.cleanup_deleted_notes_at(now, 1), Ok(1));
    assert_eq!(store.deleted_notes().unwrap().len(), 1);
    assert_eq!(store.cleanup_deleted_notes_at(now, 0), Ok(1));
    assert!(store.deleted_notes().unwrap().is_empty());
}

#[test]
fn store_cleanup_keeps_active_notes() {
    let mut store = NoteStore::from_connection(fresh());
    store.add_note("keep").unwrap();
    assert_eq!(store.cleanup_deleted_notes(-1000), Ok(0));
    assert_eq!(store.notes().unwrap().len(), 1);
}

#[test]
fn store_cleanup_with_unrepresentable_cutoff_fails() {
    let mut store = NoteStore::from_connection(fresh());
    let id = store.add_note("x").unwrap();
    store.delete_note(id).unwrap();
    assert_eq!(
        store.cleanup_deleted_notes(-jotr_core::timestamp::MAX_SPAN_DAYS),
        Err(DbError::CutoffOutOfRange)
    );
    assert_eq!(store.deleted_notes().unwrap().len(), 1);
}

#[test]
fn store_permanent_delete_of_missing_note_is_false() {
    let mut store = NoteStore::from_connection(fresh());
    assert_eq!(store.permanently_delete_note(3), Ok(false));
    assert_eq!(store.restore_note(3), Ok(false));
}

#[test]
fn duplicate_copies_every_field() {
    let n = note(7, "copy me", Some(at(3)));
    assert_eq!(n.duplicate(), n);
    assert!(!n.is_active());
}

#[test]
fn store_cleanup_at_with_unrepresentable_cutoff_fails() {
    let mut db = fresh();
    let id = add_note_at(&mut db, "x", at(1)).unwrap();
    soft_delete_note_at(&mut db, id, at(2)).unwrap();
    let mut store = NoteStore::from_connection(db);
    assert_eq!(
        store.cleanup_deleted_notes_at(at(1_700_000_000), 100_000_000),
        Err(DbError::CutoffOutOfRange)
    );
    assert_eq!(store.deleted_notes().unwrap().len(), 1);
}

#[test]
fn store_cleanup_with_ordinary_retention_succeeds() {
    let mut store = NoteStore::from_connection(fresh());
    let id = store.add_note("x").unwrap();
    store.delete_note(id).unwrap();
    assert_eq!(store.cleanup_deleted_notes(30), Ok(0));
    assert_eq!(store.cleanup_deleted_notes(jotr_core::timestamp::MAX_RETENTION_DAYS), Ok(0));
    assert_eq!(store.deleted_notes().unwrap().len(), 1);
}

#[test]
fn active_and_trashed_listings_share_out_the_table() {
    let mut db = fresh();
    for i in 0..5 {
        add_note_at(&mut db, "n", at(i)).unwrap();
    }
    soft_delete_note_at(&mut db, 2, at(9)).unwrap();
    soft_delete_note_at(&mut db, 5, at(9)).unwrap();
    let active = get_all_notes(&db).unwrap();
    let trashed = get_deleted_notes(&db).unwrap();
    assert_eq!(active.len() + trashed.len(), get_all_rows(&db).unwrap().len());
    let mut ids: Vec<i64> = active.iter().chain(trashed.iter()).map(|n| n.id).collect();
    ids.sort();
    assert_eq!(ids, vec![1, 2, 3, 4, 5]);
}

#[test]
fn longer_retention_purges_less() {
    let build = || {
        let mut db = fresh();
        for i in 0..3 {
            add_note_at(&mut db, "n", at(i)).unwrap();
        }
        soft_delete_note_at(&mut db, 1, at(0)).unwrap();
        soft_delete_note_at(&mut db, 2, at(5 * 86_400)).unwrap();
        soft_delete_note_at(&mut db, 3, at(9 * 86_400)).unwrap();
        NoteStore::from_connection(db)
    };
    let now = at(10 * 86_400);
    let mut short = build();
    let mut long = build();
    assert_eq!(short.cleanup_deleted_notes_at(now, 3), Ok(2));
    assert_eq!(long.cleanup_deleted_notes_at(now, 7), Ok(1));
}

#[test]
fn every_store_keeps_ids_increasing() {
    let store = NoteStore::from_connection(fresh());
    store.ids_increase();
    fresh().ids_increase();
}

#[test]
fn store_delete_of_trashed_note_is_none_and_changes_nothing() {
    let mut db = fresh();
    let id = add_note_at(&mut db, "x", at(1)).unwrap();
    soft_delete_note_at(&mut db, id, at(2)).unwrap();
    let mut store = NoteStore::from_connection(db);
    let before = get_all_rows(store.connection()).unwrap();
    assert_eq!(store.delete_note(id), Ok(None));
    assert_eq!(store.delete_note(99), Ok(None));
    assert_eq!(get_all_rows(store.connection()).unwrap(), before);
}

#[test]
fn store_delete_without_table_reports_missing_table() {
    let mut store = NoteStore::from_connection(Database::open_in_memory());
    assert_eq!(store.delete_note(1), Err(DbError::NoSuchTable));
    assert_eq!(get_all_rows(store.connection()), Err(DbError::NoSuchTable));
}

//! Properties of the note store that relate several operations.
//!
//! Each law is stated over the values of databases (`DbView`) and the
//! transitions that the operations' own contracts use, for every valid
//! database.
use vstd::prelude::*;

use crate::database::{
    active, erase_note, expired, has_id, ids_increasing, insert_note, listed_before, lookup,
    new_row, other_than, purge_expired, rewritten, row_with_id, select_active, select_note,
    tombstoned, trash_note, trashed, trashed_listing, unexpired, untrash_note, update_content,
    valid_db, DbError, DbView,
};
use crate::note::{is_active, NoteView};
use crate::store::{clean_up, discard_note, revise_note};
use crate::timestamp::{spec_days_before, Timestamp, SECS_PER_DAY};

verus! {

/// In a table with increasing ids, the row at index `i` is the one found by
/// its id.
pub proof fn lemma_lookup_at(rows: Seq<NoteView>, i: int)
    requires
        ids_increasing(rows),
        0 <= i < rows.len(),
    ensures
        has_id(rows, rows[i].id),
        row_with_id(rows, rows[i].id) == rows[i],
        lookup(rows, rows[i].id) == Some(rows[i]),
{
    let id = rows[i].id;
    assert(has_id(rows, id));
    let k = choose|k: int| 0 <= k < rows.len() && rows[k].id == id;
    if k < i {
        assert(rows[k].id < rows[i].id);
    } else if k > i {
        assert(rows[i].id < rows[k].id);
    }
}

/// Two tables whose rows carry the same ids, in the same order.
pub open spec fn same_ids(a: Seq<NoteView>, b: Seq<NoteView>) -> bool {
    a.len() == b.len() && forall|k: int| 0 <= k < a.len() ==> #[trigger] a[k].id == b[k].id
}

/// Keeping the ids keeps them increasing, and keeps which ids are present.
pub proof fn lemma_same_ids(a: Seq<NoteView>, b: Seq<NoteView>)
    requires
        ids_increasing(a),
        same_ids(a, b),
    ensures
        ids_increasing(b),
        forall|id: i64| has_id(a, id) == #[trigger] has_id(b, id),
{
    assert forall|i: int, j: int| 0 <= i < j < b.len() implies b[i].id < b[j].id by {
        assert(a[i].id == b[i].id && a[j].id == b[j].id);
    }
    assert forall|id: i64| has_id(a, id) == #[trigger] has_id(b, id) by {
        if has_id(a, id) {
            let k = choose|k: int| 0 <= k < a.len() && a[k].id == id;
            assert(b[k].id == id);
        }
        if has_id(b, id) {
            let k = choose|k: int| 0 <= k < b.len() && b[k].id == id;
            assert(a[k].id == id);
        }
    }
}

/// Filtering by `p` after filtering by `q` is filtering by `p` alone, when
/// every row that `p` keeps `q` keeps too.
pub proof fn lemma_filter_absorbs(
    s: Seq<NoteView>,
    p: spec_fn(NoteView) -> bool,
    q: spec_fn(NoteView) -> bool,
)
    requires
        forall|x: NoteView| #[trigger] p(x) ==> q(x),
    ensures
        s.filter(q).filter(p) == s.filter(p),
    decreases s.len(),
{
    if s.len() == 0 {
        assert(s.filter(q) =~= Seq::<NoteView>::empty());
        assert(s.filter(p) =~= Seq::<NoteView>::empty());
        assert(Seq::<NoteView>::empty().filter(p) =~= Seq::<NoteView>::empty());
    } else {
        let s0 = s.drop_last();
        let x = s.last();
        lemma_filter_absorbs(s0, p, q);
        assert(s0.push(x) =~= s);
        s0.lemma_filter_push(x, p);
        s0.lemma_filter_push(x, q);
        s0.filter(q).lemma_filter_push(x, p);
    }
}

/// Adding a note gives it an id larger than every id already present (1 in
/// an empty table); reading that id back gives the note with the content
/// written, created and updated at the same instant, active; every other id
/// reads as before.
pub proof fn law_add_then_get(db: DbView, content: Seq<char>, now: Timestamp, other: i64)
    requires
        valid_db(db),
        insert_note(db, content, now).1 is Ok,
    ensures
        ({
            let (after, r) = insert_note(db, content, now);
            let id = r->Ok_0;
            &&& valid_db(after)
            &&& forall|k: int| 0 <= k < db->Some_0.len() ==> #[trigger] db->Some_0[k].id < id
            &&& db->Some_0.len() == 0 ==> id == 1
            &&& select_note(after, id) == Ok::<Option<NoteView>, DbError>(
                Some(new_row(id, content, now)),
            )
            &&& other != id ==> select_note(after, other) == select_note(db, other)
        }),
{
    let rows = db->Some_0;
    let (after, r) = insert_note(db, content, now);
    let id = r->Ok_0;
    let rows2 = after->Some_0;
    assert(rows2 == rows.push(new_row(id, content, now)));
    assert forall|k: int| 0 <= k < rows.len() implies #[trigger] rows[k].id < id by {
        if k < rows.len() - 1 {
            assert(rows[k].id < rows.last().id);
        }
    }
    assert(ids_increasing(rows2)) by {
        assert forall|i: int, j: int| 0 <= i < j < rows2.len() implies rows2[i].id
            < rows2[j].id by {
            if j < rows.len() {
                assert(rows[i].id < rows[j].id);
            } else {
                assert(rows2[i] == rows[i]);
            }
        }
    }
    lemma_lookup_at(rows2, rows.len() as int);
    if other != id {
        if has_id(rows, other) {
            let k = choose|k: int| 0 <= k < rows.len() && rows[k].id == other;
            lemma_lookup_at(rows, k);
            assert(rows2[k] == rows[k]);
            lemma_lookup_at(rows2, k);
        } else {
            if has_id(rows2, other) {
                let k = choose|k: int| 0 <= k < rows2.len() && rows2[k].id == other;
                assert(k < rows.len());
                assert(rows[k].id == other);
            }
        }
    }
}

/// A new note is listed after every note listed before it.
pub proof fn law_add_then_list(db: DbView, content: Seq<char>, now: Timestamp)
    requires
        valid_db(db),
        insert_note(db, content, now).1 is Ok,
    ensures
        ({
            let (after, r) = insert_note(db, content, now);
            select_active(after) == Ok::<Seq<NoteView>, DbError>(
                select_active(db)->Ok_0.push(new_row(r->Ok_0, content, now)),
            )
        }),
{
    let rows = db->Some_0;
    let (after, r) = insert_note(db, content, now);
    rows.lemma_filter_push(new_row(r->Ok_0, content, now), active());
}

/// Updating an active note and reading it back gives the same note with the
/// new content and `updated_at` stamped; its id and creation time stay.
pub proof fn law_update_then_get(db: DbView, id: i64, content: Seq<char>, now: Timestamp)
    requires
        valid_db(db),
        select_note(db, id) matches Ok(Some(_)),
    ensures
        ({
            let n = select_note(db, id)->Ok_0->Some_0;
            let (after, r) = revise_note(db, id, content, now);
            &&& valid_db(after)
            &&& r == Ok::<Option<NoteView>, DbError>(Some(rewritten(n, content, now)))
            &&& select_note(after, id) == r
        }),
{
    let rows = db->Some_0;
    let k = choose|k: int| 0 <= k < rows.len() && rows[k].id == id;
    lemma_lookup_at(rows, k);
    let (after, changed) = update_content(db, id, content, now);
    let rows2 = after->Some_0;
    assert(same_ids(rows, rows2));
    lemma_same_ids(rows, rows2);
    lemma_lookup_at(rows2, k);
}

/// Changing or removing a note that does not exist changes nothing and says so.
pub proof fn law_missing_note_is_untouched(db: DbView, id: i64, content: Seq<char>, now: Timestamp)
    requires
        valid_db(db),
        db matches Some(rows) && !has_id(rows, id),
    ensures
        select_note(db, id) == Ok::<Option<NoteView>, DbError>(None),
        update_content(db, id, content, now) == (db, Ok::<bool, DbError>(false)),
        revise_note(db, id, content, now) == (db, Ok::<Option<NoteView>, DbError>(None)),
        trash_note(db, id, now) == (db, Ok::<bool, DbError>(false)),
        discard_note(db, id, now) == (db, Ok::<Option<NoteView>, DbError>(None)),
        untrash_note(db, id) == (db, Ok::<bool, DbError>(false)),
        erase_note(db, id) == (db, Ok::<bool, DbError>(false)),
{
    let rows = db->Some_0;
    assert forall|k: int| 0 <= k < rows.len() implies #[trigger] rows[k].id != id by {
        if rows[k].id == id {
            assert(has_id(rows, id));
        }
    }
    let (u, _) = update_content(db, id, content, now);
    assert(u->Some_0 =~= rows);
    let (t, _) = trash_note(db, id, now);
    assert(t->Some_0 =~= rows);
    let (v, _) = untrash_note(db, id);
    assert(v->Some_0 =~= rows);
    assert(rows.filter(other_than(id)) =~= rows) by {
        lemma_filter_all(rows, other_than(id));
    }
}

/// A filter that keeps every row keeps the sequence.
pub proof fn lemma_filter_all(s: Seq<NoteView>, p: spec_fn(NoteView) -> bool)
    requires
        forall|k: int| 0 <= k < s.len() ==> #[trigger] p(s[k]),
    ensures
        s.filter(p) == s,
    decreases s.len(),
{
    if s.len() == 0 {
        assert(s.filter(p) =~= s);
    } else {
        let s0 = s.drop_last();
        assert forall|k: int| 0 <= k < s0.len() implies #[trigger] p(s0[k]) by {
            assert(p(s[k]));
        }
        lemma_filter_all(s0, p);
        assert(s0.push(s.last()) =~= s);
        s0.lemma_filter_push(s.last(), p);
        assert(p(s[s.len() - 1]));
    }
}


/// Trashing an active note hands back the note as it read before; afterwards
/// it no longer reads as active, its row carries the tombstone stamped `now`,
/// and every other id reads as before.
pub proof fn law_delete_then_get(db: DbView, id: i64, now: Timestamp, other: i64)
    requires
        valid_db(db),
        select_note(db, id) matches Ok(Some(_)),
    ensures
        ({
            let n = select_note(db, id)->Ok_0->Some_0;
            let (after, r) = discard_note(db, id, now);
            &&& valid_db(after)
            &&& r == Ok::<Option<NoteView>, DbError>(Some(n))
            &&& select_note(after, id) == Ok::<Option<NoteView>, DbError>(None)
            &&& lookup(after->Some_0, id) == Some(tombstoned(n, now))
            &&& other != id ==> select_note(after, other) == select_note(db, other)
        }),
{
    let rows = db->Some_0;
    let k = choose|k: int| 0 <= k < rows.len() && rows[k].id == id;
    lemma_lookup_at(rows, k);
    let (after, r) = trash_note(db, id, now);
    let rows2 = after->Some_0;
    assert(same_ids(rows, rows2));
    lemma_same_ids(rows, rows2);
    lemma_lookup_at(rows2, k);
    if other != id && has_id(rows, other) {
        let j = choose|j: int| 0 <= j < rows.len() && rows[j].id == other;
        lemma_lookup_at(rows, j);
        lemma_lookup_at(rows2, j);
    }
}

/// Restoring a note that was just trashed gives back the database exactly as
/// it was, and says that a note was restored.
pub proof fn law_restore_undoes_delete(db: DbView, id: i64, now: Timestamp)
    requires
        valid_db(db),
        select_note(db, id) matches Ok(Some(_)),
    ensures
        untrash_note(trash_note(db, id, now).0, id) == (db, Ok::<bool, DbError>(true)),
        untrash_note(discard_note(db, id, now).0, id) == (db, Ok::<bool, DbError>(true)),
{
    let rows = db->Some_0;
    let k = choose|k: int| 0 <= k < rows.len() && rows[k].id == id;
    lemma_lookup_at(rows, k);
    let (mid, _) = trash_note(db, id, now);
    let rows2 = mid->Some_0;
    assert(same_ids(rows, rows2));
    lemma_same_ids(rows, rows2);
    lemma_lookup_at(rows2, k);
    let (back, _) = untrash_note(mid, id);
    assert forall|j: int| 0 <= j < rows.len() implies #[trigger] back->Some_0[j] == rows[j] by {
        if j != k {
            assert(rows[j].id != id);
        }
    }
    assert(back->Some_0 =~= rows);
}

/// Trashing a note twice keeps the first tombstone; the second call changes
/// nothing and says so.
pub proof fn law_delete_twice(db: DbView, id: i64, first: Timestamp, second: Timestamp)
    requires
        valid_db(db),
        db is Some,
    ensures
        ({
            let (mid, _) = trash_note(db, id, first);
            trash_note(mid, id, second) == (mid, Ok::<bool, DbError>(false))
        }),
{
    let rows = db->Some_0;
    let (mid, _) = trash_note(db, id, first);
    let rows2 = mid->Some_0;
    assert(same_ids(rows, rows2));
    lemma_same_ids(rows, rows2);
    if has_id(rows2, id) {
        let k = choose|k: int| 0 <= k < rows2.len() && rows2[k].id == id;
        lemma_lookup_at(rows2, k);
        lemma_lookup_at(rows, k);
        assert forall|j: int| 0 <= j < rows2.len() implies #[trigger] trash_note(
            mid,
            id,
            second,
        ).0->Some_0[j] == rows2[j] by {
            if j != k {
                assert(rows2[j].id != id);
            }
        }
        assert(trash_note(mid, id, second).0->Some_0 =~= rows2);
    } else {
        law_missing_note_is_untouched(mid, id, Seq::empty(), second);
    }
}

/// Restoring a note that is active changes nothing and says so.
pub proof fn law_restore_active_is_noop(db: DbView, id: i64)
    requires
        valid_db(db),
        select_note(db, id) matches Ok(Some(_)),
    ensures
        untrash_note(db, id) == (db, Ok::<bool, DbError>(false)),
{
    let rows = db->Some_0;
    let k = choose|k: int| 0 <= k < rows.len() && rows[k].id == id;
    lemma_lookup_at(rows, k);
    assert forall|j: int| 0 <= j < rows.len() implies #[trigger] untrash_note(db, id).0->Some_0[j]
        == rows[j] by {
        if j != k {
            assert(rows[j].id != id);
        }
    }
    assert(untrash_note(db, id).0->Some_0 =~= rows);
}

/// Removing a note for good: afterwards no row has its id, it reads as absent,
/// and every other id reads as before.
pub proof fn law_erase_then_get(db: DbView, id: i64, other: i64)
    requires
        valid_db(db),
        db matches Some(rows) && has_id(rows, id),
    ensures
        ({
            let (after, r) = erase_note(db, id);
            &&& valid_db(after)
            &&& r == Ok::<bool, DbError>(true)
            &&& !has_id(after->Some_0, id)
            &&& select_note(after, id) == Ok::<Option<NoteView>, DbError>(None)
            &&& other != id ==> select_note(after, other) == select_note(db, other)
        }),
{
    let rows = db->Some_0;
    let kept = rows.filter(other_than(id));
    crate::database::lemma_filter_keeps_order(rows, other_than(id));
    if has_id(kept, id) {
        let k = choose|k: int| 0 <= k < kept.len() && kept[k].id == id;
        assert(other_than(id)(kept[k]));
    }
    if other != id {
        if has_id(rows, other) {
            let j = choose|j: int| 0 <= j < rows.len() && rows[j].id == other;
            lemma_lookup_at(rows, j);
            assert(other_than(id)(rows[j]));
            assert(kept.contains(rows[j]));
            let m = choose|m: int| 0 <= m < kept.len() && kept[m] == rows[j];
            lemma_lookup_at(kept, m);
        }
        if has_id(kept, other) {
            let m = choose|m: int| 0 <= m < kept.len() && kept[m].id == other;
            assert(rows.contains(kept[m]));
        }
    }
}

/// Purging never removes an active note: the active listing is unchanged.
pub proof fn law_cleanup_keeps_active(db: DbView, cutoff: Timestamp)
    requires
        valid_db(db),
        db is Some,
    ensures
        select_active(purge_expired(db, cutoff).0) == select_active(db),
{
    lemma_filter_absorbs(db->Some_0, active(), crate::database::unexpired(cutoff));
}

/// The number a purge reports is the number of rows that left the table.
pub proof fn law_cleanup_count(db: DbView, cutoff: Timestamp)
    requires
        db is Some,
    ensures
        ({
            let (after, r) = purge_expired(db, cutoff);
            r == Ok::<usize, DbError>((db->Some_0.len() - after->Some_0.len()) as usize)
        }),
{
    lemma_filter_split(db->Some_0, crate::database::expired(cutoff), crate::database::unexpired(cutoff));
}

/// A row either passes `p` or passes `q`, never both: the two filters share
/// out the rows.
pub proof fn lemma_filter_split(
    s: Seq<NoteView>,
    p: spec_fn(NoteView) -> bool,
    q: spec_fn(NoteView) -> bool,
)
    requires
        forall|x: NoteView| #[trigger] p(x) == !q(x),
    ensures
        s.filter(p).len() + s.filter(q).len() == s.len(),
    decreases s.len(),
{
    if s.len() == 0 {
        assert(s.filter(p) =~= Seq::<NoteView>::empty());
        assert(s.filter(q) =~= Seq::<NoteView>::empty());
    } else {
        let s0 = s.drop_last();
        lemma_filter_split(s0, p, q);
        assert(s0.push(s.last()) =~= s);
        s0.lemma_filter_push(s.last(), p);
        s0.lemma_filter_push(s.last(), q);
    }
}


/// Sorted strictly by `listed_before`.
pub open spec fn listed_in_order(s: Seq<NoteView>) -> bool {
    forall|i: int, j: int| 0 <= i < j < s.len() ==> listed_before(#[trigger] s[i], #[trigger] s[j])
}

/// Two sequences with the same elements, each sorted strictly by
/// `listed_before`, are the same sequence.
pub proof fn lemma_listing_determined(a: Seq<NoteView>, b: Seq<NoteView>)
    requires
        a.to_multiset() == b.to_multiset(),
        listed_in_order(a),
        listed_in_order(b),
    ensures
        a == b,
    decreases a.len(),
{
    vstd::seq_lib::to_multiset_len(a);
    vstd::seq_lib::to_multiset_len(b);
    if a.len() == 0 {
        assert(a =~= b);
    } else {
        let x = a[0];
        let y = b[0];
        vstd::seq_lib::to_multiset_contains(a, x);
        vstd::seq_lib::to_multiset_contains(b, x);
        vstd::seq_lib::to_multiset_contains(a, y);
        vstd::seq_lib::to_multiset_contains(b, y);
        assert(a.contains(x));
        assert(b.contains(y));
        let j = choose|j: int| 0 <= j < b.len() && b[j] == x;
        let i = choose|i: int| 0 <= i < a.len() && a[i] == y;
        if x != y {
            assert(i > 0 && j > 0);
            assert(listed_before(a[0], a[i]));
            assert(listed_before(b[0], b[j]));
            assert(false);
        }
        vstd::seq_lib::to_multiset_remove(a, 0);
        vstd::seq_lib::to_multiset_remove(b, 0);
        assert(a.remove(0) =~= a.drop_first());
        assert(b.remove(0) =~= b.drop_first());
        let a1 = a.drop_first();
        let b1 = b.drop_first();
        assert forall|p: int, q: int| 0 <= p < q < a1.len() implies listed_before(
            #[trigger] a1[p],
            #[trigger] a1[q],
        ) by {
            assert(a1[p] == a[p + 1] && a1[q] == a[q + 1]);
        }
        assert forall|p: int, q: int| 0 <= p < q < b1.len() implies listed_before(
            #[trigger] b1[p],
            #[trigger] b1[q],
        ) by {
            assert(b1[p] == b[p + 1] && b1[q] == b[q + 1]);
        }
        lemma_listing_determined(a1, b1);
        assert(a =~= b) by {
            assert forall|k: int| 0 <= k < a.len() implies a[k] == b[k] by {
                if k > 0 {
                    assert(a[k] == a1[k - 1] && b[k] == b1[k - 1]);
                }
            }
        }
    }
}

/// The listing of trashed notes is fully determined by the table: any two
/// listings that the contract of `get_deleted_notes` admits are equal.
pub proof fn law_trashed_listing_unique(rows: Seq<NoteView>, a: Seq<NoteView>, b: Seq<NoteView>)
    requires
        trashed_listing(rows, a),
        trashed_listing(rows, b),
    ensures
        a == b,
{
    lemma_listing_determined(a, b);
}


/// A note that was just trashed shows up in the listing of trashed notes,
/// tombstone and all.
pub proof fn law_deleted_note_is_listed(db: DbView, id: i64, now: Timestamp, out: Seq<NoteView>)
    requires
        valid_db(db),
        select_note(db, id) matches Ok(Some(_)),
        trashed_listing(discard_note(db, id, now).0->Some_0, out),
    ensures
        out.contains(tombstoned(select_note(db, id)->Ok_0->Some_0, now)),
{
    let rows = db->Some_0;
    let n = select_note(db, id)->Ok_0->Some_0;
    law_delete_then_get(db, id, now, id);
    let rows2 = discard_note(db, id, now).0->Some_0;
    let k = choose|k: int| 0 <= k < rows.len() && rows[k].id == id;
    lemma_lookup_at(rows, k);
    let (mid, _) = trash_note(db, id, now);
    assert(same_ids(rows, rows2));
    lemma_same_ids(rows, rows2);
    lemma_lookup_at(rows2, k);
    assert(trashed()(rows2[k]));
    rows2.lemma_filter_contains(trashed(), k);
    let x = tombstoned(n, now);
    vstd::seq_lib::to_multiset_contains(rows2.filter(trashed()), x);
    vstd::seq_lib::to_multiset_contains(out, x);
}

/// Reading by id and listing agree: an id reads as a note exactly when that
/// note is in the listing of active notes.
pub proof fn law_listing_matches_reads(db: DbView, id: i64)
    requires
        valid_db(db),
        db is Some,
    ensures
        ({
            let listed = select_active(db)->Ok_0;
            &&& select_note(db, id) matches Ok(Some(n)) ==> listed.contains(n)
            &&& forall|k: int|
                0 <= k < listed.len() ==> select_note(db, (#[trigger] listed[k]).id)
                    == Ok::<Option<NoteView>, DbError>(Some(listed[k]))
        }),
{
    let rows = db->Some_0;
    let listed = rows.filter(active());
    if select_note(db, id) matches Ok(Some(n)) {
        let k = choose|k: int| 0 <= k < rows.len() && rows[k].id == id;
        lemma_lookup_at(rows, k);
        assert(active()(rows[k]));
        rows.lemma_filter_contains(active(), k);
    }
    assert forall|k: int| 0 <= k < listed.len() implies select_note(db, (#[trigger] listed[k]).id)
        == Ok::<Option<NoteView>, DbError>(Some(listed[k])) by {
        assert(listed.contains(listed[k]));
        rows.lemma_filter_contains_rev(active(), listed[k]);
        let j = choose|j: int| 0 <= j < rows.len() && rows[j] == listed[k];
        lemma_lookup_at(rows, j);
        assert(active()(listed[k]));
    }
}


/// Filtering by a predicate that implies another keeps no more rows.
pub proof fn lemma_filter_len_monotone(
    s: Seq<NoteView>,
    p: spec_fn(NoteView) -> bool,
    q: spec_fn(NoteView) -> bool,
)
    requires
        forall|x: NoteView| #[trigger] p(x) ==> q(x),
    ensures
        s.filter(p).len() <= s.filter(q).len(),
    decreases s.len(),
{
    if s.len() == 0 {
        assert(s.filter(p) =~= Seq::<NoteView>::empty());
    } else {
        let s0 = s.drop_last();
        lemma_filter_len_monotone(s0, p, q);
        assert(s0.push(s.last()) =~= s);
        s0.lemma_filter_push(s.last(), p);
        s0.lemma_filter_push(s.last(), q);
    }
}

/// The rows that pass `p` and those that pass `q` together make up the whole
/// table, when every row passes exactly one of them.
pub proof fn lemma_filter_split_multiset(
    s: Seq<NoteView>,
    p: spec_fn(NoteView) -> bool,
    q: spec_fn(NoteView) -> bool,
)
    requires
        forall|x: NoteView| #[trigger] p(x) == !q(x),
    ensures
        s.filter(p).to_multiset().add(s.filter(q).to_multiset()) == s.to_multiset(),
    decreases s.len(),
{
    broadcast use vstd::multiset::group_multiset_axioms;

    if s.len() == 0 {
        assert(s.filter(p) =~= Seq::<NoteView>::empty());
        assert(s.filter(q) =~= Seq::<NoteView>::empty());
        vstd::seq_lib::to_multiset_len(s);
        vstd::seq_lib::to_multiset_len(s.filter(p));
        vstd::seq_lib::to_multiset_len(s.filter(q));
        vstd::multiset::lemma_multiset_empty_len(s.to_multiset());
        vstd::multiset::lemma_multiset_empty_len(s.filter(p).to_multiset());
        vstd::multiset::lemma_multiset_empty_len(s.filter(q).to_multiset());
        assert(s.filter(p).to_multiset().add(s.filter(q).to_multiset()) =~= s.to_multiset());
    } else {
        let s0 = s.drop_last();
        let x = s.last();
        lemma_filter_split_multiset(s0, p, q);
        assert(s0.push(x) =~= s);
        s0.lemma_filter_push(x, p);
        s0.lemma_filter_push(x, q);
        vstd::seq_lib::to_multiset_build(s0, x);
        vstd::seq_lib::to_multiset_build(s0.filter(p), x);
        vstd::seq_lib::to_multiset_build(s0.filter(q), x);
        assert(s.filter(p).to_multiset().add(s.filter(q).to_multiset()) =~= s.to_multiset());
    }
}

/// The active listing and the trashed notes share out the table: every row is
/// in exactly one of them.
pub proof fn law_listings_partition_table(db: DbView)
    requires
        db is Some,
    ensures
        ({
            let rows = db->Some_0;
            &&& select_active(db)->Ok_0.to_multiset().add(rows.filter(trashed()).to_multiset())
                == rows.to_multiset()
            &&& select_active(db)->Ok_0.len() + rows.filter(trashed()).len() == rows.len()
        }),
{
    lemma_filter_split_multiset(db->Some_0, active(), trashed());
    lemma_filter_split(db->Some_0, active(), trashed());
}

/// A longer retention never purges more: it removes at most as many notes as
/// a shorter one, and what the shorter one keeps is what the longer one keeps,
/// minus the notes only the shorter one removes.
pub proof fn law_longer_retention_purges_less(
    db: DbView,
    now: Timestamp,
    shorter: i64,
    longer: i64,
)
    requires
        db is Some,
        db->Some_0.len() <= usize::MAX,
        shorter <= longer,
        clean_up(db, now, shorter).1 is Ok,
        clean_up(db, now, longer).1 is Ok,
    ensures
        clean_up(db, now, longer).1->Ok_0 <= clean_up(db, now, shorter).1->Ok_0,
        clean_up(db, now, shorter).0->Some_0 == clean_up(db, now, longer).0->Some_0.filter(
            unexpired(spec_days_before(now, shorter)->Some_0),
        ),
{
    let rows = db->Some_0;
    let c1 = spec_days_before(now, shorter)->Some_0;
    let c2 = spec_days_before(now, longer)->Some_0;
    assert(shorter * SECS_PER_DAY <= longer * SECS_PER_DAY) by (nonlinear_arith)
        requires
            shorter <= longer,
    ;
    assert forall|x: NoteView| #[trigger] expired(c2)(x) implies expired(c1)(x) by {}
    assert forall|x: NoteView| #[trigger] unexpired(c1)(x) implies unexpired(c2)(x) by {}
    lemma_filter_len_monotone(rows, expired(c2), expired(c1));
    assert(rows.filter(expired(c1)).len() <= rows.len());
    lemma_filter_absorbs(rows, unexpired(c1), unexpired(c2));
}


/// Rows of two tables with the same ids in the same order, identical except
/// perhaps at the row with id `id`, read the same at every other id.
pub proof fn lemma_other_ids_read_alike(rows: Seq<NoteView>, rows2: Seq<NoteView>, id: i64)
    requires
        ids_increasing(rows),
        same_ids(rows, rows2),
        forall|k: int| 0 <= k < rows.len() && rows[k].id != id ==> #[trigger] rows2[k] == rows[k],
    ensures
        ids_increasing(rows2),
        forall|other: i64| other != id ==> #[trigger] lookup(rows2, other) == lookup(rows, other),
{
    lemma_same_ids(rows, rows2);
    assert forall|other: i64| other != id implies #[trigger] lookup(rows2, other) == lookup(
        rows,
        other,
    ) by {
        if has_id(rows, other) {
            let k = choose|k: int| 0 <= k < rows.len() && rows[k].id == other;
            lemma_lookup_at(rows, k);
            assert(rows2[k] == rows[k]);
            lemma_lookup_at(rows2, k);
        }
    }
}

/// Adding a note stamps it with the given instant as both creation and update
/// time, with the given content and no tombstone; the table grows by exactly
/// that row, and every id that was present reads as before.
pub proof fn law_add_stamps_now(db: DbView, content: Seq<char>, now: Timestamp)
    requires
        valid_db(db),
        insert_note(db, content, now).1 is Ok,
    ensures
        ({
            let rows = db->Some_0;
            let (after, r) = insert_note(db, content, now);
            let rows2 = after->Some_0;
            let id = r->Ok_0;
            &&& rows2.len() == rows.len() + 1
            &&& !has_id(rows, id)
            &&& lookup(rows2, id) matches Some(n) && n.id == id && n.content == content
                && n.created_at == now && n.updated_at == now && n.deleted_at is None
            &&& forall|other: i64| other != id ==> #[trigger] lookup(rows2, other) == lookup(
                rows,
                other,
            )
        }),
{
    let rows = db->Some_0;
    let (after, r) = insert_note(db, content, now);
    let id = r->Ok_0;
    law_add_then_get(db, content, now, id);
    let rows2 = after->Some_0;
    if has_id(rows, id) {
        let k = choose|k: int| 0 <= k < rows.len() && rows[k].id == id;
        assert(rows[k].id < id);
    }
    lemma_lookup_at(rows2, rows.len() as int);
    assert forall|other: i64| other != id implies #[trigger] lookup(rows2, other) == lookup(
        rows,
        other,
    ) by {
        law_add_then_get(db, content, now, other);
        if has_id(rows, other) {
            let k = choose|k: int| 0 <= k < rows.len() && rows[k].id == other;
            lemma_lookup_at(rows, k);
            assert(rows2[k] == rows[k]);
            lemma_lookup_at(rows2, k);
        } else if has_id(rows2, other) {
            let k = choose|k: int| 0 <= k < rows2.len() && rows2[k].id == other;
            assert(k < rows.len());
            assert(rows[k].id == other);
        }
    }
}

/// Updating the note with id `id` gives it the new content and the given
/// instant as update time, keeps its id, creation time and tombstone, and
/// leaves every other row as it was; it reports whether such a note existed.
pub proof fn law_update_changes_only_its_row(db: DbView, id: i64, content: Seq<char>, now: Timestamp)
    requires
        valid_db(db),
        db is Some,
    ensures
        ({
            let rows = db->Some_0;
            let (after, r) = update_content(db, id, content, now);
            let rows2 = after->Some_0;
            &&& r == Ok::<bool, DbError>(has_id(rows, id))
            &&& rows2.len() == rows.len()
            &&& forall|other: i64| other != id ==> #[trigger] lookup(rows2, other) == lookup(
                rows,
                other,
            )
            &&& lookup(rows, id) matches Some(n) ==> (lookup(rows2, id) matches Some(m) && m.id == id
                && m.content == content && m.updated_at == now && m.created_at == n.created_at
                && m.deleted_at == n.deleted_at)
            &&& !has_id(rows, id) ==> rows2 == rows
        }),
{
    let rows = db->Some_0;
    let rows2 = update_content(db, id, content, now).0->Some_0;
    assert(same_ids(rows, rows2));
    lemma_other_ids_read_alike(rows, rows2, id);
    if has_id(rows, id) {
        let k = choose|k: int| 0 <= k < rows.len() && rows[k].id == id;
        lemma_lookup_at(rows, k);
        lemma_lookup_at(rows2, k);
    } else {
        assert forall|k: int| 0 <= k < rows.len() implies #[trigger] rows2[k] == rows[k] by {
            assert(rows[k].id != id);
        }
        assert(rows2 =~= rows);
    }
}

/// Trashing an active note stamps its tombstone with the given instant and
/// keeps everything else about it; every other row is left as it was.
/// Trashing anything else changes nothing.
pub proof fn law_delete_stamps_tombstone(db: DbView, id: i64, now: Timestamp)
    requires
        valid_db(db),
        db is Some,
    ensures
        ({
            let rows = db->Some_0;
            let (after, r) = trash_note(db, id, now);
            let rows2 = after->Some_0;
            &&& rows2.len() == rows.len()
            &&& forall|other: i64| other != id ==> #[trigger] lookup(rows2, other) == lookup(
                rows,
                other,
            )
            &&& select_note(db, id) matches Ok(Some(n)) ==> r == Ok::<bool, DbError>(true)
            &&& select_note(db, id) matches Ok(Some(n)) ==> (lookup(rows2, id) matches Some(m)
                && m.id == id && m.deleted_at == Some(now) && m.content == n.content
                && m.created_at == n.created_at && m.updated_at == n.updated_at)
            &&& !(select_note(db, id) matches Ok(Some(_))) ==> (r == Ok::<bool, DbError>(false)
                && rows2 == rows)
        }),
{
    let rows = db->Some_0;
    let rows2 = trash_note(db, id, now).0->Some_0;
    assert(same_ids(rows, rows2));
    lemma_other_ids_read_alike(rows, rows2, id);
    if has_id(rows, id) {
        let k = choose|k: int| 0 <= k < rows.len() && rows[k].id == id;
        lemma_lookup_at(rows, k);
        lemma_lookup_at(rows2, k);
        if !is_active(rows[k]) {
            assert forall|j: int| 0 <= j < rows.len() implies #[trigger] rows2[j] == rows[j] by {
                if j != k {
                    assert(rows[j].id != id);
                }
            }
            assert(rows2 =~= rows);
        }
    } else {
        assert forall|j: int| 0 <= j < rows.len() implies #[trigger] rows2[j] == rows[j] by {
            assert(rows[j].id != id);
        }
        assert(rows2 =~= rows);
    }
}

/// Cleanup with a retention of `days` days at instant `now` keeps a row
/// exactly when it is not trashed, or was trashed at or after the instant
/// `days` whole days before `now`; it keeps no row that was not there, and it
/// reports how many rows went.
pub proof fn law_cleanup_purges_by_age(db: DbView, now: Timestamp, days: i64)
    requires
        valid_db(db),
        db is Some,
        db->Some_0.len() <= usize::MAX,
        clean_up(db, now, days).1 is Ok,
    ensures
        ({
            let rows = db->Some_0;
            let (after, r) = clean_up(db, now, days);
            let rows2 = after->Some_0;
            let cut = now.secs - days * 86_400;
            &&& forall|k: int|
                0 <= k < rows.len() ==> (rows2.contains(#[trigger] rows[k]) <==> !(
                rows[k].deleted_at matches Some(t) && (t.secs < cut || (t.secs == cut && t.nanos
                    < now.nanos))))
            &&& forall|x: NoteView| #[trigger] rows2.contains(x) ==> rows.contains(x)
            &&& r == Ok::<usize, DbError>((rows.len() - rows2.len()) as usize)
        }),
{
    let rows = db->Some_0;
    let c = spec_days_before(now, days)->Some_0;
    let kept = rows.filter(unexpired(c));
    law_cleanup_count(db, c);
    assert forall|k: int| 0 <= k < rows.len() implies (kept.contains(#[trigger] rows[k]) <==> !(
    rows[k].deleted_at matches Some(t) && (t.secs < now.secs - days * 86_400 || (t.secs == now.secs
        - days * 86_400 && t.nanos < now.nanos)))) by {
        if unexpired(c)(rows[k]) {
            rows.lemma_filter_contains(unexpired(c), k);
        }
        if kept.contains(rows[k]) {
            let m = choose|m: int| 0 <= m < kept.len() && kept[m] == rows[k];
            rows.lemma_filter_pred(unexpired(c), m);
        }
    }
    assert forall|x: NoteView| #[trigger] kept.contains(x) implies rows.contains(x) by {
        rows.lemma_filter_contains_rev(unexpired(c), x);
    }
}

} // verus!

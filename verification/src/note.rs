//! A single note.
use vstd::prelude::*;

use crate::timestamp::Timestamp;

verus! {

/// A single note. Deletion is soft: `deleted_at` is a tombstone, not an
/// immediate removal. `None` means active, `Some(_)` means trashed and hidden
/// from normal reads until it is purged.
#[derive(Debug, PartialEq, Eq, Clone)]
pub struct Note {
    pub id: i64,
    pub content: String,
    pub created_at: Timestamp,
    pub updated_at: Timestamp,
    pub deleted_at: Option<Timestamp>,
}

/// The mathematical value of a note: its content as a sequence of characters.
pub struct NoteView {
    pub id: i64,
    pub content: Seq<char>,
    pub created_at: Timestamp,
    pub updated_at: Timestamp,
    pub deleted_at: Option<Timestamp>,
}

impl View for Note {
    type V = NoteView;

    open spec fn view(&self) -> NoteView {
        NoteView {
            id: self.id,
            content: self.content@,
            created_at: self.created_at,
            updated_at: self.updated_at,
            deleted_at: self.deleted_at,
        }
    }
}

/// The values of a sequence of notes.
pub open spec fn views(s: Seq<Note>) -> Seq<NoteView> {
    s.map_values(|n: Note| n@)
}

/// The value of an optional note.
pub open spec fn view_opt(o: Option<Note>) -> Option<NoteView> {
    match o {
        Some(n) => Some(n@),
        None => None,
    }
}

/// A note is active while it carries no tombstone.
pub open spec fn is_active(n: NoteView) -> bool {
    n.deleted_at is None
}

impl Note {
    /// A copy of this note, field for field.
    pub fn duplicate(&self) -> (r: Note)
        ensures
            r@ == self@,
    {
        Note {
            id: self.id,
            content: self.content.clone(),
            created_at: self.created_at,
            updated_at: self.updated_at,
            deleted_at: self.deleted_at,
        }
    }

    /// Whether this note carries no tombstone.
    pub fn is_active(&self) -> (r: bool)
        ensures
            r == is_active(self@),
    {
        self.deleted_at.is_none()
    }
}

} // verus!

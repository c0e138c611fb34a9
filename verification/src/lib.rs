//! Core of a sticky-note application.
//!
//! - `timestamp`: instants in time as plain numbers, and reading the clock.
//! - `note`: a single note, whose deletion is soft (a tombstone timestamp).
//! - `database`: the `notes` table and one function per statement on it.
//! - `store`: the public `NoteStore` API with the domain rules
//!   (soft delete, restore, retention cleanup).
//! - `laws`: properties that relate several operations, stated and proved.
use vstd::prelude::*;

pub mod database;
pub mod laws;
pub mod note;
pub mod store;
pub mod timestamp;

pub use note::Note;
pub use store::NoteStore;
pub use timestamp::Timestamp;

verus! {
}

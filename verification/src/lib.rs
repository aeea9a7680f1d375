//! An in-memory, searchable documentation index built from structured
//! markdown documents, answering free-text lookup queries with formatted
//! help text.

pub mod entry;
pub mod event;
pub mod help;
pub mod imap;
pub mod section;
pub mod text;

use vstd::prelude::*;

verus! {

} // verus!

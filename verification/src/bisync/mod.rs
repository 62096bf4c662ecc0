//! What a two-way sync remembers of the sync before.

pub mod state;
pub mod text;

//! A note-keeping ledger core: deterministic record addressing and a verified
//! record lifecycle (register a user profile; create, update and delete notes)
//! over an explicit key-value store model.

pub mod addressing;
pub mod records;
pub mod store;
pub mod lifecycle;

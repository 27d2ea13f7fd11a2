//! Containment registry for a moderation bot: which members are contained,
//! which of their roles must be given back, and how the record is persisted.
pub mod store;
pub mod registry;
pub mod laws;
pub mod command;

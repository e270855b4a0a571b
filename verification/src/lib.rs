//! An embedded, in-memory data store for a personal productivity
//! application: tasks, notes and concerns, plus a derived full-text
//! search index.
//!
//! The two verified components are the migration runner
//! ([`store::Store::apply_all`]), which brings the store's schema to the
//! latest known version exactly once per migration and recoverably across
//! restarts, and the search-sync policy, which keeps the search index in
//! lock-step with every create, update and delete of a primary entity.

pub mod entity;
pub mod search;
pub mod migration;
pub mod store;

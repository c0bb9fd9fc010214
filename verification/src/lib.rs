//! Task-tracking core: the persistence and mutation layer of a small
//! task service. The store owns record identity and timestamps, applies
//! partial updates atomically, and reports a missing record or a storage
//! fault through a tagged result.

pub mod laws;
pub mod models;
pub mod store;

use vstd::prelude::*;
use vstd::string::StringExecFns;

verus! {

/// A persisted task record, the sole entity of the service.
///
/// Identifiers are 128-bit values; the HTTP layer renders them as UUIDs.
/// Timestamps count nanoseconds since the Unix epoch; the HTTP layer
/// renders them as RFC 3339 text.
#[derive(Debug, Clone, PartialEq)]
pub struct Task {
    pub id: u128,
    pub title: String,
    pub completed: bool,
    pub created_at: i128,
    pub updated_at: i128,
}

/// The caller-supplied part of a creation request. The store itself
/// assigns the identifier and both timestamps.
#[derive(Debug, Clone, PartialEq)]
pub struct NewTask {
    pub title: String,
}

/// A partial update: absent fields keep their prior values.
#[derive(Debug, Clone, PartialEq)]
pub struct TaskPatch {
    pub title: Option<String>,
    pub completed: Option<bool>,
}

/// Body of an error response at the HTTP boundary.
#[derive(Debug, PartialEq)]
pub struct ApiError {
    pub message: String,
}

/// The only two failure modes of the store: the requested record does
/// not exist, or the backing record set itself failed.
#[derive(Debug, PartialEq)]
pub enum StoreError {
    NotFound,
    StorageFault(String),
}

impl StoreError {
    /// The description a handler puts in a response body.
    pub fn message(&self) -> (r: String)
        ensures
            match self {
                StoreError::NotFound => r@ == "not found"@,
                StoreError::StorageFault(d) => r@ == d@,
            },
    {
        match self {
            StoreError::NotFound => String::from_str("not found"),
            StoreError::StorageFault(d) => d.clone(),
        }
    }
}

} // verus!

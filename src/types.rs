//! Small transfer objects shared by many API entities.
use vstd::prelude::*;

verus! {

/// What the current user may do with an entity.
#[derive(Debug)]
pub struct PermissionsDTO {
    pub can_read: Option<bool>,
    pub can_write: Option<bool>,
}

/// The revision of an entity, for optimistic locking.
#[derive(Debug)]
pub struct RevisionDTO {
    pub client_id: Option<String>,
    pub last_modifier: Option<String>,
    pub version: Option<i64>,
}

/// A body to be read as JSON into `T`.
#[derive(Debug)]
pub struct JsonResponse<T>(pub T);

} // verus!

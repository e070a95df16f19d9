//! Bulletins: the warnings and errors that components report.
use vstd::prelude::*;

verus! {

/// A bulletin with its reading permission and origin.
#[derive(Debug)]
pub struct BulletinEntity {
    pub bulletin: Option<BulletinDTO>,
    pub can_read: Option<bool>,
    pub group_id: Option<String>,
    pub id: Option<i64>,
    pub node_address: Option<String>,
    pub source_id: Option<String>,
    pub timestamp: Option<String>,
}

/// The content of a bulletin.
#[derive(Debug)]
pub struct BulletinDTO {
    pub category: Option<String>,
    pub group_id: Option<String>,
    pub id: Option<i64>,
    pub level: Option<String>,
    pub message: Option<String>,
    pub node_address: Option<String>,
    pub source_id: Option<String>,
    pub source_name: Option<String>,
    pub source_type: Option<String>,
    pub timestamp: Option<String>,
}

} // verus!

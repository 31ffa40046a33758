//! What the queries of an ACL return.
use vstd::prelude::*;

use crate::client::Operator;
use crate::model::{Config, Timestamp};

verus! {

#[derive(Clone, Debug, PartialEq, Eq)]
pub struct AclResponse {
    pub operator: Operator,
    pub created_by: String,
    pub created_at: Timestamp,
    pub name: Option<String>,
    pub description: Option<String>,
    pub config: Config,
}

#[derive(Clone, Debug, PartialEq, Eq)]
pub struct RoleResponse {
    pub name: String,
    pub description: Option<String>,
    pub created_at: Timestamp,
    pub created_by: String,
    pub n_principals: u32,
    pub expires_at: Option<Timestamp>,
}

#[derive(Clone, Debug, PartialEq, Eq)]
pub struct RolesResponse(pub Vec<RoleResponse>);

#[derive(Clone, Debug, PartialEq, Eq)]
pub struct PathsResponse {
    pub cursor: Option<String>,
    pub paths: Vec<PathInfo>,
}

#[derive(Clone, Debug, PartialEq, Eq)]
pub struct PathInfo {
    pub path: String,
    pub expires_at: Option<Timestamp>,
}

} // verus!

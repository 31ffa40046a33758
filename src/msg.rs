//! The requests an ACL answers, as plain values.
use vstd::prelude::*;

use crate::client::Operator;
use crate::model::Timestamp;

verus! {

/// Who is calling, and when.
#[derive(Clone, Debug, PartialEq, Eq)]
pub struct Context {
    pub block_time: Timestamp,
    pub sender: String,
}

/// When a query is made.
#[derive(Clone, Copy, Debug, PartialEq, Eq, Structural)]
pub struct ReadonlyContext {
    pub block_time: Timestamp,
}

#[derive(Clone, Debug, PartialEq, Eq)]
pub struct InstantiateMsg {
    pub operator: Option<Operator>,
    pub name: Option<String>,
    pub description: Option<String>,
}

#[derive(Clone, Debug, PartialEq, Eq)]
pub enum RoleExecuteMsg {
    /// Create a role, with optional initial paths.
    Create(CreateRoleMsg),
    /// Allow a path to a role.
    Allow(AllowRoleMsg),
    /// Deny a path to a role (the inverse of Allow).
    Deny(DenyRoleMsg),
    /// Grant a role to a principal, who then holds every path of the role.
    Grant(GrantRoleMsg),
    /// The inverse of Grant.
    Revoke(RevokeRoleMsg),
    /// Remove a role and its paths; memberships of it are kept.
    Remove(String),
}

#[derive(Clone, Debug, PartialEq, Eq)]
pub enum ExecuteMsg {
    /// Change the operator of the ACL.
    SetOperator(Operator),
    /// Allow a path to a principal.
    Allow(AllowMsg),
    /// The inverse of Allow.
    Deny(DenyMsg),
    /// A change that concerns a role.
    Role(RoleExecuteMsg),
}

#[derive(Clone, Debug, PartialEq, Eq)]
pub enum QueryMsg {
    /// The ACL's operator and metadata.
    Acl {},
    /// The roles of a principal or, with none given, every role.
    Roles { principal: Option<String> },
    /// One role, by name.
    Role(String),
    /// The paths of a principal, of a role, or of the ACL as a whole.
    Paths(PathsQueryParams),
    /// Whether a principal is allowed one or more paths.
    IsAllowed(IsAllowedParams),
}

#[derive(Clone, Copy, Debug, PartialEq, Eq, Structural)]
pub struct MigrateMsg {}

/// Whose paths a path listing shows.
#[derive(Clone, Debug, PartialEq, Eq)]
pub enum Subject {
    Acl,
    Role(String),
    Principal(String),
}

/// A page of a path listing: at most `limit` paths (100 if none is given,
/// never more than 500), after `cursor`, or from `start`, up to `stop`.
#[derive(Clone, Debug, PartialEq, Eq)]
pub struct PathsQueryParams {
    pub subject: Subject,
    pub limit: Option<u16>,
    pub start: Option<String>,
    pub stop: Option<String>,
    pub cursor: Option<String>,
}

#[derive(Clone, Debug, PartialEq, Eq)]
pub struct AllowMsg {
    pub principal: String,
    pub path: String,
    pub ttl: Option<u32>,
}

#[derive(Clone, Debug, PartialEq, Eq)]
pub struct GrantRoleMsg {
    pub principal: String,
    pub role: String,
    pub ttl: Option<u32>,
}

#[derive(Clone, Debug, PartialEq, Eq)]
pub struct RevokeRoleMsg {
    pub principal: String,
    pub role: String,
}

#[derive(Clone, Debug, PartialEq, Eq)]
pub struct AllowRoleMsg {
    pub role: String,
    pub path: String,
}

#[derive(Clone, Debug, PartialEq, Eq)]
pub struct DenyMsg {
    pub principal: String,
    pub path: String,
}

#[derive(Clone, Debug, PartialEq, Eq)]
pub struct DenyRoleMsg {
    pub role: String,
    pub path: String,
}

#[derive(Clone, Debug, PartialEq, Eq)]
pub struct AuthorizationResourceParams {
    pub resource: AuthResource,
    pub ttl: Option<u32>,
}

#[derive(Clone, Debug, PartialEq, Eq)]
pub enum AuthResource {
    Role(String),
    Path(String),
}

/// How the checks of several paths combine.
#[derive(Clone, Copy, Debug, PartialEq, Eq, Structural)]
pub enum TestRequirement {
    /// At least one path must be allowed.
    Any,
    /// Every path must be allowed.
    All,
}

/// A check of `paths` for `principal`: `require` defaults to `All`, `raise`
/// (fail with the reasons rather than answer `false`) to `false`.
#[derive(Clone, Debug, PartialEq, Eq)]
pub struct IsAllowedParams {
    pub principal: String,
    pub require: Option<TestRequirement>,
    pub paths: Vec<String>,
    pub raise: Option<bool>,
}

#[derive(Clone, Debug, PartialEq, Eq)]
pub struct CreateRoleMsg {
    pub name: String,
    pub description: Option<String>,
    pub paths: Option<Vec<String>>,
}

} // verus!

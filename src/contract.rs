//! Dispatch of change requests to the operations of an ACL.
use vstd::prelude::*;

use crate::acl::Acl;
use crate::error::ContractError;
use crate::client::{check_operator, Operator, OperatorCheck};
use crate::execute::{
    allow_ok, allow_role_ok, create_role_ok, deny_role_ok, exec_allow, exec_allow_role,
    exec_create_role, exec_deny, exec_deny_role, exec_grant_role, exec_remove_role,
    exec_revoke_role, exec_set_operator, grant_role_ok, initial_paths, path_allowed, path_denied,
    revoke_role_ok, role_created, role_granted, role_path_allowed, role_path_denied, role_removed,
    role_revoked,
};
use crate::model::{expiry_for, opt_view};
use crate::msg::{Context, ExecuteMsg, RoleExecuteMsg};
use crate::path::canonical;
use crate::store::fits_key;
use crate::text::concat;

verus! {

/// The operator gate lets `sender` through: a direct operator must be the
/// sender; an operator ACL must have allowed the sender (`delegated`).
pub open spec fn gate_passes(operator: Operator, sender: Seq<char>, delegated: bool) -> bool {
    match operator {
        Operator::Address(a) => a@ == sender,
        Operator::Acl(_) => delegated,
    }
}

/// What a change request needs, besides the operator gate, to succeed.
pub open spec fn request_ok(pre: Acl, ctx: Context, msg: ExecuteMsg) -> bool {
    match msg {
        ExecuteMsg::SetOperator(_) => true,
        ExecuteMsg::Allow(m) => allow_ok(pre, ctx.block_time.nanos, m),
        ExecuteMsg::Deny(m) => fits_key(m.principal@),
        ExecuteMsg::Role(RoleExecuteMsg::Create(m)) => create_role_ok(pre, m),
        ExecuteMsg::Role(RoleExecuteMsg::Allow(m)) => allow_role_ok(pre, m),
        ExecuteMsg::Role(RoleExecuteMsg::Deny(m)) => deny_role_ok(pre, m),
        ExecuteMsg::Role(RoleExecuteMsg::Grant(m)) => grant_role_ok(pre, ctx.block_time.nanos, m),
        ExecuteMsg::Role(RoleExecuteMsg::Revoke(m)) => revoke_role_ok(pre, m),
        ExecuteMsg::Role(RoleExecuteMsg::Remove(name)) => fits_key(name@),
    }
}

/// Carries out change request `msg` for `ctx.sender` at the block time, for
/// the ACL at `self_address`, once the operator gate passes. Where the
/// operator is another ACL, `operator_acl_allows` says whether it allowed the
/// sender the management path of this ACL (see `check_operator`). Where the
/// gate refuses, fails with `NotAuthorized` and changes nothing.
pub fn execute(
    acl: &mut Acl,
    ctx: &Context,
    self_address: &String,
    operator_acl_allows: bool,
    msg: ExecuteMsg,
) -> (r: Result<(), ContractError>)
    requires
        old(acl).wf(),
    ensures
        final(acl).wf(),
        r is Ok <==> gate_passes(old(acl).spec_operator(), ctx.sender@, operator_acl_allows)
            && request_ok(*old(acl), *ctx, msg),
        !gate_passes(old(acl).spec_operator(), ctx.sender@, operator_acl_allows) ==> r matches Err(
            ContractError::NotAuthorized { .. },
        ),
        r is Err ==> final(acl).same_state(old(acl)),
        r is Ok ==> match msg {
            ExecuteMsg::SetOperator(op) => final(acl).spec_operator() == op,
            ExecuteMsg::Allow(m) => (expiry_for(ctx.block_time.nanos, m.ttl) matches Some(e)
                && path_allowed(*old(acl), *final(acl), m.principal@, canonical(m.path@), e)),
            ExecuteMsg::Deny(m) => path_denied(*old(acl), *final(acl), m.principal@, canonical(m.path@)),
            ExecuteMsg::Role(RoleExecuteMsg::Create(m)) => role_created(
                *old(acl),
                *final(acl),
                m.name@,
                (opt_view(m.description), ctx.block_time.nanos, ctx.sender@, 0u32),
                initial_paths(m.paths),
            ),
            ExecuteMsg::Role(RoleExecuteMsg::Allow(m)) => role_path_allowed(*old(acl), *final(acl), m.role@, canonical(m.path@)),
            ExecuteMsg::Role(RoleExecuteMsg::Deny(m)) => role_path_denied(*old(acl), *final(acl), m.role@, canonical(m.path@)),
            ExecuteMsg::Role(RoleExecuteMsg::Grant(m)) => (expiry_for(ctx.block_time.nanos, m.ttl) matches Some(e)
                && role_granted(*old(acl), *final(acl), m.principal@, m.role@, e)),
            ExecuteMsg::Role(RoleExecuteMsg::Revoke(m)) => role_revoked(*old(acl), *final(acl), m.principal@, m.role@),
            ExecuteMsg::Role(RoleExecuteMsg::Remove(name)) => role_removed(*old(acl), *final(acl), name@),
        },
{
    match check_operator(&acl.operator, &ctx.sender, self_address) {
        OperatorCheck::Pass => {},
        OperatorCheck::Fail { reason } => return Err(ContractError::NotAuthorized { reason }),
        OperatorCheck::Delegate { .. } => {
            if !operator_acl_allows {
                return Err(
                    ContractError::NotAuthorized {
                        reason: concat(ctx.sender.as_str(), " is not allowed by the operator ACL"),
                    },
                );
            }
        },
    }
    match msg {
        ExecuteMsg::SetOperator(op) => {
            exec_set_operator(acl, ctx, op);
            Ok(())
        },
        ExecuteMsg::Allow(m) => exec_allow(acl, ctx, m),
        ExecuteMsg::Deny(m) => exec_deny(acl, ctx, m),
        ExecuteMsg::Role(rm) => match rm {
            RoleExecuteMsg::Create(m) => exec_create_role(acl, ctx, m),
            RoleExecuteMsg::Allow(m) => exec_allow_role(acl, ctx, m),
            RoleExecuteMsg::Deny(m) => exec_deny_role(acl, ctx, m),
            RoleExecuteMsg::Grant(m) => exec_grant_role(acl, ctx, m),
            RoleExecuteMsg::Revoke(m) => exec_revoke_role(acl, ctx, m),
            RoleExecuteMsg::Remove(name) => exec_remove_role(acl, ctx, name),
        },
    }
}

} // verus!

//! Who may change an ACL, and how that is checked.
use vstd::prelude::*;

use crate::msg::{IsAllowedParams, TestRequirement};
use crate::text::concat;

verus! {

/// The single authority allowed to change an ACL: a principal, or another
/// ACL that is asked whether the caller may manage this one.
#[derive(Clone, Debug, PartialEq, Eq)]
pub enum Operator {
    Address(String),
    Acl(String),
}

/// What the operator check on a change decides.
#[derive(Clone, Debug, PartialEq, Eq)]
pub enum OperatorCheck {
    /// The caller is the operator.
    Pass,
    /// The caller is not the operator.
    Fail { reason: String },
    /// The operator is another ACL: the change may go ahead only where that
    /// ACL answers this query without failing.
    Delegate { acl: String, params: IsAllowedParams },
}

/// The path under which an operator ACL grants the management of the ACL at
/// `address`.
pub open spec fn management_path(address: Seq<char>) -> Seq<char> {
    "/acls/"@ + address
}

/// Decides whether `sender` may change the ACL at `self_address` whose
/// operator is `operator`: a direct operator must be the sender; an operator
/// ACL is to be asked whether the sender is allowed the management path of
/// this ACL, with every path required and failure raised.
pub fn check_operator(operator: &Operator, sender: &String, self_address: &String) -> (r: OperatorCheck)
    ensures
        match *operator {
            Operator::Address(a) => if a@ == sender@ {
                r is Pass
            } else {
                r matches OperatorCheck::Fail { reason } && reason@ == sender@ + " is not the contract operator"@
            },
            Operator::Acl(addr) => r matches OperatorCheck::Delegate { acl, params } && acl@ == addr@
                && params.principal@ == sender@ && params.paths@.len() == 1
                && params.paths@[0]@ == management_path(self_address@)
                && params.require == Some(TestRequirement::All) && params.raise == Some(true),
        },
{
    match operator {
        Operator::Address(a) => {
            if *a == *sender {
                OperatorCheck::Pass
            } else {
                OperatorCheck::Fail { reason: concat(sender.as_str(), " is not the contract operator") }
            }
        },
        Operator::Acl(addr) => {
            let path = concat("/acls/", self_address.as_str());
            OperatorCheck::Delegate {
                acl: addr.clone(),
                params: IsAllowedParams {
                    principal: sender.clone(),
                    require: Some(TestRequirement::All),
                    paths: vec![path],
                    raise: Some(true),
                },
            }
        },
    }
}

} // verus!

//! The ACL aggregate: its metadata, its collections, and the invariant that
//! ties them together.
use vstd::prelude::*;

use cosmwasm_std::MemoryStorage;

use crate::client::Operator;
use crate::error::ContractError;
use crate::model::Timestamp;
use crate::msg::{Context, InstantiateMsg};
use crate::path::is_canonical;
use crate::store::{
    CountEntries, PairEntries, RoleEntries, count_entries, counts_parse, fits_key, new_storage,
    pair_entries, pairs_parse, role_entries, roles_parse,
};
use crate::text::chars_of;

verus! {

/// The longest name an ACL may have, in characters.
pub const MAX_NAME_LEN: usize = 100;

/// The longest description an ACL may have, in characters.
pub const MAX_DESC_LEN: usize = 1000;

/// One access-control list: its operator and metadata, and the collections
/// of grants, roles and path reference counts.
pub struct Acl {
    pub(crate) operator: Operator,
    pub(crate) created_by: String,
    pub(crate) created_at: Timestamp,
    pub(crate) name: Option<String>,
    pub(crate) description: Option<String>,
    /// Path to the number of grants that reference it.
    pub(crate) path_ref_counts: MemoryStorage,
    /// (principal, path) to the expiration of a direct grant.
    pub(crate) principal_paths: MemoryStorage,
    /// (principal, role) to the expiration of a role membership.
    pub(crate) principal_roles: MemoryStorage,
    /// Role name to its record.
    pub(crate) role_infos: MemoryStorage,
    /// The (role, path) pairs allowed to roles.
    pub(crate) role_paths: MemoryStorage,
    /// The same pairs, as (path, role).
    pub(crate) path_roles: MemoryStorage,
}

/// The number of pairs in `s` whose second half is `p`.
pub open spec fn refs_to(s: Set<(Seq<char>, Seq<char>)>, p: Seq<char>) -> nat {
    s.filter(second_is(p)).len()
}

/// Holds of the pairs whose second half is `p`.
pub open spec fn second_is(p: Seq<char>) -> spec_fn((Seq<char>, Seq<char>)) -> bool {
    |k: (Seq<char>, Seq<char>)| k.1 == p
}

pub proof fn lemma_refs_insert(s: Set<(Seq<char>, Seq<char>)>, k: (Seq<char>, Seq<char>), p: Seq<char>)
    requires
        s.finite(),
        !s.contains(k),
    ensures
        refs_to(s.insert(k), p) == refs_to(s, p) + (if k.1 == p { 1nat } else { 0nat }),
{
    let f = second_is(p);
    s.lemma_len_filter(f);
    assert(refs_to(s, p) == s.filter(f).len());
    assert(refs_to(s.insert(k), p) == s.insert(k).filter(f).len());
    assert(!s.filter(f).contains(k));
    if k.1 == p {
        assert(s.insert(k).filter(f) =~= s.filter(f).insert(k));
    } else {
        assert(s.insert(k).filter(f) =~= s.filter(f));
    }
}

pub proof fn lemma_refs_remove(s: Set<(Seq<char>, Seq<char>)>, k: (Seq<char>, Seq<char>), p: Seq<char>)
    requires
        s.finite(),
        s.contains(k),
    ensures
        refs_to(s.remove(k), p) + (if k.1 == p { 1nat } else { 0nat }) == refs_to(s, p),
{
    let f = second_is(p);
    s.lemma_len_filter(f);
    assert(refs_to(s, p) == s.filter(f).len());
    assert(refs_to(s.remove(k), p) == s.remove(k).filter(f).len());
    if k.1 == p {
        assert(s.filter(f).contains(k));
        assert(s.remove(k).filter(f) =~= s.filter(f).remove(k));
    } else {
        assert(s.remove(k).filter(f) =~= s.filter(f));
    }
}

impl Acl {
    /// Direct grants: (principal, path) to expiration.
    pub open(crate) spec fn grants(&self) -> PairEntries {
        pair_entries(self.principal_paths)
    }

    /// Role memberships: (principal, role) to expiration.
    pub open(crate) spec fn memberships(&self) -> PairEntries {
        pair_entries(self.principal_roles)
    }

    /// Path reference counts.
    pub open(crate) spec fn ref_counts(&self) -> CountEntries {
        count_entries(self.path_ref_counts)
    }

    /// Roles that exist, with their records.
    pub open(crate) spec fn roles(&self) -> RoleEntries {
        role_entries(self.role_infos)
    }

    /// The (role, path) pairs.
    pub open(crate) spec fn role_paths(&self) -> Set<(Seq<char>, Seq<char>)> {
        pair_entries(self.role_paths).dom()
    }

    /// The (path, role) pairs.
    pub open(crate) spec fn path_roles(&self) -> Set<(Seq<char>, Seq<char>)> {
        pair_entries(self.path_roles).dom()
    }

    pub open(crate) spec fn spec_operator(&self) -> Operator {
        self.operator
    }

    pub open(crate) spec fn spec_created_by(&self) -> String {
        self.created_by
    }

    pub open(crate) spec fn spec_created_at(&self) -> Timestamp {
        self.created_at
    }

    pub open(crate) spec fn spec_name(&self) -> Option<String> {
        self.name
    }

    pub open(crate) spec fn spec_description(&self) -> Option<String> {
        self.description
    }

    /// How many grants reference path `p`: direct grants and role grants.
    pub open(crate) spec fn references(&self, p: Seq<char>) -> nat {
        refs_to(self.grants().dom(), p) + refs_to(self.role_paths(), p)
    }

    /// The invariant of an ACL.
    pub open(crate) spec fn wf(&self) -> bool {
        &&& self.storage_parses()
        &&& self.grants().dom().finite()
        &&& self.role_paths().finite()
        &&& forall|r: Seq<char>, p: Seq<char>|
            #![trigger self.role_paths().contains((r, p))]
            #![trigger self.path_roles().contains((p, r))]
            self.role_paths().contains((r, p)) <==> self.path_roles().contains((p, r))
        &&& forall|r: Seq<char>, p: Seq<char>|
            #![trigger self.role_paths().contains((r, p))]
            self.role_paths().contains((r, p)) ==> self.roles().contains_key(r) && is_canonical(p)
                && fits_key(r) && fits_key(p)
        &&& forall|a: Seq<char>, p: Seq<char>|
            #![trigger self.grants().contains_key((a, p))]
            self.grants().contains_key((a, p)) ==> is_canonical(p)
        &&& forall|p: Seq<char>|
            #![trigger self.ref_counts().contains_key(p)]
            #![trigger self.references(p)]
            (self.ref_counts().contains_key(p) <==> self.references(p) > 0) && (
            self.ref_counts().contains_key(p) ==> self.ref_counts()[p] == self.references(p))
    }

    /// Every entry of every storage parses.
    pub open(crate) spec fn storage_parses(&self) -> bool {
        &&& pairs_parse(self.principal_paths)
        &&& pairs_parse(self.principal_roles)
        &&& pairs_parse(self.role_paths)
        &&& pairs_parse(self.path_roles)
        &&& counts_parse(self.path_ref_counts)
        &&& roles_parse(self.role_infos)
    }

    /// Everything the ACL holds is the same in `self` and `other`.
    pub open(crate) spec fn same_state(&self, other: &Acl) -> bool {
        &&& self.grants() == other.grants()
        &&& self.memberships() == other.memberships()
        &&& self.ref_counts() == other.ref_counts()
        &&& self.roles() == other.roles()
        &&& self.role_paths() == other.role_paths()
        &&& self.path_roles() == other.path_roles()
        &&& self.same_metadata(other)
    }

    /// The operator and metadata are the same in `self` and `other`.
    pub open(crate) spec fn same_metadata(&self, other: &Acl) -> bool {
        &&& self.operator == other.operator
        &&& self.created_by == other.created_by
        &&& self.created_at == other.created_at
        &&& self.name == other.name
        &&& self.description == other.description
    }

    /// The reference count of `p` (zero where there is no entry).
    pub open(crate) spec fn count_of(&self, p: Seq<char>) -> int {
        if self.ref_counts().contains_key(p) {
            self.ref_counts()[p] as int
        } else {
            0
        }
    }
}

/// A new ACL, created by `ctx.sender` at the block time, with no grants and
/// no roles. The operator is the sender unless `msg` gives one. A name over
/// `MAX_NAME_LEN` characters or a description over `MAX_DESC_LEN` is
/// refused.
pub fn init(ctx: &Context, msg: InstantiateMsg) -> (r: Result<Acl, ContractError>)
    ensures
        r is Err <==> (msg.name matches Some(n) && n@.len() > MAX_NAME_LEN) || (
        msg.description matches Some(d) && d@.len() > MAX_DESC_LEN),
        r is Err ==> r->Err_0 is ValidationError,
        r matches Ok(acl) ==> {
            &&& acl.wf()
            &&& acl.grants().is_empty()
            &&& acl.memberships().is_empty()
            &&& acl.ref_counts().is_empty()
            &&& acl.roles().is_empty()
            &&& acl.role_paths().is_empty()
            &&& acl.path_roles().is_empty()
            &&& acl.spec_operator() == (match msg.operator {
                Some(op) => op,
                None => Operator::Address(ctx.sender),
            })
            &&& acl.spec_created_by() == ctx.sender
            &&& acl.spec_created_at() == ctx.block_time
            &&& acl.spec_name() == msg.name
            &&& acl.spec_description() == msg.description
        },
{
    if let Some(n) = &msg.name {
        if chars_of(n.as_str()).len() > MAX_NAME_LEN {
            return Err(
                ContractError::ValidationError {
                    reason: "ACL name cannot be longer than 100 characters".to_owned(),
                },
            );
        }
    }
    if let Some(d) = &msg.description {
        if chars_of(d.as_str()).len() > MAX_DESC_LEN {
            return Err(
                ContractError::ValidationError {
                    reason: "ACL description cannot be longer than 1000 characters".to_owned(),
                },
            );
        }
    }
    let operator = match msg.operator {
        Some(op) => op,
        None => Operator::Address(ctx.sender.clone()),
    };
    let acl = Acl {
        operator,
        created_by: ctx.sender.clone(),
        created_at: ctx.block_time,
        name: msg.name,
        description: msg.description,
        path_ref_counts: new_storage(),
        principal_paths: new_storage(),
        principal_roles: new_storage(),
        role_infos: new_storage(),
        role_paths: new_storage(),
        path_roles: new_storage(),
    };
    proof {
        assert(acl.grants().dom() =~= Set::empty());
        assert(acl.role_paths() =~= Set::empty());
        assert(acl.path_roles() =~= Set::empty());
        assert forall|p: Seq<char>| #[trigger] acl.references(p) == 0 by {
            assert(acl.grants().dom().filter(second_is(p)) =~= Set::empty());
            assert(acl.role_paths().filter(second_is(p)) =~= Set::empty());
        }
    }
    Ok(acl)
}

} // verus!

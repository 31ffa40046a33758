//! The operations that change an ACL: direct grants, role grants, role
//! lifecycle and membership, and the operator.
//!
//! Reference counts follow the grants exactly: a path's count goes up when a
//! grant of it that did not exist is made, and down when an existing one is
//! removed; at zero the entry is deleted. Allowing what is already allowed
//! changes no count, and denying what is not allowed changes nothing.
use vstd::prelude::*;

use crate::acl::{Acl, lemma_refs_insert, lemma_refs_remove};
use crate::error::ContractError;
use crate::client::Operator;
use crate::math::{add_u32, sub_u32};
use crate::model::{AuthRoleInfo, Timestamp, expiry_for, opt_view};
use crate::msg::{
    AllowMsg, AllowRoleMsg, Context, CreateRoleMsg, DenyMsg, DenyRoleMsg, GrantRoleMsg,
    RevokeRoleMsg,
};
use crate::path::{canonical, is_canonical, lemma_canonical_is_canonical, to_cannonical_path};
use crate::store::{
    CountEntries, ascending, chars_lt, check_key, count_load, count_remove, count_save, fits_key,
    lemma_chars_lt_irreflexive, pair_keys, pair_load, pair_remove, pair_save,
    role_load, role_remove, role_save,
};

verus! {

/// The counts after one more grant of `p`.
pub open spec fn registered(counts: CountEntries, p: Seq<char>) -> CountEntries {
    if counts.contains_key(p) {
        counts.insert(p, (counts[p] + 1) as u32)
    } else {
        counts.insert(p, 1)
    }
}

/// The counts after one grant of `p` fewer: the entry goes at zero.
pub open spec fn released(counts: CountEntries, p: Seq<char>) -> CountEntries {
    if counts.contains_key(p) && counts[p] > 1 {
        counts.insert(p, (counts[p] - 1) as u32)
    } else {
        counts.remove(p)
    }
}

/// `post` holds what `pre` holds, but for the direct grants and the counts.
pub open spec fn same_but_grants(pre: Acl, post: Acl) -> bool {
    &&& post.memberships() == pre.memberships()
    &&& post.roles() == pre.roles()
    &&& post.role_paths() == pre.role_paths()
    &&& post.path_roles() == pre.path_roles()
    &&& post.same_metadata(&pre)
}

/// `post` holds what `pre` holds, but for the role grants of paths and the
/// counts.
pub open spec fn same_but_role_paths(pre: Acl, post: Acl) -> bool {
    &&& post.grants() == pre.grants()
    &&& post.memberships() == pre.memberships()
    &&& post.roles() == pre.roles()
    &&& post.same_metadata(&pre)
}

/// `post` is `pre` after a direct grant of canonical path `c` to `principal`,
/// with expiration `e`.
pub open spec fn path_allowed(pre: Acl, post: Acl, principal: Seq<char>, c: Seq<char>, e: Option<u64>) -> bool {
    &&& post.grants() == pre.grants().insert((principal, c), e)
    &&& post.ref_counts() == (if pre.grants().contains_key((principal, c)) {
        pre.ref_counts()
    } else {
        registered(pre.ref_counts(), c)
    })
    &&& same_but_grants(pre, post)
}

/// `post` is `pre` after the direct grant of `c` to `principal` is removed.
pub open spec fn path_denied(pre: Acl, post: Acl, principal: Seq<char>, c: Seq<char>) -> bool {
    &&& post.grants() == pre.grants().remove((principal, c))
    &&& post.ref_counts() == (if pre.grants().contains_key((principal, c)) {
        released(pre.ref_counts(), c)
    } else {
        pre.ref_counts()
    })
    &&& same_but_grants(pre, post)
}

/// `post` is `pre` after canonical path `c` is allowed to `role`.
pub open spec fn role_path_allowed(pre: Acl, post: Acl, role: Seq<char>, c: Seq<char>) -> bool {
    &&& post.role_paths() == pre.role_paths().insert((role, c))
    &&& post.path_roles() == pre.path_roles().insert((c, role))
    &&& post.ref_counts() == (if pre.role_paths().contains((role, c)) {
        pre.ref_counts()
    } else {
        registered(pre.ref_counts(), c)
    })
    &&& same_but_role_paths(pre, post)
}

/// `post` is `pre` after canonical path `c` is denied to `role`.
pub open spec fn role_path_denied(pre: Acl, post: Acl, role: Seq<char>, c: Seq<char>) -> bool {
    &&& post.role_paths() == pre.role_paths().remove((role, c))
    &&& post.path_roles() == pre.path_roles().remove((c, role))
    &&& post.ref_counts() == (if pre.role_paths().contains((role, c)) {
        released(pre.ref_counts(), c)
    } else {
        pre.ref_counts()
    })
    &&& same_but_role_paths(pre, post)
}

/// The (role, path) pairs that give `role` the canonical form of each of
/// `paths`.
pub open spec fn role_path_set(role: Seq<char>, paths: Seq<Seq<char>>) -> Set<(Seq<char>, Seq<char>)> {
    Set::new(
        |k: (Seq<char>, Seq<char>)|
            k.0 == role && exists|j: int| 0 <= j < paths.len() && k.1 == canonical(paths[j]),
    )
}

/// The initial paths of a new role.
pub open spec fn initial_paths(paths: Option<Vec<String>>) -> Seq<Seq<char>> {
    match paths {
        Some(v) => v.deep_view(),
        None => Seq::empty(),
    }
}

/// `post` is `pre` after role `role` is created with record `rec` and the
/// canonical forms of `paths` allowed to it.
pub open spec fn role_created(
    pre: Acl,
    post: Acl,
    role: Seq<char>,
    rec: (Option<Seq<char>>, u64, Seq<char>, u32),
    paths: Seq<Seq<char>>,
) -> bool {
    &&& post.roles() == pre.roles().insert(role, rec)
    &&& post.role_paths() == pre.role_paths().union(role_path_set(role, paths))
    &&& post.grants() == pre.grants()
    &&& post.memberships() == pre.memberships()
    &&& post.same_metadata(&pre)
}

/// `post` is `pre` after role `role` is removed with every path allowed to
/// it. Memberships of the role are kept.
pub open spec fn role_removed(pre: Acl, post: Acl, role: Seq<char>) -> bool {
    &&& post.roles() == pre.roles().remove(role)
    &&& post.role_paths() == pre.role_paths().filter(|k: (Seq<char>, Seq<char>)| k.0 != role)
    &&& post.path_roles() == pre.path_roles().filter(|k: (Seq<char>, Seq<char>)| k.1 != role)
    &&& post.grants() == pre.grants()
    &&& post.memberships() == pre.memberships()
    &&& post.same_metadata(&pre)
}

/// A role record with its number of principals replaced.
pub open spec fn with_count(rec: (Option<Seq<char>>, u64, Seq<char>, u32), n: int) -> (
    Option<Seq<char>>,
    u64,
    Seq<char>,
    u32,
) {
    (rec.0, rec.1, rec.2, n as u32)
}

/// `post` is `pre` after `principal` is granted the existing role `role`
/// with expiration `e`: one more principal is counted for the role.
pub open spec fn role_granted(pre: Acl, post: Acl, principal: Seq<char>, role: Seq<char>, e: Option<u64>) -> bool {
    &&& pre.roles().contains_key(role)
    &&& pre.roles()[role].3 < u32::MAX
    &&& post.roles() == pre.roles().insert(role, with_count(pre.roles()[role], pre.roles()[role].3 + 1))
    &&& post.memberships() == pre.memberships().insert((principal, role), e)
    &&& post.grants() == pre.grants()
    &&& post.ref_counts() == pre.ref_counts()
    &&& post.role_paths() == pre.role_paths()
    &&& post.path_roles() == pre.path_roles()
    &&& post.same_metadata(&pre)
}

/// `post` is `pre` after the membership of `principal` in the existing role
/// `role` is revoked: one principal fewer is counted for the role.
pub open spec fn role_revoked(pre: Acl, post: Acl, principal: Seq<char>, role: Seq<char>) -> bool {
    &&& pre.roles().contains_key(role)
    &&& pre.roles()[role].3 > 0
    &&& post.roles() == pre.roles().insert(role, with_count(pre.roles()[role], pre.roles()[role].3 - 1))
    &&& post.memberships() == pre.memberships().remove((principal, role))
    &&& post.grants() == pre.grants()
    &&& post.ref_counts() == pre.ref_counts()
    &&& post.role_paths() == pre.role_paths()
    &&& post.path_roles() == pre.path_roles()
    &&& post.same_metadata(&pre)
}

/// `p` is one of the first `i` elements of `ps`.
pub open spec fn in_prefix(ps: Seq<Seq<char>>, i: int, p: Seq<char>) -> bool {
    exists|j: int| 0 <= j < i && ps[j] == p
}

/// `exec_allow` succeeds: the principal fits in a key, the expiration time
/// fits, and the grant exists or the path's count can go up.
pub open spec fn allow_ok(pre: Acl, now: u64, m: AllowMsg) -> bool {
    &&& fits_key(m.principal@)
    &&& expiry_for(now, m.ttl) is Some
    &&& (pre.grants().contains_key((m.principal@, canonical(m.path@)))
        || pre.count_of(canonical(m.path@)) < u32::MAX)
}

/// `exec_allow_role` succeeds: role and path fit in keys, the role exists,
/// and it holds the path already or the path's count can go up.
pub open spec fn allow_role_ok(pre: Acl, m: AllowRoleMsg) -> bool {
    &&& fits_key(m.role@)
    &&& fits_key(canonical(m.path@))
    &&& pre.roles().contains_key(m.role@)
    &&& (pre.role_paths().contains((m.role@, canonical(m.path@)))
        || pre.count_of(canonical(m.path@)) < u32::MAX)
}

/// `exec_deny_role` succeeds: role and path fit in keys and the role exists.
pub open spec fn deny_role_ok(pre: Acl, m: DenyRoleMsg) -> bool {
    &&& fits_key(m.role@)
    &&& fits_key(canonical(m.path@))
    &&& pre.roles().contains_key(m.role@)
}

/// `exec_create_role` succeeds: the name and every initial path fit in keys,
/// no role of that name exists, and each initial path's count can go up.
pub open spec fn create_role_ok(pre: Acl, m: CreateRoleMsg) -> bool {
    &&& fits_key(m.name@)
    &&& !pre.roles().contains_key(m.name@)
    &&& forall|j: int|
        0 <= j < initial_paths(m.paths).len() ==> fits_key(canonical(#[trigger] initial_paths(m.paths)[j]))
            && pre.count_of(canonical(initial_paths(m.paths)[j])) < u32::MAX
}

/// `exec_grant_role` succeeds: the principal fits in a key, the expiration
/// time fits, the role exists and its count can go up.
pub open spec fn grant_role_ok(pre: Acl, now: u64, m: GrantRoleMsg) -> bool {
    &&& fits_key(m.principal@)
    &&& expiry_for(now, m.ttl) is Some
    &&& pre.roles().contains_key(m.role@)
    &&& pre.roles()[m.role@].3 < u32::MAX
}

/// `exec_revoke_role` succeeds: the principal fits in a key, the role exists
/// and its count is above zero.
pub open spec fn revoke_role_ok(pre: Acl, m: RevokeRoleMsg) -> bool {
    &&& fits_key(m.principal@)
    &&& pre.roles().contains_key(m.role@)
    &&& pre.roles()[m.role@].3 > 0
}

impl Acl {
    /// Adds one role grant of canonical path `c` to an existing role.
    fn link_role_path(&mut self, role: &String, c: &String) -> (r: Result<(), ContractError>)
        requires
            old(self).wf(),
            old(self).roles().contains_key(role@),
            is_canonical(c@),
            fits_key(role@),
            fits_key(c@),
        ensures
            final(self).wf(),
            r is Ok <==> old(self).role_paths().contains((role@, c@)) || old(self).count_of(c@) < u32::MAX,
            r is Ok ==> role_path_allowed(*old(self), *final(self), role@, c@),
            r is Err ==> r->Err_0 is Overflow && final(self).same_state(old(self)),
    {
        let ghost pre = *self;
        let existing = match pair_load(&self.role_paths, role.as_str(), c.as_str()) {
            Ok(v) => v,
            Err(reason) => return Err(std_error(reason)),
        };
        if existing.is_some() {
            proof {
                assert(self.role_paths().insert((role@, c@)) =~= self.role_paths());
                assert(self.path_roles().insert((c@, role@)) =~= self.path_roles());
            }
            return Ok(());
        }
        let count = match count_load(&self.path_ref_counts, c.as_str()) {
            Ok(v) => v,
            Err(reason) => return Err(std_error(reason)),
        };
        let next: u32 = match count {
            None => 1,
            Some(n) => add_u32(n, 1)?,
        };
        if let Err(reason) = pair_save(&mut self.role_paths, role.as_str(), c.as_str(), None) {
            return Err(std_error(reason));
        }
        if let Err(reason) = pair_save(&mut self.path_roles, c.as_str(), role.as_str(), None) {
            return Err(std_error(reason));
        }
        if let Err(reason) = count_save(&mut self.path_ref_counts, c.as_str(), next) {
            return Err(std_error(reason));
        }
        proof {
            assert(self.role_paths() =~= pre.role_paths().insert((role@, c@)));
            assert(self.path_roles() =~= pre.path_roles().insert((c@, role@)));
            assert forall|q: Seq<char>| #[trigger] self.references(q) == pre.references(q) + (if q
                == c@ {
                1nat
            } else {
                0nat
            }) by {
                lemma_refs_insert(pre.role_paths(), (role@, c@), q);
            }
        }
        Ok(())
    }

    /// Removes the role grant of canonical path `c` from `role`, which holds it.
    fn unlink_role_path(&mut self, role: &String, c: &String)
        requires
            old(self).wf(),
            old(self).role_paths().contains((role@, c@)),
        ensures
            final(self).wf(),
            role_path_denied(*old(self), *final(self), role@, c@),
    {
        let ghost pre = *self;
        proof {
            lemma_refs_remove(pre.role_paths(), (role@, c@), c@);
        }
        decrement_or_remove_path_ref_count(self, c);
        pair_remove(&mut self.role_paths, role.as_str(), c.as_str());
        pair_remove(&mut self.path_roles, c.as_str(), role.as_str());
        proof {
            assert(self.role_paths() =~= pre.role_paths().remove((role@, c@)));
            assert(self.path_roles() =~= pre.path_roles().remove((c@, role@)));
            assert forall|q: Seq<char>| #[trigger] self.references(q) + (if q == c@ {
                1nat
            } else {
                0nat
            }) == pre.references(q) by {
                lemma_refs_remove(pre.role_paths(), (role@, c@), q);
            }
        }
    }
}

/// Takes one grant of canonical path `c` off its reference count: the entry
/// goes where the count would reach zero, and nothing changes where there is
/// no entry. Nothing else changes.
pub(crate) fn decrement_or_remove_path_ref_count(acl: &mut Acl, c: &String)
    requires
        old(acl).storage_parses(),
    ensures
        final(acl).storage_parses(),
        final(acl).ref_counts() == released(old(acl).ref_counts(), c@),
        final(acl).grants() == old(acl).grants(),
        final(acl).memberships() == old(acl).memberships(),
        final(acl).roles() == old(acl).roles(),
        final(acl).role_paths() == old(acl).role_paths(),
        final(acl).path_roles() == old(acl).path_roles(),
        final(acl).same_metadata(old(acl)),
{
    match count_load(&acl.path_ref_counts, c.as_str()) {
        Ok(Some(n)) => {
            if n > 1 {
                let _ = count_save(&mut acl.path_ref_counts, c.as_str(), n - 1);
            } else {
                count_remove(&mut acl.path_ref_counts, c.as_str());
            }
        },
        Ok(None) => {
            proof {
                assert(acl.ref_counts().remove(c@) =~= acl.ref_counts());
            }
        },
        Err(_) => {},
    }
}

/// Converts a storage failure.
fn std_error(reason: String) -> (r: ContractError)
    ensures
        r is Std,
{
    ContractError::Std { reason }
}

/// The expiration time of a grant lasting `ttl` seconds from `now`.
fn expiry(now: Timestamp, ttl: Option<u32>) -> (r: Option<Option<u64>>)
    ensures
        r == expiry_for(now.nanos, ttl),
{
    match ttl {
        None => Some(None),
        Some(t) => match now.plus_seconds(t as u64) {
            Some(e) => Some(Some(e.nanos)),
            None => None,
        },
    }
}

/// Allows `msg.path` (in canonical form) to `msg.principal`, for `msg.ttl`
/// seconds from the block time or without a time limit. Allowing it again
/// replaces the expiration. Fails, changing nothing, with `ValidationError`
/// where the principal is too long for a key, and with `Overflow` where the
/// expiration time or the path's reference count would not fit.
pub fn exec_allow(acl: &mut Acl, ctx: &Context, msg: AllowMsg) -> (r: Result<(), ContractError>)
    requires
        old(acl).wf(),
    ensures
        final(acl).wf(),
        r is Ok <==> allow_ok(*old(acl), ctx.block_time.nanos, msg),
        r is Ok ==> (expiry_for(ctx.block_time.nanos, msg.ttl) matches Some(e) && path_allowed(
            *old(acl),
            *final(acl),
            msg.principal@,
            canonical(msg.path@),
            e,
        )),
        r is Err ==> final(acl).same_state(old(acl)),
        !fits_key(msg.principal@) ==> r matches Err(ContractError::ValidationError { .. }),
        fits_key(msg.principal@) && r is Err ==> r matches Err(ContractError::Overflow),
{
    let ghost pre = *acl;
    check_key(msg.principal.as_str())?;
    let c = to_cannonical_path(&msg.path);
    proof {
        lemma_canonical_is_canonical(msg.path@);
    }
    let e = match expiry(ctx.block_time, msg.ttl) {
        Some(e) => e,
        None => return Err(ContractError::Overflow),
    };
    let p = msg.principal.as_str();
    let existing = match pair_load(&acl.principal_paths, p, c.as_str()) {
        Ok(v) => v,
        Err(reason) => return Err(std_error(reason)),
    };
    if existing.is_some() {
        let _ = pair_save(&mut acl.principal_paths, p, c.as_str(), e);
        proof {
            assert(acl.grants().dom() =~= pre.grants().dom());
            assert forall|q: Seq<char>| #[trigger] acl.references(q) == pre.references(q) by {}
        }
        return Ok(());
    }
    let count = match count_load(&acl.path_ref_counts, c.as_str()) {
        Ok(v) => v,
        Err(reason) => return Err(std_error(reason)),
    };
    let next: u32 = match count {
        None => 1,
        Some(n) => add_u32(n, 1)?,
    };
    let _ = pair_save(&mut acl.principal_paths, p, c.as_str(), e);
    let _ = count_save(&mut acl.path_ref_counts, c.as_str(), next);
    proof {
        assert forall|q: Seq<char>| #[trigger] acl.references(q) == pre.references(q) + (if q
            == c@ {
            1nat
        } else {
            0nat
        }) by {
            lemma_refs_insert(pre.grants().dom(), (msg.principal@, c@), q);
        }
    }
    Ok(())
}

/// Removes the direct grant of `msg.path` (in canonical form) from
/// `msg.principal`, and releases the path's reference count. Nothing changes
/// where there is no such grant. Fails, changing nothing, with
/// `ValidationError` only where the principal is too long for a key.
pub fn exec_deny(acl: &mut Acl, _ctx: &Context, msg: DenyMsg) -> (r: Result<(), ContractError>)
    requires
        old(acl).wf(),
    ensures
        final(acl).wf(),
        r is Ok <==> fits_key(msg.principal@),
        r is Ok ==> path_denied(*old(acl), *final(acl), msg.principal@, canonical(msg.path@)),
        r is Err ==> r->Err_0 is ValidationError && final(acl).same_state(old(acl)),
{
    let ghost pre = *acl;
    check_key(msg.principal.as_str())?;
    let c = to_cannonical_path(&msg.path);
    let p = msg.principal.as_str();
    let existing = match pair_load(&acl.principal_paths, p, c.as_str()) {
        Ok(v) => v,
        Err(reason) => return Err(std_error(reason)),
    };
    if existing.is_none() {
        proof {
            assert(acl.grants().remove((msg.principal@, c@)) =~= acl.grants());
        }
        return Ok(());
    }
    proof {
        lemma_refs_remove(pre.grants().dom(), (msg.principal@, c@), c@);
    }
    decrement_or_remove_path_ref_count(acl, &c);
    pair_remove(&mut acl.principal_paths, p, c.as_str());
    proof {
        assert forall|q: Seq<char>| #[trigger] acl.references(q) + (if q == c@ {
            1nat
        } else {
            0nat
        }) == pre.references(q) by {
            lemma_refs_remove(pre.grants().dom(), (msg.principal@, c@), q);
        }
    }
    Ok(())
}

/// Allows `msg.path` (in canonical form) to the existing role `msg.role`.
/// Fails, changing nothing, with `ValidationError` where the role or path is
/// too long for a key, with `NotFound` where there is no such role, and with
/// `Overflow` where the path's reference count would not fit.
pub fn exec_allow_role(acl: &mut Acl, _ctx: &Context, msg: AllowRoleMsg) -> (r: Result<
    (),
    ContractError,
>)
    requires
        old(acl).wf(),
    ensures
        final(acl).wf(),
        r is Ok <==> allow_role_ok(*old(acl), msg),
        r is Ok ==> role_path_allowed(*old(acl), *final(acl), msg.role@, canonical(msg.path@)),
        r is Err ==> final(acl).same_state(old(acl)),
        !fits_key(msg.role@) || !fits_key(canonical(msg.path@)) ==> r matches Err(
            ContractError::ValidationError { .. },
        ),
        fits_key(msg.role@) && fits_key(canonical(msg.path@)) && !old(acl).roles().contains_key(
            msg.role@,
        ) ==> r matches Err(ContractError::NotFound { .. }),
        fits_key(msg.role@) && fits_key(canonical(msg.path@)) && old(acl).roles().contains_key(
            msg.role@,
        ) && r is Err ==> r matches Err(ContractError::Overflow),
{
    check_key(msg.role.as_str())?;
    let c = to_cannonical_path(&msg.path);
    proof {
        lemma_canonical_is_canonical(msg.path@);
    }
    check_key(c.as_str())?;
    match role_load(&acl.role_infos, msg.role.as_str()) {
        Ok(Some(_)) => {},
        Ok(None) => return Err(ContractError::NotFound { role: msg.role }),
        Err(reason) => return Err(std_error(reason)),
    }
    acl.link_role_path(&msg.role, &c)
}

/// Denies `msg.path` (in canonical form) to the existing role `msg.role`,
/// releasing the path's reference count; nothing changes where the role does
/// not hold the path. Fails, changing nothing, with `ValidationError` where
/// the role or path is too long for a key, and with `NotFound` where there
/// is no such role.
pub fn exec_deny_role(acl: &mut Acl, _ctx: &Context, msg: DenyRoleMsg) -> (r: Result<
    (),
    ContractError,
>)
    requires
        old(acl).wf(),
    ensures
        final(acl).wf(),
        r is Ok <==> deny_role_ok(*old(acl), msg),
        r is Ok ==> role_path_denied(*old(acl), *final(acl), msg.role@, canonical(msg.path@)),
        r is Err ==> final(acl).same_state(old(acl)),
        !fits_key(msg.role@) || !fits_key(canonical(msg.path@)) ==> r matches Err(
            ContractError::ValidationError { .. },
        ),
        fits_key(msg.role@) && fits_key(canonical(msg.path@)) && r is Err ==> r matches Err(
            ContractError::NotFound { .. },
        ),
{
    check_key(msg.role.as_str())?;
    let c = to_cannonical_path(&msg.path);
    check_key(c.as_str())?;
    match role_load(&acl.role_infos, msg.role.as_str()) {
        Ok(Some(_)) => {},
        Ok(None) => return Err(ContractError::NotFound { role: msg.role }),
        Err(reason) => return Err(std_error(reason)),
    }
    let existing = match pair_load(&acl.role_paths, msg.role.as_str(), c.as_str()) {
        Ok(v) => v,
        Err(reason) => return Err(std_error(reason)),
    };
    if existing.is_none() {
        proof {
            assert(acl.role_paths().remove((msg.role@, c@)) =~= acl.role_paths());
            assert(acl.path_roles().remove((c@, msg.role@)) =~= acl.path_roles());
        }
        return Ok(());
    }
    acl.unlink_role_path(&msg.role, &c);
    Ok(())
}

/// Creates role `msg.name`, by `ctx.sender` at the block time, with no
/// principals, and allows it the canonical form of each of `msg.paths`.
/// Fails, changing nothing, with `ValidationError` where the name or a path
/// is too long for a key, with `AlreadyExists` where the role exists, and
/// with `Overflow` where a path's reference count would not fit.
pub fn exec_create_role(acl: &mut Acl, ctx: &Context, msg: CreateRoleMsg) -> (r: Result<
    (),
    ContractError,
>)
    requires
        old(acl).wf(),
    ensures
        final(acl).wf(),
        r is Ok <==> create_role_ok(*old(acl), msg),
        r is Ok ==> role_created(
            *old(acl),
            *final(acl),
            msg.name@,
            (opt_view(msg.description), ctx.block_time.nanos, ctx.sender@, 0u32),
            initial_paths(msg.paths),
        ),
        r is Err ==> final(acl).same_state(old(acl)),
        r matches Err(e) ==> e is AlreadyExists || e is Overflow || e is ValidationError,
        !fits_key(msg.name@) ==> r matches Err(ContractError::ValidationError { .. }),
        fits_key(msg.name@) && old(acl).roles().contains_key(msg.name@) ==> r matches Err(
            ContractError::AlreadyExists { .. },
        ),
        r matches Err(ContractError::AlreadyExists { .. }) ==> old(acl).roles().contains_key(msg.name@),
        r matches Err(ContractError::Overflow) ==> exists|j: int|
            0 <= j < initial_paths(msg.paths).len() && old(acl).count_of(
                canonical(#[trigger] initial_paths(msg.paths)[j]),
            ) == u32::MAX,
{
    let ghost pre = *acl;
    check_key(msg.name.as_str())?;
    match role_load(&acl.role_infos, msg.name.as_str()) {
        Ok(None) => {},
        Ok(Some(_)) => return Err(ContractError::AlreadyExists { role: msg.name }),
        Err(reason) => return Err(std_error(reason)),
    }
    let paths = match msg.paths {
        Some(v) => v,
        None => Vec::new(),
    };
    let ghost ps = paths.deep_view();
    let mut i: usize = 0;
    while i < paths.len()
        invariant
            0 <= i <= paths.len(),
            ps == paths.deep_view(),
            ps == initial_paths(msg.paths),
            *acl == pre,
            pre.wf(),
            fits_key(msg.name@),
            !pre.roles().contains_key(msg.name@),
            forall|j: int| 0 <= j < i ==> fits_key(canonical(#[trigger] ps[j])) && pre.count_of(canonical(ps[j])) < u32::MAX,
        decreases paths.len() - i,
    {
        let c = to_cannonical_path(&paths[i]);
        proof {
            assert(ps[i as int] == paths[i as int]@);
        }
        check_key(c.as_str())?;
        match count_load(&acl.path_ref_counts, c.as_str()) {
            Ok(Some(n)) => {
                if n == u32::MAX {
                    proof {
                        assert(pre.count_of(canonical(ps[i as int])) == u32::MAX);
                    }
                    return Err(ContractError::Overflow);
                }
            },
            Ok(None) => {},
            Err(reason) => return Err(std_error(reason)),
        }
        i = i + 1;
    }
    let info = AuthRoleInfo {
        description: msg.description,
        created_at: ctx.block_time,
        created_by: ctx.sender.clone(),
        n_principals: 0,
    };
    let _ = role_save(&mut acl.role_infos, msg.name.as_str(), &info);
    proof {
        assert(acl.wf()) by {
            assert forall|q: Seq<char>| #[trigger] acl.references(q) == pre.references(q) by {}
        }
    }
    let ghost mid = *acl;
    let mut i: usize = 0;
    while i < paths.len()
        invariant
            acl.wf(),
            0 <= i <= paths.len(),
            ps == paths.deep_view(),
            fits_key(msg.name@),
            acl.roles() == mid.roles(),
            acl.roles().contains_key(msg.name@),
            acl.role_paths() == mid.role_paths().union(role_path_set(msg.name@, ps.subrange(0, i as int))),
            acl.grants() == mid.grants(),
            acl.memberships() == mid.memberships(),
            acl.same_metadata(&mid),
            forall|j: int| 0 <= j < ps.len() ==> fits_key(canonical(#[trigger] ps[j])) && pre.count_of(canonical(ps[j])) < u32::MAX,
            forall|p: Seq<char>|
                !acl.role_paths().contains((msg.name@, p)) ==> #[trigger] acl.count_of(p) == pre.count_of(p),
        decreases paths.len() - i,
    {
        let c = to_cannonical_path(&paths[i]);
        proof {
            lemma_canonical_is_canonical(paths[i as int]@);
            assert(ps[i as int] == paths[i as int]@);
        }
        let ghost before = *acl;
        if let Err(e) = acl.link_role_path(&msg.name, &c) {
            return Err(e);
        }
        proof {
            let next = role_path_set(msg.name@, ps.subrange(0, i + 1));
            let prev = role_path_set(msg.name@, ps.subrange(0, i as int));
            assert forall|k: (Seq<char>, Seq<char>)| next.contains(k) <==> #[trigger] prev.insert((msg.name@, c@)).contains(k) by {
                if next.contains(k) {
                    let j = choose|j: int| 0 <= j < i + 1 && k.1 == canonical(#[trigger] ps.subrange(0, i + 1)[j]);
                    if j < i {
                        assert(k.1 == canonical(ps.subrange(0, i as int)[j]));
                    }
                }
                if prev.contains(k) {
                    let j = choose|j: int| 0 <= j < i && k.1 == canonical(#[trigger] ps.subrange(0, i as int)[j]);
                    assert(k.1 == canonical(ps.subrange(0, i + 1)[j]));
                }
                if k == (msg.name@, c@) {
                    assert(k.1 == canonical(ps.subrange(0, i + 1)[i as int]));
                }
            }
            assert(next =~= prev.insert((msg.name@, c@)));
            assert(acl.role_paths() =~= mid.role_paths().union(next));
            assert forall|p: Seq<char>|
                !acl.role_paths().contains((msg.name@, p)) implies #[trigger] acl.count_of(p) == pre.count_of(p) by {
                assert(acl.role_paths().contains((msg.name@, c@)));
                assert(p != c@);
                assert(!before.role_paths().contains((msg.name@, p)));
                assert(before.count_of(p) == pre.count_of(p));
                if !before.role_paths().contains((msg.name@, c@)) {
                    assert(acl.ref_counts() == registered(before.ref_counts(), c@));
                    assert(acl.ref_counts().contains_key(p) == before.ref_counts().contains_key(p));
                } else {
                    assert(acl.ref_counts() == before.ref_counts());
                }
            }
        }
        i = i + 1;
    }
    proof {
        assert(ps.subrange(0, paths.len() as int) =~= ps);
        assert(mid.roles() == pre.roles().insert(msg.name@, info.record()));
        assert(info.record() == (opt_view(msg.description), ctx.block_time.nanos, ctx.sender@, 0u32));
        assert(mid.role_paths() == pre.role_paths());
        assert(acl.same_metadata(&pre));
    }
    Ok(())
}

/// Removes role `name` and every path allowed to it, releasing their
/// reference counts. Principals who held the role keep their membership
/// records, which grant nothing while no role of that name exists. Fails,
/// changing nothing, with `ValidationError` only where the name is too long
/// for a key.
pub fn exec_remove_role(acl: &mut Acl, _ctx: &Context, name: String) -> (r: Result<
    (),
    ContractError,
>)
    requires
        old(acl).wf(),
    ensures
        final(acl).wf(),
        r is Ok <==> fits_key(name@),
        r is Ok ==> role_removed(*old(acl), *final(acl), name@),
        r is Err ==> r->Err_0 is ValidationError && final(acl).same_state(old(acl)),
{
    let ghost pre = *acl;
    check_key(name.as_str())?;
    let paths = match pair_keys(&acl.role_paths, name.as_str()) {
        Ok(v) => v,
        Err(reason) => return Err(std_error(reason)),
    };
    let ghost ps = paths.deep_view();
    let mut i: usize = 0;
    while i < paths.len()
        invariant
            acl.wf(),
            0 <= i <= paths.len(),
            ps == paths.deep_view(),
            ascending(ps),
            forall|p: Seq<char>| pre.role_paths().contains((name@, p)) <==> ps.contains(p),
            forall|j: int| i <= j < ps.len() ==> acl.role_paths().contains((name@, #[trigger] ps[j])),
            forall|k: (Seq<char>, Seq<char>)|
                #![trigger acl.role_paths().contains(k)]
                acl.role_paths().contains(k) <==> pre.role_paths().contains(k) && !(k.0 == name@
                    && in_prefix(ps, i as int, k.1)),
            acl.roles() == pre.roles(),
            acl.grants() == pre.grants(),
            acl.memberships() == pre.memberships(),
            acl.same_metadata(&pre),
        decreases paths.len() - i,
    {
        assert(ps[i as int] == paths[i as int]@);
        acl.unlink_role_path(&name, &paths[i]);
        proof {
            assert forall|j: int| i + 1 <= j < ps.len() implies acl.role_paths().contains((name@, #[trigger] ps[j])) by {
                assert(chars_lt(ps[i as int], ps[j]));
                lemma_chars_lt_irreflexive(ps[j]);
            }
            assert forall|k: (Seq<char>, Seq<char>)| #[trigger] acl.role_paths().contains(k) <==> pre.role_paths().contains(k) && !(k.0 == name@
                    && in_prefix(ps, i + 1, k.1)) by {
                if in_prefix(ps, i + 1, k.1) && !in_prefix(ps, i as int, k.1) {
                    let j = choose|j: int| 0 <= j < i + 1 && ps[j] == k.1;
                    assert(j == i);
                }
                if in_prefix(ps, i as int, k.1) {
                    let j = choose|j: int| 0 <= j < i && ps[j] == k.1;
                    assert(in_prefix(ps, i + 1, k.1));
                }
                if k.1 == ps[i as int] {
                    assert(in_prefix(ps, i + 1, k.1));
                }
            }
        }
        i = i + 1;
    }
    let ghost mid = *acl;
    role_remove(&mut acl.role_infos, name.as_str());
    proof {
        assert forall|k: (Seq<char>, Seq<char>)| #[trigger] acl.role_paths().contains(k) <==> pre.role_paths().contains(k) && k.0 != name@ by {
            if pre.role_paths().contains(k) && k.0 == name@ {
                assert(pre.role_paths().contains((name@, k.1)));
                assert(ps.contains(k.1));
                let j = choose|j: int| 0 <= j < ps.len() && ps[j] == k.1;
                assert(in_prefix(ps, ps.len() as int, k.1));
            }
        }
        assert(acl.role_paths() =~= pre.role_paths().filter(|k: (Seq<char>, Seq<char>)| k.0 != name@));
        assert forall|k: (Seq<char>, Seq<char>)| #[trigger] acl.path_roles().contains(k) <==> pre.path_roles().contains(k) && k.1 != name@ by {
            assert(acl.path_roles().contains((k.0, k.1)) <==> acl.role_paths().contains((k.1, k.0)));
            assert(pre.path_roles().contains((k.0, k.1)) <==> pre.role_paths().contains((k.1, k.0)));
        }
        assert(acl.path_roles() =~= pre.path_roles().filter(|k: (Seq<char>, Seq<char>)| k.1 != name@));
        assert forall|q: Seq<char>| #[trigger] acl.references(q) == mid.references(q) by {}
    }
    Ok(())
}

/// Grants role `msg.role` to `msg.principal`, for `msg.ttl` seconds from the
/// block time or without a time limit, and counts one more principal for the
/// role (also where the principal held it already). Fails, changing nothing,
/// with `ValidationError` where the principal is too long for a key, with
/// `Overflow` where the expiration time does not fit, with `NotFound` where
/// there is no such role, and with `Overflow` where its count would not fit.
pub fn exec_grant_role(acl: &mut Acl, ctx: &Context, msg: GrantRoleMsg) -> (r: Result<
    (),
    ContractError,
>)
    requires
        old(acl).wf(),
    ensures
        final(acl).wf(),
        r is Ok <==> grant_role_ok(*old(acl), ctx.block_time.nanos, msg),
        r is Ok ==> (expiry_for(ctx.block_time.nanos, msg.ttl) matches Some(e) && role_granted(
            *old(acl),
            *final(acl),
            msg.principal@,
            msg.role@,
            e,
        )),
        r is Err ==> final(acl).same_state(old(acl)),
        !fits_key(msg.principal@) ==> r matches Err(ContractError::ValidationError { .. }),
        fits_key(msg.principal@) && expiry_for(ctx.block_time.nanos, msg.ttl) is None ==> r matches Err(
            ContractError::Overflow,
        ),
        fits_key(msg.principal@) && expiry_for(ctx.block_time.nanos, msg.ttl) is Some
            && !old(acl).roles().contains_key(msg.role@) ==> r matches Err(ContractError::NotFound { .. }),
        fits_key(msg.principal@) && expiry_for(ctx.block_time.nanos, msg.ttl) is Some
            && old(acl).roles().contains_key(msg.role@) && old(acl).roles()[msg.role@].3 == u32::MAX
            ==> r matches Err(ContractError::Overflow),
{
    let ghost pre = *acl;
    check_key(msg.principal.as_str())?;
    let e = match expiry(ctx.block_time, msg.ttl) {
        Some(e) => e,
        None => return Err(ContractError::Overflow),
    };
    let info = match role_load(&acl.role_infos, msg.role.as_str()) {
        Ok(Some(info)) => info,
        Ok(None) => return Err(ContractError::NotFound { role: msg.role }),
        Err(reason) => return Err(std_error(reason)),
    };
    let n_principals = add_u32(info.n_principals, 1)?;
    let updated = AuthRoleInfo {
        description: info.description,
        created_at: info.created_at,
        created_by: info.created_by,
        n_principals,
    };
    let _ = role_save(&mut acl.role_infos, msg.role.as_str(), &updated);
    let _ = pair_save(&mut acl.principal_roles, msg.principal.as_str(), msg.role.as_str(), e);
    proof {
        assert forall|q: Seq<char>| #[trigger] acl.references(q) == pre.references(q) by {}
    }
    Ok(())
}

/// Revokes role `msg.role` from `msg.principal` and counts one principal
/// fewer for the role (also where the principal did not hold it). Fails,
/// changing nothing, with `ValidationError` where the principal is too long
/// for a key, with `NotFound` where there is no such role, and with
/// `Underflow` where its count is zero.
pub fn exec_revoke_role(acl: &mut Acl, _ctx: &Context, msg: RevokeRoleMsg) -> (r: Result<
    (),
    ContractError,
>)
    requires
        old(acl).wf(),
    ensures
        final(acl).wf(),
        r is Ok <==> revoke_role_ok(*old(acl), msg),
        r is Ok ==> role_revoked(*old(acl), *final(acl), msg.principal@, msg.role@),
        r is Err ==> final(acl).same_state(old(acl)),
        !fits_key(msg.principal@) ==> r matches Err(ContractError::ValidationError { .. }),
        fits_key(msg.principal@) && !old(acl).roles().contains_key(msg.role@) ==> r matches Err(
            ContractError::NotFound { .. },
        ),
        fits_key(msg.principal@) && old(acl).roles().contains_key(msg.role@)
            && old(acl).roles()[msg.role@].3 == 0 ==> r matches Err(ContractError::Underflow),
{
    let ghost pre = *acl;
    check_key(msg.principal.as_str())?;
    let info = match role_load(&acl.role_infos, msg.role.as_str()) {
        Ok(Some(info)) => info,
        Ok(None) => return Err(ContractError::NotFound { role: msg.role }),
        Err(reason) => return Err(std_error(reason)),
    };
    let n_principals = sub_u32(info.n_principals, 1)?;
    let updated = AuthRoleInfo {
        description: info.description,
        created_at: info.created_at,
        created_by: info.created_by,
        n_principals,
    };
    let _ = role_save(&mut acl.role_infos, msg.role.as_str(), &updated);
    pair_remove(&mut acl.principal_roles, msg.principal.as_str(), msg.role.as_str());
    proof {
        assert forall|q: Seq<char>| #[trigger] acl.references(q) == pre.references(q) by {}
    }
    Ok(())
}

/// Makes `new_operator` the operator of the ACL; returns the one it replaces.
pub fn exec_set_operator(acl: &mut Acl, _ctx: &Context, new_operator: Operator) -> (r: Operator)
    requires
        old(acl).wf(),
    ensures
        final(acl).wf(),
        r == old(acl).spec_operator(),
        final(acl).spec_operator() == new_operator,
        final(acl).grants() == old(acl).grants(),
        final(acl).memberships() == old(acl).memberships(),
        final(acl).ref_counts() == old(acl).ref_counts(),
        final(acl).roles() == old(acl).roles(),
        final(acl).role_paths() == old(acl).role_paths(),
        final(acl).path_roles() == old(acl).path_roles(),
        final(acl).spec_created_by() == old(acl).spec_created_by(),
        final(acl).spec_created_at() == old(acl).spec_created_at(),
        final(acl).spec_name() == old(acl).spec_name(),
        final(acl).spec_description() == old(acl).spec_description(),
{
    let ghost pre = *acl;
    let mut previous = new_operator;
    core::mem::swap(&mut acl.operator, &mut previous);
    proof {
        assert forall|q: Seq<char>| #[trigger] acl.references(q) == pre.references(q) by {}
    }
    previous
}

} // verus!

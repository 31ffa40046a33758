//! Properties that hold across the operations of an ACL.
use vstd::prelude::*;

use crate::acl::Acl;
use crate::execute::{path_allowed, role_granted, role_removed, role_revoked};
use crate::model::{expiry_for, is_live};
use crate::path::{canonical, lemma_canonical_is_canonical};
use crate::resolve::{
    expired_msg, is_level_end, passes, path_verdict, role_admits, verdict_from, verdicts,
};
use crate::msg::TestRequirement;

verus! {

proof fn lemma_live_level_decides(acl: Acl, principal: Seq<char>, c: Seq<char>, k: int, j: int, now: u64)
    requires
        k <= j <= c.len(),
        is_level_end(c, k),
        acl.grants().contains_key((principal, c.subrange(0, k))),
        is_live(acl.grants()[(principal, c.subrange(0, k))], now),
        forall|i: int|
            k < i <= c.len() && is_level_end(c, i) && #[trigger] acl.grants().contains_key(
                (principal, c.subrange(0, i)),
            ) ==> is_live(acl.grants()[(principal, c.subrange(0, i))], now),
    ensures
        verdict_from(acl, principal, c, j, now) is None,
    decreases j - k,
{
    if j > k {
        if !is_level_end(c, j) || !acl.grants().contains_key((principal, c.subrange(0, j))) {
            lemma_live_level_decides(acl, principal, c, k, j - 1, now);
        }
    }
}

/// A live direct grant of a path covers every path below it: the principal
/// is allowed any path that lies under it, unless a direct grant of a level
/// in between has expired (that grant decides first).
pub proof fn law_grant_covers_descendants(
    acl: Acl,
    principal: Seq<char>,
    parent: Seq<char>,
    path: Seq<char>,
    now: u64,
)
    requires
        canonical(parent).len() < canonical(path).len(),
        canonical(path).subrange(0, canonical(parent).len() as int) == canonical(parent),
        canonical(path)[canonical(parent).len() as int] == '/',
        acl.grants().contains_key((principal, canonical(parent))),
        is_live(acl.grants()[(principal, canonical(parent))], now),
        forall|i: int|
            canonical(parent).len() < i <= canonical(path).len() && is_level_end(canonical(path), i)
                && #[trigger] acl.grants().contains_key((principal, canonical(path).subrange(0, i)))
                ==> is_live(acl.grants()[(principal, canonical(path).subrange(0, i))], now),
    ensures
        path_verdict(acl, principal, path, now) is None,
{
    lemma_canonical_is_canonical(parent);
    let c = canonical(path);
    let k = canonical(parent).len() as int;
    assert(is_level_end(c, k));
    lemma_live_level_decides(acl, principal, c, k, c.len() as int, now);
}

/// An expired direct grant of the path itself refuses it, whatever roles the
/// principal holds for it or for shorter paths.
pub proof fn law_expired_grant_blocks(acl: Acl, principal: Seq<char>, path: Seq<char>, now: u64)
    requires
        acl.grants().contains_key((principal, canonical(path))),
        !is_live(acl.grants()[(principal, canonical(path))], now),
    ensures
        path_verdict(acl, principal, path, now) == Some(expired_msg(principal, canonical(path))),
{
    lemma_canonical_is_canonical(path);
    let c = canonical(path);
    assert(c.subrange(0, c.len() as int) =~= c);
}

/// Without a direct grant of the path itself, a live membership of a role
/// that holds the path allows it.
pub proof fn law_live_role_allows(acl: Acl, principal: Seq<char>, path: Seq<char>, role: Seq<char>, now: u64)
    requires
        !acl.grants().contains_key((principal, canonical(path))),
        acl.path_roles().contains((canonical(path), role)),
        acl.memberships().contains_key((principal, role)),
        is_live(acl.memberships()[(principal, role)], now),
    ensures
        path_verdict(acl, principal, path, now) is None,
{
    lemma_canonical_is_canonical(path);
    let c = canonical(path);
    assert(c.subrange(0, c.len() as int) =~= c);
    assert(role_admits(acl, principal, c, now));
}

/// A path allowed for zero seconds at `t0` is refused, as expired, at any
/// time from `t0` on.
pub proof fn law_zero_ttl_expires(pre: Acl, post: Acl, principal: Seq<char>, path: Seq<char>, t0: u64, now: u64)
    requires
        expiry_for(t0, Some(0u32)) is Some,
        path_allowed(pre, post, principal, canonical(path), expiry_for(t0, Some(0u32))->Some_0),
        now >= t0,
    ensures
        path_verdict(post, principal, path, now) == Some(expired_msg(principal, canonical(path))),
{
    assert(post.grants()[(principal, canonical(path))] == Some(t0));
    law_expired_grant_blocks(post, principal, path, now);
}

/// Granting a role and then revoking it from the same principal leaves every
/// role record as it was, the number of principals included.
pub proof fn law_grant_then_revoke_restores_count(
    a0: Acl,
    a1: Acl,
    a2: Acl,
    principal: Seq<char>,
    role: Seq<char>,
    e: Option<u64>,
)
    requires
        role_granted(a0, a1, principal, role, e),
        role_revoked(a1, a2, principal, role),
    ensures
        a2.roles() == a0.roles(),
        a2.roles()[role].3 == a0.roles()[role].3,
{
    assert(a2.roles() =~= a0.roles());
}

proof fn lemma_no_level_decides(acl: Acl, principal: Seq<char>, c: Seq<char>, role: Seq<char>, j: int, now: u64)
    requires
        j <= c.len(),
        forall|i: int| #[trigger] acl.grants().contains_key((principal, c.subrange(0, i))) ==> !is_level_end(c, i),
        forall|r: Seq<char>| #[trigger] acl.memberships().contains_key((principal, r)) ==> r == role,
        forall|p: Seq<char>| !#[trigger] acl.path_roles().contains((p, role)),
    ensures
        verdict_from(acl, principal, c, j, now) is Some,
    decreases j,
{
    if j >= 1 {
        if is_level_end(c, j) {
            assert(!role_admits(acl, principal, c.subrange(0, j), now));
        }
        lemma_no_level_decides(acl, principal, c, role, j - 1, now);
    }
}

/// Once a role is removed, it allows nothing: a principal without direct
/// grants along a path, whose only memberships are of that role, is refused
/// the path. The memberships themselves are kept as they were.
pub proof fn law_removed_role_grants_nothing(
    pre: Acl,
    post: Acl,
    principal: Seq<char>,
    role: Seq<char>,
    path: Seq<char>,
    now: u64,
)
    requires
        role_removed(pre, post, role),
        forall|i: int|
            #[trigger] post.grants().contains_key((principal, canonical(path).subrange(0, i)))
                ==> !is_level_end(canonical(path), i),
        forall|r: Seq<char>| #[trigger] post.memberships().contains_key((principal, r)) ==> r == role,
    ensures
        path_verdict(post, principal, path, now) is Some,
        post.memberships() == pre.memberships(),
{
    let c = canonical(path);
    assert forall|p: Seq<char>| !#[trigger] post.path_roles().contains((p, role)) by {}
    lemma_no_level_decides(post, principal, c, role, c.len() as int, now);
}

/// Where one path is allowed and another refused, the paths pass together
/// with `Any` and do not with `All`.
pub proof fn law_any_versus_all(acl: Acl, principal: Seq<char>, paths: Seq<Seq<char>>, now: u64, i: int, j: int)
    requires
        0 <= i < paths.len(),
        0 <= j < paths.len(),
        path_verdict(acl, principal, paths[i], now) is None,
        path_verdict(acl, principal, paths[j], now) is Some,
    ensures
        passes(verdicts(acl, principal, paths, now), TestRequirement::Any),
        !passes(verdicts(acl, principal, paths, now), TestRequirement::All),
{
    let vs = verdicts(acl, principal, paths, now);
    assert(vs[i] is None);
    assert(vs[j] is Some);
}

} // verus!

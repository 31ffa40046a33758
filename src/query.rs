//! Read-only queries: path listings, roles, and the ACL's metadata.
use vstd::prelude::*;

use crate::acl::Acl;
use crate::error::ContractError;
use crate::client::Operator;
use crate::model::{Config, Timestamp, opt_view};
use crate::msg::{PathsQueryParams, Subject};
use crate::responses::{AclResponse, PathInfo, PathsResponse, RoleResponse, RolesResponse};
use crate::store::{ascending, chars_lt, check_key, count_keys, fits_key, lemma_chars_lt_irreflexive, pair_entries, pair_keys, pair_load, role_keys, role_load};
use crate::text::chars_of;

verus! {

/// The largest page of a path listing.
pub const MAX_LIMIT: u16 = 500;

/// The page size of a path listing where none is given.
pub const DEFAULT_LIMIT: u16 = 100;

/// The page size asked for, capped at `MAX_LIMIT`.
pub open spec fn page_limit(limit: Option<u16>) -> int {
    match limit {
        None => DEFAULT_LIMIT as int,
        Some(l) => if l > MAX_LIMIT {
            MAX_LIMIT as int
        } else {
            l as int
        },
    }
}

/// Path `p` belongs to `subject`: a known path of the ACL, a path allowed to
/// the role, or a path granted directly to the principal.
pub open spec fn subject_has(acl: Acl, subject: Subject, p: Seq<char>) -> bool {
    match subject {
        Subject::Acl => acl.ref_counts().contains_key(p),
        Subject::Role(r) => acl.role_paths().contains((r@, p)),
        Subject::Principal(a) => acl.grants().contains_key((a@, p)),
    }
}

/// Path `p` lies in the range asked for: after the cursor (or from the start,
/// where there is no cursor), and up to the stop.
pub open spec fn within(params: PathsQueryParams, p: Seq<char>) -> bool {
    &&& match params.cursor {
        Some(c) => chars_lt(c@, p),
        None => match params.start {
            Some(s) => !chars_lt(p, s@),
            None => true,
        },
    }
    &&& match params.stop {
        Some(t) => !chars_lt(t@, p),
        None => true,
    }
}

/// The expiration listed with path `p` of `subject`.
pub open spec fn listed_expiry(acl: Acl, subject: Subject, p: Seq<char>) -> Option<Timestamp> {
    match subject {
        Subject::Principal(a) => match acl.grants()[(a@, p)] {
            Some(e) => Some(Timestamp { nanos: e }),
            None => None,
        },
        _ => None,
    }
}

/// The paths of a listing.
pub open spec fn listed_paths(infos: Seq<PathInfo>) -> Seq<Seq<char>> {
    infos.map_values(|i: PathInfo| i.path@)
}

/// Compares two strings by character code.
fn less_than(a: &String, b: &String) -> (r: bool)
    ensures
        r == chars_lt(a@, b@),
{
    let x = chars_of(a.as_str());
    let y = chars_of(b.as_str());
    let mut i: usize = 0;
    assert(x@.subrange(0, x@.len() as int) =~= x@);
    assert(y@.subrange(0, y@.len() as int) =~= y@);
    while i < x.len() && i < y.len() && x[i] == y[i]
        invariant
            0 <= i <= x@.len(),
            i <= y@.len(),
            chars_lt(x@, y@) == chars_lt(x@.subrange(i as int, x@.len() as int), y@.subrange(i as int, y@.len() as int)),
        decreases x@.len() - i,
    {
        assert(x@.subrange(i as int, x@.len() as int).drop_first() =~= x@.subrange(i + 1, x@.len() as int));
        assert(y@.subrange(i as int, y@.len() as int).drop_first() =~= y@.subrange(i + 1, y@.len() as int));
        i = i + 1;
    }
    if i == x.len() {
        i < y.len()
    } else if i == y.len() {
        false
    } else {
        x[i] < y[i]
    }
}

fn in_range(params: &PathsQueryParams, p: &String) -> (r: bool)
    ensures
        r == within(*params, p@),
{
    let above = match &params.cursor {
        Some(c) => less_than(c, p),
        None => match &params.start {
            Some(s) => !less_than(p, s),
            None => true,
        },
    };
    let below = match &params.stop {
        Some(t) => !less_than(t, p),
        None => true,
    };
    above && below
}

/// The key that a listing of `subject` reads under fits.
pub open spec fn subject_fits(subject: Subject) -> bool {
    match subject {
        Subject::Acl => true,
        Subject::Role(r) => fits_key(r@),
        Subject::Principal(a) => fits_key(a@),
    }
}

/// No string comes both before and after another.
pub proof fn lemma_chars_lt_asymmetric(a: Seq<char>, b: Seq<char>)
    requires
        chars_lt(a, b),
    ensures
        !chars_lt(b, a),
    decreases a.len(),
{
    if a.len() > 0 && b.len() > 0 && a[0] == b[0] {
        lemma_chars_lt_asymmetric(a.drop_first(), b.drop_first());
    }
}

/// One page of the paths of `params.subject`, in ascending order: the first
/// `page_limit(params.limit)` of those within the range asked for. The
/// cursor is the last path listed, given only where the page is full and
/// more paths of the subject within the range follow it. Fails with
/// `ValidationError` only where the role or principal is too long for a key.
#[verifier::loop_isolation(false)]
pub fn query_paths(acl: &Acl, params: PathsQueryParams) -> (r: Result<PathsResponse, ContractError>)
    requires
        acl.wf(),
    ensures
        r is Ok <==> subject_fits(params.subject),
        r matches Err(e) ==> e is ValidationError,
        r matches Ok(resp) ==> ({
            let ps = listed_paths(resp.paths@);
            let limit = page_limit(params.limit);
            &&& ascending(ps)
            &&& ps.len() <= limit
            &&& forall|i: int| 0 <= i < ps.len() ==> subject_has(*acl, params.subject, #[trigger] ps[i]) && within(params, ps[i])
            &&& forall|p: Seq<char>| #[trigger] subject_has(*acl, params.subject, p) && within(params, p)
                ==> ps.contains(p) || (ps.len() == limit && (limit == 0 || chars_lt(ps.last(), p)))
            &&& forall|i: int| 0 <= i < ps.len() ==> (#[trigger] resp.paths@[i]).expires_at == listed_expiry(*acl, params.subject, ps[i])
            &&& resp.cursor is Some <==> (ps.len() == limit && limit > 0 && exists|p: Seq<char>|
                #[trigger] subject_has(*acl, params.subject, p) && within(params, p) && chars_lt(ps.last(), p))
            &&& resp.cursor matches Some(c) ==> c@ == ps.last()
        }),
{
    let limit: usize = match params.limit {
        None => DEFAULT_LIMIT as usize,
        Some(l) => if l > MAX_LIMIT {
            MAX_LIMIT as usize
        } else {
            l as usize
        },
    };
    let keys = match &params.subject {
        Subject::Acl => count_keys(&acl.path_ref_counts),
        Subject::Role(role) => {
            check_key(role.as_str())?;
            pair_keys(&acl.role_paths, role.as_str())
        },
        Subject::Principal(a) => {
            check_key(a.as_str())?;
            pair_keys(&acl.principal_paths, a.as_str())
        },
    };
    let keys = match keys {
        Ok(v) => v,
        Err(reason) => return Err(ContractError::Std { reason }),
    };
    let ghost ks = keys.deep_view();
    proof {
        assert forall|p: Seq<char>| subject_has(*acl, params.subject, p) <==> ks.contains(p) by {}
    }
    let mut infos: Vec<PathInfo> = Vec::new();
    let mut i: usize = 0;
    while i < keys.len() && infos.len() < limit
        invariant
            0 <= i <= keys@.len(),
            ks == keys.deep_view(),
            infos@.len() <= limit,
            ({
                let ps = listed_paths(infos@);
                &&& forall|a: int| 0 <= a < ps.len() ==> exists|b: int| 0 <= b < i && #[trigger] ps[a] == ks[b]
                &&& forall|a: int, b: int| 0 <= a < ps.len() && i <= b < ks.len() ==> chars_lt(#[trigger] ps[a], #[trigger] ks[b])
                &&& ascending(ps)
                &&& forall|a: int| 0 <= a < ps.len() ==> subject_has(*acl, params.subject, #[trigger] ps[a]) && within(params, ps[a])
                &&& forall|b: int| 0 <= b < i && within(params, #[trigger] ks[b]) ==> ps.contains(ks[b])
                &&& forall|a: int| 0 <= a < ps.len() ==> (#[trigger] infos@[a]).expires_at == listed_expiry(*acl, params.subject, ps[a])
            }),
        decreases keys@.len() - i,
    {
        let key = &keys[i];
        proof {
            assert(ks[i as int] == key@);
        }
        if in_range(&params, key) {
            let expires_at = match &params.subject {
                Subject::Principal(a) => match pair_load(&acl.principal_paths, a.as_str(), key.as_str()) {
                    Ok(Some(Some(e))) => Some(Timestamp { nanos: e }),
                    Ok(_) => None,
                    Err(reason) => return Err(ContractError::Std { reason }),
                },
                _ => None,
            };
            let ghost before = listed_paths(infos@);
            infos.push(PathInfo { path: key.clone(), expires_at });
            proof {
                let ps = listed_paths(infos@);
                assert(ps =~= before.push(key@));
                assert(ps[ps.len() - 1] == ks[i as int]);
                assert forall|b: int| 0 <= b < i + 1 && within(params, #[trigger] ks[b]) implies ps.contains(ks[b]) by {
                    if b < i {
                        let a = choose|a: int| 0 <= a < before.len() && before[a] == ks[b];
                        assert(ps[a] == ks[b]);
                    } else {
                        assert(ps[ps.len() - 1] == ks[b]);
                    }
                }
                assert forall|a: int| 0 <= a < ps.len() implies exists|b: int| 0 <= b < i + 1 && #[trigger] ps[a] == ks[b] by {
                    if a < before.len() {
                        assert(ps[a] == before[a]);
                    } else {
                        assert(ps[a] == ks[i as int]);
                    }
                }
            }
        } else {
            proof {
                let ps = listed_paths(infos@);
                assert forall|b: int| 0 <= b < i + 1 && within(params, #[trigger] ks[b]) implies ps.contains(ks[b]) by {
                    if b < i {
                    }
                }
            }
        }
        i = i + 1;
    }
    let ghost ps = listed_paths(infos@);
    let mut more = false;
    if infos.len() == limit && limit > 0 {
        let mut k: usize = i;
        while k < keys.len() && !more
            invariant
                i <= k <= keys@.len(),
                ks == keys.deep_view(),
                ps == listed_paths(infos@),
                !more ==> forall|b: int| i <= b < k ==> !within(params, #[trigger] ks[b]),
                more ==> exists|b: int| i <= b < ks.len() && within(params, #[trigger] ks[b]),
            decreases keys@.len() - k,
        {
            proof {
                assert(ks[k as int] == keys@[k as int]@);
            }
            if in_range(&params, &keys[k]) {
                more = true;
            }
            k = k + 1;
        }
        proof {
            if more {
                let b = choose|b: int| i <= b < ks.len() && within(params, #[trigger] ks[b]);
                assert(ks.contains(ks[b]));
                assert(subject_has(*acl, params.subject, ks[b]));
                assert(chars_lt(ps[ps.len() - 1], ks[b]));
                assert(chars_lt(ps.last(), ks[b]));
            } else {
                assert forall|p: Seq<char>| #[trigger] subject_has(*acl, params.subject, p) && within(params, p)
                    implies !chars_lt(ps.last(), p) by {
                    assert(ks.contains(p));
                    let b = choose|b: int| 0 <= b < ks.len() && ks[b] == p;
                    if b < i {
                        assert(ps.contains(p));
                        let a = choose|a: int| 0 <= a < ps.len() && ps[a] == p;
                        if a == ps.len() - 1 {
                            lemma_chars_lt_irreflexive(p);
                        } else {
                            assert(chars_lt(ps[a], ps[ps.len() - 1]));
                            lemma_chars_lt_asymmetric(ps[a], ps[ps.len() - 1]);
                        }
                    }
                }
            }
        }
    }
    let cursor = if more {
        Some(infos[infos.len() - 1].path.clone())
    } else {
        None
    };
    proof {
        assert forall|p: Seq<char>| #[trigger] subject_has(*acl, params.subject, p) && within(params, p)
            implies ps.contains(p) || (ps.len() == limit && (limit == 0 || chars_lt(ps.last(), p))) by {
            assert(ks.contains(p));
            let b = choose|b: int| 0 <= b < ks.len() && ks[b] == p;
            if b >= i {
                assert(ps.len() == limit);
                if limit > 0 {
                    assert(chars_lt(ps[ps.len() - 1], ks[b]));
                }
            }
        }
    }
    Ok(PathsResponse { cursor, paths: infos })
}

/// The role record a response carries.
pub open spec fn response_record(resp: RoleResponse) -> (Option<Seq<char>>, u64, Seq<char>, u32) {
    (opt_view(resp.description), resp.created_at.nanos, resp.created_by@, resp.n_principals)
}

/// An expiration time as a timestamp.
pub open spec fn as_timestamp(e: Option<u64>) -> Option<Timestamp> {
    match e {
        Some(n) => Some(Timestamp { nanos: n }),
        None => None,
    }
}

/// Role `role`: its record, with no expiration. Fails with `NotFound` where
/// there is no such role.
pub fn query_role(acl: &Acl, role: String) -> (r: Result<RoleResponse, ContractError>)
    requires
        acl.wf(),
    ensures
        r is Ok <==> acl.roles().contains_key(role@),
        r matches Ok(resp) ==> resp.name@ == role@ && response_record(resp) == acl.roles()[role@]
            && resp.expires_at is None,
        r matches Err(e) ==> e is NotFound,
{
    match role_load(&acl.role_infos, role.as_str()) {
        Ok(Some(info)) => Ok(
            RoleResponse {
                name: role,
                description: info.description,
                created_at: info.created_at,
                created_by: info.created_by,
                n_principals: info.n_principals,
                expires_at: None,
            },
        ),
        Ok(None) => Err(ContractError::NotFound { role }),
        Err(reason) => Err(ContractError::Std { reason }),
    }
}

/// The names listed in a roles response.
pub open spec fn listed_roles(v: Seq<RoleResponse>) -> Seq<Seq<char>> {
    v.map_values(|x: RoleResponse| x.name@)
}

/// Role `n` is listed for `principal`: with a principal, one whose role it
/// holds a membership of and which exists; without, any existing role.
pub open spec fn role_listed(acl: Acl, principal: Option<String>, n: Seq<char>) -> bool {
    match principal {
        Some(a) => acl.memberships().contains_key((a@, n)) && acl.roles().contains_key(n),
        None => acl.roles().contains_key(n),
    }
}

/// The roles of `principal`, each with the expiration of the membership; or,
/// with no principal given, every role. In ascending order of name.
/// Memberships of roles that no longer exist are left out. Fails with
/// `ValidationError` only where the principal is too long for a key.
#[verifier::loop_isolation(false)]
pub fn query_roles(acl: &Acl, principal: Option<String>) -> (r: Result<RolesResponse, ContractError>)
    requires
        acl.wf(),
    ensures
        r is Ok <==> match principal {
            Some(a) => fits_key(a@),
            None => true,
        },
        r matches Err(e) ==> e is ValidationError,
        r matches Ok(resp) ==> ({
            let names = listed_roles(resp.0@);
            &&& ascending(names)
            &&& forall|n: Seq<char>| #![trigger names.contains(n)] names.contains(n) <==> role_listed(*acl, principal, n)
            &&& forall|i: int| 0 <= i < names.len() ==> acl.roles().contains_key(#[trigger] names[i])
                && response_record(resp.0@[i]) == acl.roles()[names[i]]
                && resp.0@[i].expires_at == match principal {
                    Some(a) => as_timestamp(acl.memberships()[(a@, names[i])]),
                    None => None,
                }
        }),
{
    let names = match &principal {
        Some(a) => {
            check_key(a.as_str())?;
            pair_keys(&acl.principal_roles, a.as_str())
        },
        None => role_keys(&acl.role_infos),
    };
    let names = match names {
        Ok(v) => v,
        Err(reason) => return Err(ContractError::Std { reason }),
    };
    let ghost ns = names.deep_view();
    proof {
        assert forall|n: Seq<char>| role_listed(*acl, principal, n) <==> ns.contains(n) && acl.roles().contains_key(n) by {
            match principal {
                Some(a) => {
                    assert(acl.memberships().contains_key((a@, n)) == pair_entries(acl.principal_roles).contains_key((a@, n)));
                },
                None => {},
            }
        }
    }
    let mut out: Vec<RoleResponse> = Vec::new();
    let mut i: usize = 0;
    while i < names.len()
        invariant
            0 <= i <= names@.len(),
            ns == names.deep_view(),
            ({
                let ls = listed_roles(out@);
                &&& forall|x: int| 0 <= x < ls.len() ==> exists|b: int| 0 <= b < i && #[trigger] ls[x] == ns[b]
                &&& forall|x: int, b: int| 0 <= x < ls.len() && i <= b < ns.len() ==> chars_lt(#[trigger] ls[x], #[trigger] ns[b])
                &&& ascending(ls)
                &&& forall|b: int| 0 <= b < i && acl.roles().contains_key(#[trigger] ns[b]) ==> ls.contains(ns[b])
                &&& forall|x: int| 0 <= x < ls.len() ==> acl.roles().contains_key(#[trigger] ls[x])
                    && response_record(out@[x]) == acl.roles()[ls[x]]
                    && out@[x].expires_at == match principal {
                        Some(a) => as_timestamp(acl.memberships()[(a@, ls[x])]),
                        None => None,
                    }
            }),
        decreases names@.len() - i,
    {
        let name = &names[i];
        proof {
            assert(ns[i as int] == name@);
            assert(ns.contains(ns[i as int]));
        }
        let ghost before = out@;
        match role_load(&acl.role_infos, name.as_str()) {
            Ok(Some(info)) => {
                let expires_at = match &principal {
                    Some(a) => match pair_load(&acl.principal_roles, a.as_str(), name.as_str()) {
                        Ok(Some(Some(e))) => Some(Timestamp { nanos: e }),
                        Ok(_) => None,
                        Err(reason) => return Err(ContractError::Std { reason }),
                    },
                    None => None,
                };
                out.push(
                    RoleResponse {
                        name: name.clone(),
                        description: info.description,
                        created_at: info.created_at,
                        created_by: info.created_by,
                        n_principals: info.n_principals,
                        expires_at,
                    },
                );
                proof {
                    let ls = listed_roles(out@);
                    let lb = listed_roles(before);
                    assert(ls =~= lb.push(name@));
                    assert forall|x: int| 0 <= x < ls.len() implies acl.roles().contains_key(#[trigger] ls[x])
                        && response_record(out@[x]) == acl.roles()[ls[x]]
                        && out@[x].expires_at == match principal {
                            Some(a) => as_timestamp(acl.memberships()[(a@, ls[x])]),
                            None => None,
                        } by {
                        if x < lb.len() {
                            assert(out@[x] == before[x]);
                            assert(ls[x] == lb[x]);
                        } else {
                            match principal {
                                Some(a) => {
                                    assert(pair_entries(acl.principal_roles).contains_key((a@, ns[i as int])));
                                },
                                None => {},
                            }
                        }
                    }
                    assert forall|b: int| 0 <= b < i + 1 && acl.roles().contains_key(#[trigger] ns[b]) implies ls.contains(ns[b]) by {
                        if b < i {
                            let x = choose|x: int| 0 <= x < lb.len() && lb[x] == ns[b];
                            assert(ls[x] == ns[b]);
                        } else {
                            assert(ls[ls.len() - 1] == ns[b]);
                        }
                    }
                    assert forall|x: int| 0 <= x < ls.len() implies exists|b: int| 0 <= b < i + 1 && #[trigger] ls[x] == ns[b] by {
                        if x < lb.len() {
                            assert(ls[x] == lb[x]);
                        } else {
                            assert(ls[x] == ns[i as int]);
                        }
                    }
                }
            },
            Ok(None) => {
                proof {
                    let ls = listed_roles(out@);
                    assert forall|b: int| 0 <= b < i + 1 && acl.roles().contains_key(#[trigger] ns[b]) implies ls.contains(ns[b]) by {
                        if b < i {
                        }
                    }
                }
            },
            Err(reason) => return Err(ContractError::Std { reason }),
        }
        i = i + 1;
    }
    proof {
        let ls = listed_roles(out@);
        assert forall|n: Seq<char>| #[trigger] ls.contains(n) <==> role_listed(*acl, principal, n) by {
            if ls.contains(n) {
                let x = choose|x: int| 0 <= x < ls.len() && ls[x] == n;
                let b = choose|b: int| 0 <= b < i && #[trigger] ls[x] == ns[b];
                assert(ns.contains(n));
            }
            if role_listed(*acl, principal, n) {
                let b = choose|b: int| 0 <= b < ns.len() && ns[b] == n;
                assert(acl.roles().contains_key(ns[b]));
            }
        }
    }
    Ok(RolesResponse(out))
}

fn copy_text(s: &Option<String>) -> (r: Option<String>)
    ensures
        r == *s,
{
    match s {
        Some(t) => Some(t.clone()),
        None => None,
    }
}

fn copy_operator(op: &Operator) -> (r: Operator)
    ensures
        r == *op,
{
    match op {
        Operator::Address(a) => Operator::Address(a.clone()),
        Operator::Acl(a) => Operator::Acl(a.clone()),
    }
}

/// The ACL's operator and metadata.
pub fn query_acl(acl: &Acl) -> (r: AclResponse)
    ensures
        r.operator == acl.spec_operator(),
        r.created_by == acl.spec_created_by(),
        r.created_at == acl.spec_created_at(),
        r.name == acl.spec_name(),
        r.description == acl.spec_description(),
{
    AclResponse {
        operator: copy_operator(&acl.operator),
        created_by: acl.created_by.clone(),
        created_at: acl.created_at,
        name: copy_text(&acl.name),
        description: copy_text(&acl.description),
        config: Config {},
    }
}

} // verus!

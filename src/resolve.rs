//! Deciding whether a principal may act on paths.
//!
//! A path is checked level by level, from the whole canonical path down to
//! its first segment. At each level a direct grant to the principal decides
//! alone: live, the path is allowed; expired, it is refused, and no shorter
//! level is looked at. Without a direct grant, any role that holds the level
//! and that the principal holds by a live membership allows the path; expired
//! memberships are passed over. Where no level decides, the path is refused.
use vstd::prelude::*;

use crate::acl::Acl;
use crate::error::ContractError;
use crate::model::is_live;
use crate::msg::{IsAllowedParams, ReadonlyContext, TestRequirement};
use crate::path::{canonical, lemma_canonical_is_canonical, to_cannonical_path};
use crate::store::{check_key, fits_key, pair_keys, pair_load};
use crate::text::{chars_of, concat, string_of};

verus! {

/// Position `j` of canonical path `c` ends a level: a prefix of whole
/// segments (the first segment at least).
pub open spec fn is_level_end(c: Seq<char>, j: int) -> bool {
    1 <= j <= c.len() && (j == c.len() || c[j] == '/')
}

/// Some role that holds `level` is held by `principal` with a membership live
/// at `now`.
pub open spec fn role_admits(acl: Acl, principal: Seq<char>, level: Seq<char>, now: u64) -> bool {
    exists|r: Seq<char>|
        #![trigger acl.path_roles().contains((level, r))]
        acl.path_roles().contains((level, r)) && acl.memberships().contains_key((principal, r))
            && is_live(acl.memberships()[(principal, r)], now)
}

/// The reason given where a direct grant of `level` has expired.
pub open spec fn expired_msg(principal: Seq<char>, level: Seq<char>) -> Seq<char> {
    principal + " access to "@ + level + " has expired"@
}

/// The reason given where no level decides.
pub open spec fn not_authorized_msg(principal: Seq<char>, c: Seq<char>) -> Seq<char> {
    principal + " not authorized to "@ + c
}

/// The verdict on canonical path `c` from the levels that end at or before
/// `j`: `None` for allowed, or the reason for refusing.
pub open spec fn verdict_from(acl: Acl, principal: Seq<char>, c: Seq<char>, j: int, now: u64) -> Option<Seq<char>>
    decreases j,
{
    if j < 1 {
        Some(not_authorized_msg(principal, c))
    } else if !is_level_end(c, j) {
        verdict_from(acl, principal, c, j - 1, now)
    } else {
        let level = c.subrange(0, j);
        if acl.grants().contains_key((principal, level)) {
            if is_live(acl.grants()[(principal, level)], now) {
                None
            } else {
                Some(expired_msg(principal, level))
            }
        } else if role_admits(acl, principal, level, now) {
            None
        } else {
            verdict_from(acl, principal, c, j - 1, now)
        }
    }
}

/// The verdict on raw path `path` for `principal` at `now`: `None` where it is
/// allowed, else the reason.
pub open spec fn path_verdict(acl: Acl, principal: Seq<char>, path: Seq<char>, now: u64) -> Option<Seq<char>> {
    let c = canonical(path);
    verdict_from(acl, principal, c, c.len() as int, now)
}

/// The verdicts on each of `paths`.
pub open spec fn verdicts(acl: Acl, principal: Seq<char>, paths: Seq<Seq<char>>, now: u64) -> Seq<Option<Seq<char>>> {
    paths.map_values(|p: Seq<char>| path_verdict(acl, principal, p, now))
}

/// Whether the paths pass together: with `All` every one of them (and there
/// is at least one), with `Any` at least one.
pub open spec fn passes(vs: Seq<Option<Seq<char>>>, require: TestRequirement) -> bool {
    match require {
        TestRequirement::All => vs.len() > 0 && forall|i: int| 0 <= i < vs.len() ==> (#[trigger] vs[i]) is None,
        TestRequirement::Any => exists|i: int| 0 <= i < vs.len() && (#[trigger] vs[i]) is None,
    }
}

/// The reason of the first refused verdict.
pub open spec fn first_reason(vs: Seq<Option<Seq<char>>>) -> Seq<char>
    decreases vs.len(),
{
    if vs.len() == 0 {
        Seq::empty()
    } else if vs[0] is Some {
        vs[0]->Some_0
    } else {
        first_reason(vs.drop_first())
    }
}

/// The reasons joined with `", "`.
pub open spec fn join_reasons(msgs: Seq<Seq<char>>) -> Seq<char>
    decreases msgs.len(),
{
    if msgs.len() == 0 {
        Seq::empty()
    } else if msgs.len() == 1 {
        msgs[0]
    } else {
        join_reasons(msgs.drop_last()) + ", "@ + msgs.last()
    }
}

/// The reasons of all refused verdicts, in order.
pub open spec fn all_reasons(vs: Seq<Option<Seq<char>>>) -> Seq<Seq<char>>
    decreases vs.len(),
{
    if vs.len() == 0 {
        Seq::empty()
    } else if vs.last() is Some {
        all_reasons(vs.drop_last()).push(vs.last()->Some_0)
    } else {
        all_reasons(vs.drop_last())
    }
}

/// The characters `v[0..j]` as a string.
fn prefix_string(v: &Vec<char>, j: usize) -> (r: String)
    requires
        j <= v@.len(),
    ensures
        r@ == v@.subrange(0, j as int),
{
    let mut out: Vec<char> = Vec::new();
    let mut i: usize = 0;
    while i < j
        invariant
            0 <= i <= j <= v@.len(),
            out@ == v@.subrange(0, i as int),
        decreases j - i,
    {
        out.push(v[i]);
        assert(v@.subrange(0, i + 1) =~= v@.subrange(0, i as int).push(v@[i as int]));
        i = i + 1;
    }
    string_of(&out)
}

fn live(expires_at: Option<u64>, now: u64) -> (r: bool)
    ensures
        r == is_live(expires_at, now),
{
    match expires_at {
        None => true,
        Some(e) => now < e,
    }
}

/// What one level of a path decides.
#[derive(Clone, Debug, PartialEq, Eq)]
pub enum LevelVerdict {
    Allowed,
    Refused { reason: String },
    /// Shorter levels decide.
    Undecided,
}

/// The decision at `level` for `principal` at `now`, given the principal's
/// direct grant of the level (`direct`, its expiration where there is one)
/// and whether some role holding the level is held by a live membership
/// (`role_live`). A direct grant decides alone: live, it allows; expired, it
/// refuses. Without one, a live role allows; else the level leaves the
/// decision to shorter levels.
pub fn decide_level(
    principal: &String,
    level: &String,
    direct: Option<Option<u64>>,
    role_live: bool,
    now: u64,
) -> (r: LevelVerdict)
    ensures
        match direct {
            Some(e) => if is_live(e, now) {
                r is Allowed
            } else {
                r matches LevelVerdict::Refused { reason } && reason@ == expired_msg(principal@, level@)
            },
            None => if role_live {
                r is Allowed
            } else {
                r is Undecided
            },
        },
{
    match direct {
        Some(expires_at) => {
            if live(expires_at, now) {
                LevelVerdict::Allowed
            } else {
                let m = concat(principal.as_str(), " access to ");
                let m = concat(m.as_str(), level.as_str());
                LevelVerdict::Refused { reason: concat(m.as_str(), " has expired") }
            }
        },
        None => {
            if role_live {
                LevelVerdict::Allowed
            } else {
                LevelVerdict::Undecided
            }
        },
    }
}

impl Acl {
    /// Checks `path` for `principal` at `now`: `Ok(None)` where it is allowed,
    /// `Ok(Some(reason))` where it is refused.
    #[verifier::loop_isolation(false)]
    pub fn try_authorize_path(&self, now: u64, principal: &String, path: &String) -> (r: Result<
        Option<String>,
        ContractError,
    >)
        requires
            self.wf(),
        ensures
            r is Ok <==> fits_key(principal@) && fits_key(canonical(path@)),
            r matches Ok(v) ==> opt_chars(v) == path_verdict(*self, principal@, path@, now),
            r matches Err(e) ==> e is ValidationError,
    {
        check_key(principal.as_str())?;
        let c = to_cannonical_path(path);
        proof {
            lemma_canonical_is_canonical(path@);
        }
        check_key(c.as_str())?;
        let cs = chars_of(c.as_str());
        let n = cs.len();
        let mut j: usize = n;
        while j >= 1
            invariant
                cs@ == c@,
                n == cs@.len(),
                0 <= j <= n,
                verdict_from(*self, principal@, c@, n as int, now) == verdict_from(*self, principal@, c@, j as int, now),
            decreases j,
        {
            if j == n || cs[j] == '/' {
                let level = prefix_string(&cs, j);
                proof {
                    assert(is_level_end(c@, j as int));
                    assert(level@ == c@.subrange(0, j as int));
                }
                let direct = match pair_load(&self.principal_paths, principal.as_str(), level.as_str()) {
                    Ok(v) => v,
                    Err(reason) => return Err(ContractError::Std { reason }),
                };
                let mut role_live = false;
                if direct.is_none() {
                    let roles = match pair_keys(&self.path_roles, level.as_str()) {
                        Ok(v) => v,
                        Err(reason) => return Err(ContractError::Std { reason }),
                    };
                    let mut k: usize = 0;
                    while k < roles.len() && !role_live
                        invariant
                            0 <= k <= roles@.len(),
                            role_live ==> role_admits(*self, principal@, level@, now),
                            !role_live ==> forall|i: int| 0 <= i < k ==> !(#[trigger] self.memberships().contains_key((principal@, roles@[i]@))
                                && is_live(self.memberships()[(principal@, roles@[i]@)], now)),
                        decreases roles@.len() - k,
                    {
                        let held = match pair_load(&self.principal_roles, principal.as_str(), roles[k].as_str()) {
                            Ok(v) => v,
                            Err(reason) => return Err(ContractError::Std { reason }),
                        };
                        if let Some(expires_at) = held {
                            if live(expires_at, now) {
                                proof {
                                    assert(roles.deep_view()[k as int] == roles@[k as int]@);
                                    assert(self.path_roles().contains((level@, roles@[k as int]@)));
                                }
                                role_live = true;
                            }
                        }
                        k = k + 1;
                    }
                    proof {
                        if !role_live && role_admits(*self, principal@, level@, now) {
                            let r = choose|r: Seq<char>|
                                #![trigger self.path_roles().contains((level@, r))]
                                self.path_roles().contains((level@, r)) && self.memberships().contains_key((principal@, r))
                                    && is_live(self.memberships()[(principal@, r)], now);
                            assert(roles.deep_view().contains(r));
                            let i = choose|i: int| 0 <= i < roles.deep_view().len() && roles.deep_view()[i] == r;
                            assert(roles.deep_view()[i] == roles@[i]@);
                        }
                    }
                }
                match decide_level(principal, &level, direct, role_live, now) {
                    LevelVerdict::Allowed => return Ok(None),
                    LevelVerdict::Refused { reason } => return Ok(Some(reason)),
                    LevelVerdict::Undecided => {},
                }
            }
            j = j - 1;
        }
        let m = concat(principal.as_str(), " not authorized to ");
        Ok(Some(concat(m.as_str(), c.as_str())))
    }
}

proof fn lemma_first_reason(vs: Seq<Option<Seq<char>>>, i: int)
    requires
        0 <= i < vs.len(),
        vs[i] is Some,
        forall|k: int| 0 <= k < i ==> (#[trigger] vs[k]) is None,
    ensures
        first_reason(vs) == vs[i]->Some_0,
    decreases i,
{
    if i > 0 {
        assert(vs[0] is None);
        let t = vs.drop_first();
        assert forall|k: int| 0 <= k < i - 1 implies (#[trigger] t[k]) is None by {
            assert(t[k] == vs[k + 1]);
        }
        lemma_first_reason(t, i - 1);
    }
}

proof fn lemma_all_reasons_len(vs: Seq<Option<Seq<char>>>)
    ensures
        all_reasons(vs).len() <= vs.len(),
        all_reasons(vs).len() == vs.len() <==> forall|k: int| 0 <= k < vs.len() ==> (#[trigger] vs[k]) is Some,
    decreases vs.len(),
{
    if vs.len() > 0 {
        let t = vs.drop_last();
        lemma_all_reasons_len(t);
        if forall|k: int| 0 <= k < vs.len() ==> (#[trigger] vs[k]) is Some {
            assert forall|k: int| 0 <= k < t.len() implies (#[trigger] t[k]) is Some by {
                assert(t[k] == vs[k]);
            }
        }
        if forall|k: int| 0 <= k < t.len() ==> (#[trigger] t[k]) is Some {
            if vs.last() is Some {
                assert forall|k: int| 0 <= k < vs.len() implies (#[trigger] vs[k]) is Some by {
                    if k < t.len() {
                        assert(t[k] == vs[k]);
                    }
                }
            }
        }
    }
}

/// Combines the verdicts on several paths (`None` for allowed, else the
/// reason) as `require` says. Where they do not pass: `Ok(false)`, or with
/// `raise` a `NotAuthorized` failure whose reason is, with `All`, that of the
/// first refused path and, with `Any`, those of all paths joined with
/// `", "`. An empty list does not pass.
pub fn combine_verdicts(vs: &Vec<Option<String>>, require: TestRequirement, raise: bool) -> (r: Result<
    bool,
    ContractError,
>)
    ensures
        r matches Ok(b) ==> b == passes(vs.deep_view(), require),
        r is Err <==> raise && !passes(vs.deep_view(), require),
        r matches Err(e) ==> (e matches ContractError::NotAuthorized { reason } && reason@ == match require {
            TestRequirement::All => first_reason(vs.deep_view()),
            TestRequirement::Any => join_reasons(all_reasons(vs.deep_view())),
        }),
{
    let ghost v = vs.deep_view();
    let mut reasons: Vec<String> = Vec::new();
    let mut i: usize = 0;
    while i < vs.len()
        invariant
            0 <= i <= vs@.len(),
            v == vs.deep_view(),
            require == TestRequirement::All ==> forall|k: int| 0 <= k < i ==> (#[trigger] v[k]) is None,
            reasons.deep_view() == all_reasons(v.subrange(0, i as int)),
        decreases vs@.len() - i,
    {
        proof {
            assert(v.subrange(0, i + 1).drop_last() =~= v.subrange(0, i as int));
        }
        match &vs[i] {
            Some(reason) => {
                proof {
                    assert(v[i as int] == Some(reason@));
                }
                if require == TestRequirement::All {
                    proof {
                        lemma_first_reason(v, i as int);
                        assert(!passes(v, require));
                    }
                    if raise {
                        return Err(ContractError::NotAuthorized { reason: reason.clone() });
                    } else {
                        return Ok(false);
                    }
                }
                reasons.push(reason.clone());
                proof {
                    assert(reasons.deep_view() =~= all_reasons(v.subrange(0, i + 1)));
                }
            },
            None => {
                proof {
                    assert(v[i as int] is None);
                }
            },
        }
        i = i + 1;
    }
    proof {
        assert(v.subrange(0, i as int) =~= v);
        lemma_all_reasons_len(v);
    }
    if reasons.len() == vs.len() {
        if raise {
            let joined = join_all(&reasons);
            proof {
                if require == TestRequirement::All {
                    assert(reasons.deep_view().len() == 0);
                }
            }
            Err(ContractError::NotAuthorized { reason: joined })
        } else {
            Ok(false)
        }
    } else {
        Ok(true)
    }
}

/// Checks `msg.paths` for `msg.principal` at the block time and combines the
/// verdicts with `combine_verdicts`, `require` being `All` and `raise` false
/// where `msg` gives none. With `All`, no path after the first refused one is
/// checked. Fails with `ValidationError`, before any check, where the
/// principal or a path is too long for a key.
#[verifier::loop_isolation(false)]
pub fn query_is_authorized(acl: &Acl, ctx: ReadonlyContext, msg: IsAllowedParams) -> (r: Result<
    bool,
    ContractError,
>)
    requires
        acl.wf(),
    ensures
        !keys_fit(msg.principal@, msg.paths.deep_view()) ==> r matches Err(ContractError::ValidationError { .. }),
        keys_fit(msg.principal@, msg.paths.deep_view()) ==> ({
            let vs = verdicts(*acl, msg.principal@, msg.paths.deep_view(), ctx.block_time.nanos);
            let require = match msg.require {
                Some(q) => q,
                None => TestRequirement::All,
            };
            let raise = match msg.raise {
                Some(b) => b,
                None => false,
            };
            &&& r matches Ok(b) ==> b == passes(vs, require)
            &&& r is Err <==> raise && !passes(vs, require)
            &&& r matches Err(e) ==> (e matches ContractError::NotAuthorized { reason } && reason@ == match require {
                TestRequirement::All => first_reason(vs),
                TestRequirement::Any => join_reasons(all_reasons(vs)),
            })
        }),
{
    let now = ctx.block_time.nanos;
    let require = match msg.require {
        Some(q) => q,
        None => TestRequirement::All,
    };
    let raise = match msg.raise {
        Some(b) => b,
        None => false,
    };
    check_key(msg.principal.as_str())?;
    let mut i: usize = 0;
    while i < msg.paths.len()
        invariant
            0 <= i <= msg.paths@.len(),
            fits_key(msg.principal@),
            forall|k: int| 0 <= k < i ==> fits_key(canonical(#[trigger] msg.paths.deep_view()[k])),
        decreases msg.paths@.len() - i,
    {
        let c = to_cannonical_path(&msg.paths[i]);
        proof {
            assert(msg.paths.deep_view()[i as int] == msg.paths@[i as int]@);
        }
        check_key(c.as_str())?;
        i = i + 1;
    }
    let ghost full = verdicts(*acl, msg.principal@, msg.paths.deep_view(), now);
    let mut found: Vec<Option<String>> = Vec::new();
    let mut stop = false;
    let mut i: usize = 0;
    while i < msg.paths.len() && !stop
        invariant
            0 <= i <= msg.paths@.len(),
            full == verdicts(*acl, msg.principal@, msg.paths.deep_view(), now),
            full.len() == msg.paths@.len(),
            found.deep_view() == full.subrange(0, i as int),
            !stop ==> require == TestRequirement::All ==> forall|k: int| 0 <= k < i ==> (#[trigger] full[k]) is None,
            stop ==> require == TestRequirement::All && i >= 1 && full[i - 1] is Some
                && forall|k: int| 0 <= k < i - 1 ==> (#[trigger] full[k]) is None,
        decreases msg.paths@.len() - i,
    {
        proof {
            assert(msg.paths.deep_view()[i as int] == msg.paths@[i as int]@);
        }
        let v = acl.try_authorize_path(now, &msg.principal, &msg.paths[i])?;
        proof {
            assert(full[i as int] == opt_chars(v));
        }
        if v.is_some() && require == TestRequirement::All {
            stop = true;
        }
        found.push(v);
        proof {
            assert(found.deep_view() =~= full.subrange(0, i + 1));
        }
        i = i + 1;
    }
    proof {
        let got = found.deep_view();
        if stop {
            lemma_first_reason(full, i - 1);
            lemma_first_reason(got, i - 1);
            assert(got[i - 1] is Some);
            assert(full[i - 1] is Some);
        } else {
            assert(full.subrange(0, i as int) =~= full);
        }
    }
    combine_verdicts(&found, require, raise)
}

/// The strings joined with `", "`.
fn join_all(parts: &Vec<String>) -> (r: String)
    ensures
        r@ == join_reasons(parts.deep_view()),
{
    let mut out = String::new();
    let mut i: usize = 0;
    while i < parts.len()
        invariant
            0 <= i <= parts@.len(),
            out@ == join_reasons(parts.deep_view().subrange(0, i as int)),
        decreases parts@.len() - i,
    {
        let ghost sub = parts.deep_view().subrange(0, i + 1);
        proof {
            assert(sub.drop_last() =~= parts.deep_view().subrange(0, i as int));
            assert(sub.last() == parts@[i as int]@);
        }
        if i == 0 {
            out = concat(out.as_str(), parts[i].as_str());
            proof {
                assert(out@ =~= join_reasons(sub));
            }
        } else {
            let with_sep = concat(out.as_str(), ", ");
            out = concat(with_sep.as_str(), parts[i].as_str());
        }
        i = i + 1;
    }
    proof {
        assert(parts.deep_view().subrange(0, parts@.len() as int) =~= parts.deep_view());
    }
    out
}

/// The principal and the canonical form of each path fit in keys.
pub open spec fn keys_fit(principal: Seq<char>, paths: Seq<Seq<char>>) -> bool {
    &&& fits_key(principal)
    &&& forall|k: int| 0 <= k < paths.len() ==> fits_key(canonical(#[trigger] paths[k]))
}

/// The view of an optional string.
pub open spec fn opt_chars(v: Option<String>) -> Option<Seq<char>> {
    match v {
        Some(s) => Some(s@),
        None => None,
    }
}

} // verus!

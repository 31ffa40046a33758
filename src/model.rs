//! The records kept for grants and roles, and points in time.
use vstd::prelude::*;

verus! {

/// A point in time, in nanoseconds since the epoch.
#[derive(Clone, Copy, Debug, PartialEq, Eq, Structural)]
pub struct Timestamp {
    pub nanos: u64,
}

impl Timestamp {
    pub fn from_nanos(nanos: u64) -> (r: Timestamp)
        ensures
            r.nanos == nanos,
    {
        Timestamp { nanos }
    }

    /// The time `seconds` seconds after the epoch, where that fits.
    pub fn from_seconds(seconds: u64) -> (r: Option<Timestamp>)
        ensures
            r == (if seconds * 1_000_000_000 <= u64::MAX {
                Some(Timestamp { nanos: (seconds * 1_000_000_000) as u64 })
            } else {
                None
            }),
    {
        match seconds.checked_mul(1_000_000_000) {
            Some(nanos) => Some(Timestamp { nanos }),
            None => None,
        }
    }

    /// The time `seconds` seconds later, where that fits.
    pub fn plus_seconds(&self, seconds: u64) -> (r: Option<Timestamp>)
        ensures
            r == (if self.nanos + seconds * 1_000_000_000 <= u64::MAX {
                Some(Timestamp { nanos: (self.nanos + seconds * 1_000_000_000) as u64 })
            } else {
                None
            }),
    {
        match seconds.checked_mul(1_000_000_000) {
            Some(d) => match self.nanos.checked_add(d) {
                Some(nanos) => Some(Timestamp { nanos }),
                None => None,
            },
            None => None,
        }
    }
}

/// The expiration time of a grant that lasts `ttl` seconds from `now`, or
/// none for a grant without a time limit; `None` where that time does not fit.
pub open spec fn expiry_for(now: u64, ttl: Option<u32>) -> Option<Option<u64>> {
    match ttl {
        None => Some(None),
        Some(t) => if now + t * 1_000_000_000 <= u64::MAX {
            Some(Some((now + t * 1_000_000_000) as u64))
        } else {
            None
        },
    }
}

/// A grant is live at `now` when it has no expiration or has not reached it.
pub open spec fn is_live(expires_at: Option<u64>, now: u64) -> bool {
    match expires_at {
        None => true,
        Some(e) => now < e,
    }
}

/// Settings of an ACL; none are defined yet.
#[derive(Clone, Copy, Debug, PartialEq, Eq, Structural)]
pub struct Config {}

/// What is kept of a role.
#[derive(Clone, Debug, PartialEq, Eq)]
pub struct AuthRoleInfo {
    pub description: Option<String>,
    pub created_at: Timestamp,
    pub created_by: String,
    pub n_principals: u32,
}

/// The view of an optional string.
pub open spec fn opt_view(s: Option<String>) -> Option<Seq<char>> {
    match s {
        Some(t) => Some(t@),
        None => None,
    }
}

impl AuthRoleInfo {
    /// The record as plain values: description, creation time, creator and
    /// number of principals.
    pub open spec fn record(&self) -> (Option<Seq<char>>, u64, Seq<char>, u32) {
        (opt_view(self.description), self.created_at.nanos, self.created_by@, self.n_principals)
    }
}

/// A grant to a principal, of a path or of a role membership.
#[derive(Clone, Copy, Debug, PartialEq, Eq, Structural)]
pub struct AuthRecord {
    pub expires_at: Option<Timestamp>,
}

} // verus!

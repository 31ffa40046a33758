//! The key-value collections that hold the ACL's state.
//!
//! Each collection lives in a storage of its own, written and read through
//! `cw_storage_plus::Map`. The contents of a storage, as a map of plain values,
//! are named below; the functions of this module say how each call changes
//! or reads those contents.
use vstd::prelude::*;

use cosmwasm_std::MemoryStorage;

use crate::error::ContractError;
use crate::model::{AuthRoleInfo, Timestamp};
use crate::text::chars_of;

verus! {

#[verifier::external_type_specification]
#[verifier::external_body]
pub struct ExMemoryStorage(MemoryStorage);

/// Pairs of strings to an optional expiration time.
pub type PairEntries = Map<(Seq<char>, Seq<char>), Option<u64>>;

/// Strings to counters.
pub type CountEntries = Map<Seq<char>, u32>;

/// Role names to role records.
pub type RoleEntries = Map<Seq<char>, (Option<Seq<char>>, u64, Seq<char>, u32)>;

/// The entries of a storage used as a map from pairs of strings to an
/// optional expiration time (in nanoseconds).
pub uninterp spec fn pair_entries(s: MemoryStorage) -> PairEntries;

/// The entries of a storage used as a map from strings to counters.
pub uninterp spec fn count_entries(s: MemoryStorage) -> CountEntries;

/// The entries of a storage used as a map from role names to role records
/// (description, creation time in nanoseconds, creator, number of principals).
pub uninterp spec fn role_entries(s: MemoryStorage) -> RoleEntries;

/// Every entry of a storage used as a map of pairs parses (key as UTF-8,
/// value as JSON) to the types it was written with.
pub uninterp spec fn pairs_parse(s: MemoryStorage) -> bool;

/// Every entry of a storage used as a map of counters parses.
pub uninterp spec fn counts_parse(s: MemoryStorage) -> bool;

/// Every entry of a storage used as a map of role records parses.
pub uninterp spec fn roles_parse(s: MemoryStorage) -> bool;

/// The longest first half of a pair key, in characters. The storage prefixes
/// that half with its length in two bytes, and a character takes at most
/// four bytes in UTF-8.
pub const MAX_KEY_LEN: usize = 16383;

/// `s` may stand as the first half of a pair key.
pub open spec fn fits_key(s: Seq<char>) -> bool {
    s.len() <= MAX_KEY_LEN
}

/// Strict lexicographic order of strings by character code, which is the
/// order of their UTF-8 bytes.
pub open spec fn chars_lt(a: Seq<char>, b: Seq<char>) -> bool
    decreases a.len(),
{
    if a.len() == 0 {
        b.len() > 0
    } else if b.len() == 0 {
        false
    } else if a[0] == b[0] {
        chars_lt(a.drop_first(), b.drop_first())
    } else {
        a[0] < b[0]
    }
}

/// No string comes before itself.
pub proof fn lemma_chars_lt_irreflexive(a: Seq<char>)
    ensures
        !chars_lt(a, a),
    decreases a.len(),
{
    if a.len() > 0 {
        lemma_chars_lt_irreflexive(a.drop_first());
    }
}

/// The strings are in strictly ascending order.
pub open spec fn ascending(v: Seq<Seq<char>>) -> bool {
    forall|i: int, j: int| 0 <= i < j < v.len() ==> chars_lt(#[trigger] v[i], #[trigger] v[j])
}

/// What a lookup in `m` gives: the value at `k`, if there is one.
pub open spec fn lookup<K, V>(m: Map<K, V>, k: K) -> Option<V> {
    if m.contains_key(k) {
        Some(m[k])
    } else {
        None
    }
}

/// Relies on `MemoryStorage::new`: a storage with no entries, read through
/// any map as empty.
#[verifier::external_body]
pub(crate) fn new_storage() -> (r: MemoryStorage)
    ensures
        pair_entries(r) == PairEntries::empty(),
        count_entries(r) == CountEntries::empty(),
        role_entries(r) == RoleEntries::empty(),
        pairs_parse(r),
        counts_parse(r),
        roles_parse(r),
{
    MemoryStorage::new()
}

/// Relies on `Map::may_load`: `Ok(None)` where the key has no entry, the
/// stored value where it has one, an error only where that value does not
/// parse. The first half of the key is written with a two-byte length, which
/// panics past 0xFFFF bytes: `requires` keeps it within `MAX_KEY_LEN`
/// characters.
#[verifier::external_body]
pub(crate) fn pair_load(s: &MemoryStorage, a: &str, b: &str) -> (r: Result<
    Option<Option<u64>>,
    String,
>)
    requires
        fits_key(a@),
    ensures
        r is Ok ==> r->Ok_0 == lookup(pair_entries(*s), (a@, b@)),
        pairs_parse(*s) ==> r is Ok,
{
    let m: cw_storage_plus::Map<(&str, &str), Option<u64>> = cw_storage_plus::Map::new("pairs");
    m.may_load(s, (a, b)).map_err(|e| e.to_string())
}

/// Relies on `Map::save`: the value is serialized to JSON, which cannot fail
/// for an `Option<u64>` and is never empty (so `MemoryStorage::set` takes
/// it), and stored under the key. The key's first half is bounded as for
/// `pair_load`.
#[verifier::external_body]
pub(crate) fn pair_save(s: &mut MemoryStorage, a: &str, b: &str, v: Option<u64>) -> (r: Result<
    (),
    String,
>)
    requires
        fits_key(a@),
    ensures
        r is Ok,
        pair_entries(*final(s)) == pair_entries(*old(s)).insert((a@, b@), v),
        pairs_parse(*old(s)) ==> pairs_parse(*final(s)),
{
    let m: cw_storage_plus::Map<(&str, &str), Option<u64>> = cw_storage_plus::Map::new("pairs");
    m.save(s, (a, b), &v).map_err(|e| e.to_string())
}

/// Relies on `Map::remove`: the key has no entry afterwards. The key's first
/// half is bounded as for `pair_load`.
#[verifier::external_body]
pub(crate) fn pair_remove(s: &mut MemoryStorage, a: &str, b: &str)
    requires
        fits_key(a@),
    ensures
        pair_entries(*final(s)) == pair_entries(*old(s)).remove((a@, b@)),
        pairs_parse(*old(s)) ==> pairs_parse(*final(s)),
{
    let m: cw_storage_plus::Map<(&str, &str), Option<u64>> = cw_storage_plus::Map::new("pairs");
    m.remove(s, (a, b))
}

/// Relies on `Map::prefix(a).keys(.., None, None, Order::Ascending)`: the
/// second halves of the keys whose first half is `a` (the first half is
/// stored with its length, the second as raw UTF-8), each once, in ascending
/// byte order; an error only where an entry does not parse. The prefix is
/// bounded as for `pair_load`.
#[verifier::external_body]
pub(crate) fn pair_keys(s: &MemoryStorage, a: &str) -> (r: Result<Vec<String>, String>)
    requires
        fits_key(a@),
    ensures
        pairs_parse(*s) ==> r is Ok,
        r is Ok ==> ascending(r->Ok_0.deep_view()),
        r is Ok ==> forall|b: Seq<char>|
            #![trigger pair_entries(*s).contains_key((a@, b))]
            pair_entries(*s).contains_key((a@, b)) <==> r->Ok_0.deep_view().contains(b),
{
    let m: cw_storage_plus::Map<(&str, &str), Option<u64>> = cw_storage_plus::Map::new("pairs");
    m.prefix(a).keys(s, None, None, cosmwasm_std::Order::Ascending).collect::<Result<Vec<String>, _>>().map_err(|e| e.to_string())
}

/// Relies on `Map::may_load`, as for pairs; a key of one part is stored
/// as it is, with no length.
#[verifier::external_body]
pub(crate) fn count_load(s: &MemoryStorage, k: &str) -> (r: Result<Option<u32>, String>)
    ensures
        r is Ok ==> r->Ok_0 == lookup(count_entries(*s), k@),
        counts_parse(*s) ==> r is Ok,
{
    let m: cw_storage_plus::Map<&str, u32> = cw_storage_plus::Map::new("counts");
    m.may_load(s, k).map_err(|e| e.to_string())
}

/// Relies on `Map::save`, as for pairs (a `u32` always serializes).
#[verifier::external_body]
pub(crate) fn count_save(s: &mut MemoryStorage, k: &str, v: u32) -> (r: Result<(), String>)
    ensures
        r is Ok,
        count_entries(*final(s)) == count_entries(*old(s)).insert(k@, v),
        counts_parse(*old(s)) ==> counts_parse(*final(s)),
{
    let m: cw_storage_plus::Map<&str, u32> = cw_storage_plus::Map::new("counts");
    m.save(s, k, &v).map_err(|e| e.to_string())
}

/// Relies on `Map::remove`, as for pairs.
#[verifier::external_body]
pub(crate) fn count_remove(s: &mut MemoryStorage, k: &str)
    ensures
        count_entries(*final(s)) == count_entries(*old(s)).remove(k@),
        counts_parse(*old(s)) ==> counts_parse(*final(s)),
{
    let m: cw_storage_plus::Map<&str, u32> = cw_storage_plus::Map::new("counts");
    m.remove(s, k)
}

/// Relies on `Map::keys(.., None, None, Order::Ascending)`: every key, once,
/// in ascending byte order; an error only where an entry does not parse.
#[verifier::external_body]
pub(crate) fn count_keys(s: &MemoryStorage) -> (r: Result<Vec<String>, String>)
    ensures
        counts_parse(*s) ==> r is Ok,
        r is Ok ==> ascending(r->Ok_0.deep_view()),
        r is Ok ==> forall|k: Seq<char>|
            #![trigger count_entries(*s).contains_key(k)]
            count_entries(*s).contains_key(k) <==> r->Ok_0.deep_view().contains(k),
{
    let m: cw_storage_plus::Map<&str, u32> = cw_storage_plus::Map::new("counts");
    m.keys(s, None, None, cosmwasm_std::Order::Ascending).collect::<Result<Vec<String>, _>>().map_err(|e| e.to_string())
}

/// Relies on `Map::may_load`, as for counters; the stored record is a tuple.
#[verifier::external_body]
pub(crate) fn role_load(s: &MemoryStorage, k: &str) -> (r: Result<Option<AuthRoleInfo>, String>)
    ensures
        roles_parse(*s) ==> r is Ok,
        r is Ok ==> (r->Ok_0 is Some <==> role_entries(*s).contains_key(k@)),
        r matches Ok(Some(info)) ==> info.record() == role_entries(*s)[k@],
{
    let m: cw_storage_plus::Map<&str, (Option<String>, u64, String, u32)> =
        cw_storage_plus::Map::new("roles");
    match m.may_load(s, k) {
        Ok(Some((description, at, created_by, n_principals))) => Ok(Some(AuthRoleInfo {
            description,
            created_at: Timestamp { nanos: at },
            created_by,
            n_principals,
        })),
        Ok(None) => Ok(None),
        Err(e) => Err(e.to_string()),
    }
}

/// Relies on `Map::save`, as for counters; the record is stored as a tuple of
/// an optional string, a `u64`, a string and a `u32`, which always
/// serializes.
#[verifier::external_body]
pub(crate) fn role_save(s: &mut MemoryStorage, k: &str, info: &AuthRoleInfo) -> (r: Result<(), String>)
    ensures
        r is Ok,
        role_entries(*final(s)) == role_entries(*old(s)).insert(k@, info.record()),
        roles_parse(*old(s)) ==> roles_parse(*final(s)),
{
    let m: cw_storage_plus::Map<&str, (Option<String>, u64, String, u32)> =
        cw_storage_plus::Map::new("roles");
    let record = (info.description.clone(), info.created_at.nanos, info.created_by.clone(), info.n_principals);
    m.save(s, k, &record).map_err(|e| e.to_string())
}

/// Relies on `Map::remove`, as for counters.
#[verifier::external_body]
pub(crate) fn role_remove(s: &mut MemoryStorage, k: &str)
    ensures
        role_entries(*final(s)) == role_entries(*old(s)).remove(k@),
        roles_parse(*old(s)) ==> roles_parse(*final(s)),
{
    let m: cw_storage_plus::Map<&str, (Option<String>, u64, String, u32)> =
        cw_storage_plus::Map::new("roles");
    m.remove(s, k)
}

/// Relies on `Map::keys(.., None, None, Order::Ascending)`, as for counters.
#[verifier::external_body]
pub(crate) fn role_keys(s: &MemoryStorage) -> (r: Result<Vec<String>, String>)
    ensures
        roles_parse(*s) ==> r is Ok,
        r is Ok ==> ascending(r->Ok_0.deep_view()),
        r is Ok ==> forall|k: Seq<char>|
            #![trigger role_entries(*s).contains_key(k)]
            role_entries(*s).contains_key(k) <==> r->Ok_0.deep_view().contains(k),
{
    let m: cw_storage_plus::Map<&str, (Option<String>, u64, String, u32)> =
        cw_storage_plus::Map::new("roles");
    m.keys(s, None, None, cosmwasm_std::Order::Ascending).collect::<Result<Vec<String>, _>>().map_err(|e| e.to_string())
}

/// Checks that `s` may stand as the first half of a pair key.
pub(crate) fn check_key(s: &str) -> (r: Result<(), ContractError>)
    ensures
        r is Ok <==> fits_key(s@),
        r matches Err(e) ==> e is ValidationError,
{
    if chars_of(s).len() > MAX_KEY_LEN {
        Err(ContractError::ValidationError { reason: "a name or path is longer than 16383 characters".to_owned() })
    } else {
        Ok(())
    }
}

} // verus!

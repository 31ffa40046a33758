use cw_acl::acl::{init, Acl};
use cw_acl::client::{check_operator, Operator, OperatorCheck};
use cw_acl::contract::execute;
use cw_acl::error::ContractError;
use cw_acl::execute::{
    exec_allow, exec_allow_role, exec_create_role, exec_deny, exec_deny_role, exec_grant_role,
    exec_remove_role, exec_revoke_role, exec_set_operator,
};
use cw_acl::math::{add_u32, sub_u32};
use cw_acl::model::Timestamp;
use cw_acl::msg::{
    AllowMsg, AllowRoleMsg, Context, CreateRoleMsg, DenyMsg, DenyRoleMsg, ExecuteMsg,
    GrantRoleMsg, InstantiateMsg, IsAllowedParams, PathsQueryParams, ReadonlyContext, RevokeRoleMsg,
    RoleExecuteMsg, Subject, TestRequirement,
};
use cw_acl::path::{remove_non_printables, to_cannonical_path, to_cannonical_path_from_crumbs};
use cw_acl::query::{query_acl, query_paths, query_role, query_roles};
use cw_acl::resolve::{combine_verdicts, decide_level, query_is_authorized, LevelVerdict};

const SECOND: u64 = 1_000_000_000;

fn s(x: &str) -> String {
    x.to_string()
}

fn new_acl() -> Acl {
    init(&ctx_at(10), InstantiateMsg { operator: None, name: None, description: None }).unwrap()
}

fn ctx_at(secs: u64) -> Context {
    Context { block_time: Timestamp::from_nanos(secs * SECOND), sender: s("creator") }
}

fn allow(acl: &mut Acl, at: u64, principal: &str, path: &str, ttl: Option<u32>) {
    exec_allow(acl, &ctx_at(at), AllowMsg { principal: s(principal), path: s(path), ttl }).unwrap();
}

fn create_role(acl: &mut Acl, name: &str, paths: &[&str]) -> Result<(), ContractError> {
    exec_create_role(
        acl,
        &ctx_at(10),
        CreateRoleMsg {
            name: s(name),
            description: None,
            paths: Some(paths.iter().map(|p| s(p)).collect()),
        },
    )
}

fn grant(acl: &mut Acl, at: u64, principal: &str, role: &str, ttl: Option<u32>) -> Result<(), ContractError> {
    exec_grant_role(acl, &ctx_at(at), GrantRoleMsg { principal: s(principal), role: s(role), ttl })
}

fn check(acl: &Acl, at: u64, principal: &str, paths: &[&str], require: Option<TestRequirement>, raise: bool) -> Result<bool, ContractError> {
    query_is_authorized(
        acl,
        ReadonlyContext { block_time: Timestamp::from_nanos(at * SECOND) },
        IsAllowedParams {
            principal: s(principal),
            require,
            paths: paths.iter().map(|p| s(p)).collect(),
            raise: Some(raise),
        },
    )
}

fn allowed(acl: &Acl, at: u64, principal: &str, path: &str) -> bool {
    check(acl, at, principal, &[path], None, false).unwrap()
}

fn list(acl: &Acl, subject: Subject, limit: Option<u16>, cursor: Option<&str>) -> (Vec<String>, Option<String>) {
    let resp = query_paths(
        acl,
        PathsQueryParams { subject, limit, start: None, stop: None, cursor: cursor.map(s) },
    )
    .unwrap();
    (resp.paths.into_iter().map(|i| i.path).collect(), resp.cursor)
}

#[test]
fn canonical_form_of_raw_paths() {
    assert_eq!(to_cannonical_path(&s("a/b")), "/a/b");
    assert_eq!(to_cannonical_path(&s("//a b//")), "/a-b");
    assert_eq!(to_cannonical_path(&s("")), "/");
    assert_eq!(to_cannonical_path(&s("///")), "/");
    assert_eq!(to_cannonical_path(&s("/x\ty/\n")), "/xy");
    assert_eq!(to_cannonical_path(&s("\t/x")), "/x");
    assert_eq!(to_cannonical_path(&s("/a//b/")), "/a//b");
}

#[test]
fn canonicalization_is_idempotent_on_examples() {
    for raw in ["a/b", " /x/ ", "\t/x/\t", "//", "caf\u{e9}/menu", "/a b/c d/"] {
        let once = to_cannonical_path(&s(raw));
        assert_eq!(to_cannonical_path(&once), once);
    }
}

#[test]
fn path_from_crumbs_and_printables() {
    assert_eq!(to_cannonical_path_from_crumbs(&["a", "b", "c"]), "/a/b/c");
    assert_eq!(to_cannonical_path_from_crumbs(&["a"]), "/a");
    assert_eq!(to_cannonical_path_from_crumbs(&[]), "/");
    assert_eq!(remove_non_printables("a b\tc\u{e9}d~"), "abcd~");
}

#[test]
fn direct_grant_covers_descendants() {
    let mut acl = new_acl();
    allow(&mut acl, 10, "p", "/a/b", None);
    assert!(allowed(&acl, 20, "p", "/a/b/c"));
    assert!(allowed(&acl, 20, "p", "a/b"));
    assert!(!allowed(&acl, 20, "p", "/a"));
    assert!(!allowed(&acl, 20, "q", "/a/b/c"));
    assert!(!allowed(&acl, 20, "p", "/a/bc"));
}

#[test]
fn expired_direct_grant_blocks_role_at_shallower_level() {
    let mut acl = new_acl();
    create_role(&mut acl, "reader", &["/a"]).unwrap();
    grant(&mut acl, 10, "p", "reader", None).unwrap();
    allow(&mut acl, 10, "p", "/a/b", Some(5));
    assert!(allowed(&acl, 12, "p", "/a/b"));
    assert!(!allowed(&acl, 15, "p", "/a/b"));
    assert!(allowed(&acl, 15, "p", "/a"));
    assert_eq!(
        check(&acl, 15, "p", &["/a/b"], None, true),
        Err(ContractError::NotAuthorized { reason: s("p access to /a/b has expired") })
    );
}

#[test]
fn zero_ttl_grant_is_expired_at_once() {
    let mut acl = new_acl();
    allow(&mut acl, 10, "p", "/x", Some(0));
    assert!(!allowed(&acl, 10, "p", "/x"));
    assert!(!allowed(&acl, 11, "p", "/x"));
    assert_eq!(
        check(&acl, 10, "p", &["/x"], None, true),
        Err(ContractError::NotAuthorized { reason: s("p access to /x has expired") })
    );
}

#[test]
fn duplicate_role_and_missing_role() {
    let mut acl = new_acl();
    create_role(&mut acl, "admin", &[]).unwrap();
    assert_eq!(create_role(&mut acl, "admin", &[]), Err(ContractError::AlreadyExists { role: s("admin") }));
    assert_eq!(grant(&mut acl, 10, "p", "ghost", None), Err(ContractError::NotFound { role: s("ghost") }));
    assert_eq!(
        exec_revoke_role(&mut acl, &ctx_at(10), RevokeRoleMsg { principal: s("p"), role: s("ghost") }),
        Err(ContractError::NotFound { role: s("ghost") })
    );
    assert_eq!(
        exec_allow_role(&mut acl, &ctx_at(10), AllowRoleMsg { role: s("ghost"), path: s("/x") }),
        Err(ContractError::NotFound { role: s("ghost") })
    );
    assert_eq!(
        exec_deny_role(&mut acl, &ctx_at(10), DenyRoleMsg { role: s("ghost"), path: s("/x") }),
        Err(ContractError::NotFound { role: s("ghost") })
    );
}

#[test]
fn grant_then_revoke_restores_principal_count() {
    let mut acl = new_acl();
    create_role(&mut acl, "admin", &[]).unwrap();
    grant(&mut acl, 10, "q", "admin", None).unwrap();
    let before = query_role(&acl, s("admin")).unwrap().n_principals;
    assert_eq!(before, 1);
    grant(&mut acl, 10, "p", "admin", None).unwrap();
    assert_eq!(query_role(&acl, s("admin")).unwrap().n_principals, 2);
    exec_revoke_role(&mut acl, &ctx_at(10), RevokeRoleMsg { principal: s("p"), role: s("admin") }).unwrap();
    assert_eq!(query_role(&acl, s("admin")).unwrap().n_principals, before);
}

#[test]
fn revoke_below_zero_underflows() {
    let mut acl = new_acl();
    create_role(&mut acl, "admin", &[]).unwrap();
    assert_eq!(
        exec_revoke_role(&mut acl, &ctx_at(10), RevokeRoleMsg { principal: s("p"), role: s("admin") }),
        Err(ContractError::Underflow)
    );
    assert_eq!(query_role(&acl, s("admin")).unwrap().n_principals, 0);
}

#[test]
fn removed_role_grants_nothing_but_membership_stays() {
    let mut acl = new_acl();
    create_role(&mut acl, "admin", &["/ops"]).unwrap();
    grant(&mut acl, 10, "p", "admin", None).unwrap();
    assert!(allowed(&acl, 11, "p", "/ops/deploy"));
    exec_remove_role(&mut acl, &ctx_at(11), s("admin")).unwrap();
    assert!(!allowed(&acl, 12, "p", "/ops/deploy"));
    assert!(!allowed(&acl, 12, "p", "/ops"));
    assert!(matches!(query_role(&acl, s("admin")), Err(ContractError::NotFound { .. })));
    // The membership record is kept, but listings leave out the removed role.
    assert_eq!(query_roles(&acl, Some(s("p"))).unwrap().0.len(), 0);
    // The role's path is no longer known to the ACL.
    assert_eq!(list(&acl, Subject::Acl, None, None).0, Vec::<String>::new());
    // Created again, the role finds the old member in place.
    create_role(&mut acl, "admin", &["/ops"]).unwrap();
    assert!(allowed(&acl, 12, "p", "/ops"));
    assert_eq!(query_role(&acl, s("admin")).unwrap().n_principals, 0);
}

#[test]
fn role_path_listing_pages_with_cursor() {
    let mut acl = new_acl();
    create_role(&mut acl, "r", &[]).unwrap();
    exec_allow_role(&mut acl, &ctx_at(10), AllowRoleMsg { role: s("r"), path: s("/x") }).unwrap();
    exec_allow_role(&mut acl, &ctx_at(10), AllowRoleMsg { role: s("r"), path: s("/y") }).unwrap();
    let (page, cursor) = list(&acl, Subject::Role(s("r")), Some(1), None);
    assert_eq!(page, vec![s("/x")]);
    assert_eq!(cursor, Some(s("/x")));
    let (page, cursor) = list(&acl, Subject::Role(s("r")), None, Some("/x"));
    assert_eq!(page, vec![s("/y")]);
    assert_eq!(cursor, None);
    let (page, cursor) = list(&acl, Subject::Role(s("r")), Some(1), Some("/x"));
    assert_eq!(page, vec![s("/y")]);
    assert_eq!(cursor, None);
    let (page, cursor) = list(&acl, Subject::Role(s("r")), Some(1), Some("/y"));
    assert_eq!(page, Vec::<String>::new());
    assert_eq!(cursor, None);
    let (page, cursor) = list(&acl, Subject::Role(s("r")), None, None);
    assert_eq!(page, vec![s("/x"), s("/y")]);
    assert_eq!(cursor, None);
}

#[test]
fn path_listing_ranges_and_limits() {
    let mut acl = new_acl();
    for p in ["/d", "/b", "/a", "/c"] {
        allow(&mut acl, 10, "p", p, Some(7));
    }
    let resp = query_paths(
        &acl,
        PathsQueryParams {
            subject: Subject::Principal(s("p")),
            limit: None,
            start: Some(s("/b")),
            stop: Some(s("/c")),
            cursor: None,
        },
    )
    .unwrap();
    let got: Vec<(String, Option<Timestamp>)> = resp.paths.into_iter().map(|i| (i.path, i.expires_at)).collect();
    assert_eq!(
        got,
        vec![
            (s("/b"), Some(Timestamp::from_nanos(17 * SECOND))),
            (s("/c"), Some(Timestamp::from_nanos(17 * SECOND)))
        ]
    );
    assert_eq!(resp.cursor, None);
    let (page, cursor) = list(&acl, Subject::Acl, Some(0), None);
    assert_eq!(page, Vec::<String>::new());
    assert_eq!(cursor, None);
    let (page, cursor) = list(&acl, Subject::Acl, Some(3), None);
    assert_eq!(page, vec![s("/a"), s("/b"), s("/c")]);
    assert_eq!(cursor, Some(s("/c")));
    let (page, cursor) = list(&acl, Subject::Acl, Some(4), None);
    assert_eq!(page.len(), 4);
    assert_eq!(cursor, None);
    let (page, cursor) = list(&acl, Subject::Acl, Some(1), Some("/c"));
    assert_eq!(page, vec![s("/d")]);
    assert_eq!(cursor, None);
}

#[test]
fn page_size_is_capped() {
    let mut acl = new_acl();
    for i in 0..510 {
        allow(&mut acl, 10, "p", &format!("/p{:04}", i), None);
    }
    let (page, cursor) = list(&acl, Subject::Principal(s("p")), Some(600), None);
    assert_eq!(page.len(), 500);
    assert_eq!(cursor, Some(s("/p0499")));
    let (page, _) = list(&acl, Subject::Principal(s("p")), None, None);
    assert_eq!(page.len(), 100);
}

#[test]
fn any_passes_where_all_fails() {
    let mut acl = new_acl();
    allow(&mut acl, 10, "p", "/granted", None);
    assert_eq!(check(&acl, 10, "p", &["/denied", "/granted"], Some(TestRequirement::Any), false), Ok(true));
    assert_eq!(check(&acl, 10, "p", &["/denied", "/granted"], Some(TestRequirement::All), false), Ok(false));
    assert_eq!(check(&acl, 10, "p", &["/denied", "/granted"], None, false), Ok(false));
    assert_eq!(
        check(&acl, 10, "p", &["/denied", "/granted"], Some(TestRequirement::All), true),
        Err(ContractError::NotAuthorized { reason: s("p not authorized to /denied") })
    );
    assert_eq!(
        check(&acl, 10, "p", &["/nope", "other path"], Some(TestRequirement::Any), true),
        Err(ContractError::NotAuthorized {
            reason: s("p not authorized to /nope, p not authorized to /other-path")
        })
    );
    assert_eq!(check(&acl, 10, "p", &[], Some(TestRequirement::Any), false), Ok(false));
    assert_eq!(check(&acl, 10, "p", &[], None, false), Ok(false));
}

#[test]
fn expired_role_membership_is_passed_over() {
    let mut acl = new_acl();
    create_role(&mut acl, "short", &["/a/b"]).unwrap();
    create_role(&mut acl, "long", &["/a"]).unwrap();
    grant(&mut acl, 10, "p", "short", Some(1)).unwrap();
    assert!(allowed(&acl, 10, "p", "/a/b"));
    assert!(!allowed(&acl, 11, "p", "/a/b"));
    grant(&mut acl, 10, "p", "long", Some(100)).unwrap();
    assert!(allowed(&acl, 11, "p", "/a/b"));
    assert!(!allowed(&acl, 110, "p", "/a/b"));
}

#[test]
fn reference_counts_follow_grants() {
    let mut acl = new_acl();
    allow(&mut acl, 10, "p", "/x", None);
    allow(&mut acl, 10, "q", "/x", None);
    create_role(&mut acl, "r", &["/x", "/y"]).unwrap();
    assert_eq!(list(&acl, Subject::Acl, None, None).0, vec![s("/x"), s("/y")]);
    exec_deny(&mut acl, &ctx_at(10), DenyMsg { principal: s("p"), path: s("/x") }).unwrap();
    exec_deny(&mut acl, &ctx_at(10), DenyMsg { principal: s("nobody"), path: s("/x") }).unwrap();
    exec_deny_role(&mut acl, &ctx_at(10), DenyRoleMsg { role: s("r"), path: s("x/") }).unwrap();
    assert_eq!(list(&acl, Subject::Acl, None, None).0, vec![s("/x"), s("/y")]);
    assert!(!allowed(&acl, 10, "p", "/x"));
    assert!(allowed(&acl, 10, "q", "/x"));
    exec_deny(&mut acl, &ctx_at(10), DenyMsg { principal: s("q"), path: s("/x") }).unwrap();
    assert_eq!(list(&acl, Subject::Acl, None, None).0, vec![s("/y")]);
    exec_remove_role(&mut acl, &ctx_at(10), s("r")).unwrap();
    assert_eq!(list(&acl, Subject::Acl, None, None).0, Vec::<String>::new());
}

#[test]
fn regrant_replaces_expiration() {
    let mut acl = new_acl();
    allow(&mut acl, 10, "p", "/x", Some(1));
    allow(&mut acl, 10, "p", "/x", None);
    assert!(allowed(&acl, 1000, "p", "/x"));
    assert_eq!(list(&acl, Subject::Acl, None, None).0, vec![s("/x")]);
    exec_deny(&mut acl, &ctx_at(10), DenyMsg { principal: s("p"), path: s("/x") }).unwrap();
    assert_eq!(list(&acl, Subject::Acl, None, None).0, Vec::<String>::new());
}

#[test]
fn expiration_overflow_is_refused() {
    let mut acl = new_acl();
    let late = Context { block_time: Timestamp::from_nanos(u64::MAX - 5), sender: s("creator") };
    assert_eq!(
        exec_allow(&mut acl, &late, AllowMsg { principal: s("p"), path: s("/x"), ttl: Some(1) }),
        Err(ContractError::Overflow)
    );
    create_role(&mut acl, "r", &[]).unwrap();
    assert_eq!(
        exec_grant_role(&mut acl, &late, GrantRoleMsg { principal: s("p"), role: s("r"), ttl: Some(1) }),
        Err(ContractError::Overflow)
    );
    assert_eq!(query_role(&acl, s("r")).unwrap().n_principals, 0);
    assert_eq!(list(&acl, Subject::Acl, None, None).0, Vec::<String>::new());
}

#[test]
fn new_acl_validates_lengths() {
    let at_zero = Context { block_time: Timestamp::from_nanos(0), sender: s("c") };
    let long_name = "n".repeat(101);
    assert!(matches!(
        init(&at_zero, InstantiateMsg { operator: None, name: Some(long_name), description: None }),
        Err(ContractError::ValidationError { .. })
    ));
    let long_desc = "d".repeat(1001);
    assert!(matches!(
        init(&at_zero, InstantiateMsg { operator: None, name: None, description: Some(long_desc) }),
        Err(ContractError::ValidationError { .. })
    ));
    let at_five = Context { block_time: Timestamp::from_nanos(5), sender: s("c") };
    let msg = InstantiateMsg { operator: None, name: Some("n".repeat(100)), description: Some(s("about")) };
    let acl = init(&at_five, msg).unwrap();
    let meta = query_acl(&acl);
    let with_op = InstantiateMsg { operator: Some(Operator::Acl(s("parent"))), name: None, description: None };
    assert_eq!(query_acl(&init(&at_five, with_op).unwrap()).operator, Operator::Acl(s("parent")));
    assert_eq!(meta.operator, Operator::Address(s("c")));
    assert_eq!(meta.created_by, s("c"));
    assert_eq!(meta.created_at, Timestamp::from_nanos(5));
    assert_eq!(meta.name, Some("n".repeat(100)));
    assert_eq!(meta.description, Some(s("about")));
}

#[test]
fn roles_listing() {
    let mut acl = new_acl();
    create_role(&mut acl, "b", &[]).unwrap();
    exec_create_role(&mut acl, &ctx_at(20), CreateRoleMsg { name: s("a"), description: Some(s("first")), paths: None }).unwrap();
    grant(&mut acl, 30, "p", "b", Some(4)).unwrap();
    let all = query_roles(&acl, None).unwrap().0;
    let names: Vec<String> = all.iter().map(|r| r.name.clone()).collect();
    assert_eq!(names, vec![s("a"), s("b")]);
    assert_eq!(all[0].description, Some(s("first")));
    assert_eq!(all[0].created_at, Timestamp::from_nanos(20 * SECOND));
    assert_eq!(all[1].n_principals, 1);
    assert_eq!(all[1].expires_at, None);
    let mine = query_roles(&acl, Some(s("p"))).unwrap().0;
    assert_eq!(mine.len(), 1);
    assert_eq!(mine[0].name, s("b"));
    assert_eq!(mine[0].expires_at, Some(Timestamp::from_nanos(34 * SECOND)));
    assert_eq!(query_roles(&acl, Some(s("nobody"))).unwrap().0.len(), 0);
}

#[test]
fn operator_checks() {
    assert_eq!(check_operator(&Operator::Address(s("op")), &s("op"), &s("me")), OperatorCheck::Pass);
    assert_eq!(
        check_operator(&Operator::Address(s("op")), &s("eve"), &s("me")),
        OperatorCheck::Fail { reason: s("eve is not the contract operator") }
    );
    assert_eq!(
        check_operator(&Operator::Acl(s("parent")), &s("eve"), &s("me")),
        OperatorCheck::Delegate {
            acl: s("parent"),
            params: IsAllowedParams {
                principal: s("eve"),
                require: Some(TestRequirement::All),
                paths: vec![s("/acls/me")],
                raise: Some(true),
            },
        }
    );
}

#[test]
fn set_operator_and_dispatch() {
    let mut acl = new_acl();
    let me = s("me");
    execute(&mut acl, &ctx_at(10), &me, false, ExecuteMsg::Allow(AllowMsg { principal: s("p"), path: s("/z"), ttl: None })).unwrap();
    assert!(allowed(&acl, 10, "p", "/z"));
    let stranger = Context { block_time: Timestamp::from_nanos(10 * SECOND), sender: s("eve") };
    assert_eq!(
        execute(&mut acl, &stranger, &me, true, ExecuteMsg::Deny(DenyMsg { principal: s("p"), path: s("/z") })),
        Err(ContractError::NotAuthorized { reason: s("eve is not the contract operator") })
    );
    assert!(allowed(&acl, 10, "p", "/z"));
    let old = exec_set_operator(&mut acl, &ctx_at(10), Operator::Acl(s("parent")));
    assert_eq!(old, Operator::Address(s("creator")));
    assert_eq!(query_acl(&acl).operator, Operator::Acl(s("parent")));
    let create = ExecuteMsg::Role(RoleExecuteMsg::Create(CreateRoleMsg { name: s("r"), description: None, paths: None }));
    assert_eq!(
        execute(&mut acl, &ctx_at(10), &me, false, create.clone()),
        Err(ContractError::NotAuthorized { reason: s("creator is not allowed by the operator ACL") })
    );
    execute(&mut acl, &ctx_at(10), &me, true, create.clone()).unwrap();
    assert_eq!(
        execute(&mut acl, &ctx_at(10), &me, true, create),
        Err(ContractError::AlreadyExists { role: s("r") })
    );
    execute(&mut acl, &ctx_at(10), &me, true, ExecuteMsg::Deny(DenyMsg { principal: s("p"), path: s("/z") })).unwrap();
    assert!(!allowed(&acl, 10, "p", "/z"));
    execute(&mut acl, &ctx_at(10), &me, true, ExecuteMsg::SetOperator(Operator::Address(s("x")))).unwrap();
    assert_eq!(query_acl(&acl).operator, Operator::Address(s("x")));
}

#[test]
fn overlong_keys_are_refused() {
    let mut acl = new_acl();
    let long = "p".repeat(16384);
    let edge = "p".repeat(16383);
    assert!(matches!(
        exec_allow(&mut acl, &ctx_at(10), AllowMsg { principal: long.clone(), path: s("/x"), ttl: None }),
        Err(ContractError::ValidationError { .. })
    ));
    allow(&mut acl, 10, &edge, "/x", None);
    assert!(allowed(&acl, 10, &edge, "/x"));
    assert!(matches!(check(&acl, 10, &long, &["/x"], None, false), Err(ContractError::ValidationError { .. })));
    let long_path = format!("/{}", "q".repeat(16383));
    assert!(matches!(check(&acl, 10, "p", &[long_path.as_str()], None, false), Err(ContractError::ValidationError { .. })));
    assert!(matches!(create_role(&mut acl, &long, &[]), Err(ContractError::ValidationError { .. })));
    assert!(matches!(create_role(&mut acl, "r", &["/ok", long_path.as_str()]), Err(ContractError::ValidationError { .. })));
    assert!(matches!(query_role(&acl, s("r")), Err(ContractError::NotFound { .. })));
    assert!(matches!(query_roles(&acl, Some(long.clone())), Err(ContractError::ValidationError { .. })));
    let resp = query_paths(
        &acl,
        PathsQueryParams { subject: Subject::Principal(long), limit: None, start: None, stop: None, cursor: None },
    );
    assert!(matches!(resp, Err(ContractError::ValidationError { .. })));
}

#[test]
fn timestamps() {
    assert_eq!(Timestamp::from_seconds(3), Some(Timestamp::from_nanos(3 * SECOND)));
    assert_eq!(Timestamp::from_seconds(u64::MAX), None);
    assert_eq!(Timestamp::from_nanos(5).plus_seconds(2), Some(Timestamp::from_nanos(5 + 2 * SECOND)));
    assert_eq!(Timestamp::from_nanos(u64::MAX).plus_seconds(1), None);
}

#[test]
fn root_path_is_its_own_level() {
    let mut acl = new_acl();
    allow(&mut acl, 10, "p", "/", None);
    assert!(allowed(&acl, 10, "p", "/"));
    assert!(!allowed(&acl, 10, "p", "/a"));
}

#[test]
fn level_decisions() {
    let p = s("p");
    let level = s("/a");
    assert_eq!(decide_level(&p, &level, Some(None), false, 7), LevelVerdict::Allowed);
    assert_eq!(decide_level(&p, &level, Some(Some(8)), false, 7), LevelVerdict::Allowed);
    assert_eq!(
        decide_level(&p, &level, Some(Some(7)), true, 7),
        LevelVerdict::Refused { reason: s("p access to /a has expired") }
    );
    assert_eq!(decide_level(&p, &level, None, true, 7), LevelVerdict::Allowed);
    assert_eq!(decide_level(&p, &level, None, false, 7), LevelVerdict::Undecided);
}

#[test]
fn verdicts_combine() {
    let vs = vec![Some(s("no a")), None, Some(s("no c"))];
    assert_eq!(combine_verdicts(&vs, TestRequirement::Any, true), Ok(true));
    assert_eq!(combine_verdicts(&vs, TestRequirement::All, false), Ok(false));
    assert_eq!(
        combine_verdicts(&vs, TestRequirement::All, true),
        Err(ContractError::NotAuthorized { reason: s("no a") })
    );
    let refused = vec![Some(s("no a")), Some(s("no b")), Some(s("no c"))];
    assert_eq!(combine_verdicts(&refused, TestRequirement::Any, false), Ok(false));
    assert_eq!(
        combine_verdicts(&refused, TestRequirement::Any, true),
        Err(ContractError::NotAuthorized { reason: s("no a, no b, no c") })
    );
    assert_eq!(combine_verdicts(&vec![None, None], TestRequirement::All, true), Ok(true));
    assert_eq!(
        combine_verdicts(&vec![], TestRequirement::All, true),
        Err(ContractError::NotAuthorized { reason: s("") })
    );
}

#[test]
fn checked_counters() {
    assert_eq!(add_u32(2, 3), Ok(5));
    assert_eq!(add_u32(u32::MAX, 1), Err(ContractError::Overflow));
    assert_eq!(sub_u32(3, 2), Ok(1));
    assert_eq!(sub_u32(0, 1), Err(ContractError::Underflow));
}

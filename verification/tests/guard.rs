use newsroom::auth::{
    admin_from_identity, admin_guard, is_listed, parse_admins, Identity, IdTokenError,
    VerificationError,
};

fn admins() -> Vec<String> {
    vec![String::from("alice-sub"), String::from("bob-sub")]
}

fn identity(sub: &str) -> Identity {
    Identity { sub: String::from(sub), email: None }
}

#[test]
fn guard_rejects_missing_header() {
    let r = admin_guard(None, &admins());
    assert!(matches!(r, Err(IdTokenError::Missing)));
}

#[test]
fn guard_rejects_failed_verification() {
    let r = admin_guard(Some(Err(VerificationError::Invalid)), &admins());
    assert!(matches!(r, Err(IdTokenError::Invalid)));
}

#[test]
fn guard_rejects_unlisted_subject() {
    let r = admin_guard(Some(Ok(identity("mallory-sub"))), &admins());
    assert!(matches!(r, Err(IdTokenError::Invalid)));
}

#[test]
fn guard_accepts_listed_subject() {
    let r = admin_guard(Some(Ok(identity("bob-sub"))), &admins());
    let admin = r.expect("listed subject must be authorized");
    assert_eq!(admin.0, "bob-sub");
}

#[test]
fn identity_check_is_exact() {
    let list = admins();
    let ok = admin_from_identity(Ok(identity("alice-sub")), &list);
    assert_eq!(ok.expect("listed").0, "alice-sub");
    let bad = admin_from_identity(Ok(identity("alice-sub2")), &list);
    assert!(matches!(bad, Err(IdTokenError::Invalid)));
    let err = admin_from_identity(Err(VerificationError::Invalid), &list);
    assert!(matches!(err, Err(IdTokenError::Invalid)));
}

#[test]
fn parse_admins_splits_on_commas() {
    let parsed = parse_admins(&String::from("alice-sub,bob-sub,carol-sub"));
    assert_eq!(parsed, vec!["alice-sub", "bob-sub", "carol-sub"]);
}

#[test]
fn parse_admins_keeps_empty_segments() {
    assert_eq!(parse_admins(&String::from("")), vec![""]);
    assert_eq!(parse_admins(&String::from("a,,b")), vec!["a", "", "b"]);
    assert_eq!(parse_admins(&String::from("a,")), vec!["a", ""]);
    assert_eq!(parse_admins(&String::from(",a")), vec!["", "a"]);
}

#[test]
fn listing_membership() {
    let list = admins();
    assert!(is_listed(&list, &String::from("alice-sub")));
    assert!(!is_listed(&list, &String::from("alice")));
    assert!(!is_listed(&list, &String::from("")));
}

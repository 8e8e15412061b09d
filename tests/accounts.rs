use campus_ledger::accounts::{judge_login, Accounts};
use campus_ledger::error::LedgerError;

fn s(text: &str) -> String {
    text.to_string()
}

fn sample() -> Accounts {
    let mut accounts = Accounts::new(4);
    accounts
        .register(&s("ana"), &s("s3cret"), &s("student"), &s("north"), &s("ana@x.edu"), &s("Ana A"))
        .unwrap();
    accounts
}

#[test]
fn login_with_the_right_password_returns_the_account() {
    let accounts = sample();
    let a = accounts.login(&s("ana"), &s("s3cret")).unwrap();
    assert_eq!(a.username, "ana");
    assert_eq!(a.role, "student");
    assert_eq!(a.tenant, "north");
    assert_eq!(a.email, "ana@x.edu");
    assert_eq!(a.full_name, "Ana A");
    assert_ne!(a.password_hash, "s3cret");
    assert!(a.password_hash.starts_with("$2b$04$"));
}

#[test]
fn login_with_a_wrong_password_is_refused() {
    let accounts = sample();
    assert!(matches!(accounts.login(&s("ana"), &s("guess")), Err(LedgerError::AuthRejected)));
}

#[test]
fn login_of_an_unknown_user_is_refused() {
    let accounts = sample();
    assert!(matches!(accounts.login(&s("bob"), &s("s3cret")), Err(LedgerError::AuthRejected)));
}

#[test]
fn a_username_is_registered_once() {
    let mut accounts = sample();
    let again =
        accounts.register(&s("ana"), &s("other"), &s("admin"), &s("south"), &s("a@y"), &s("A"));
    assert_eq!(again, Err(LedgerError::Validation));
    assert!(accounts.login(&s("ana"), &s("s3cret")).is_ok());
    assert!(matches!(accounts.login(&s("ana"), &s("other")), Err(LedgerError::AuthRejected)));
}

#[test]
fn a_failed_hashing_is_reported_as_store_unavailable() {
    let mut accounts = Accounts::new(2);
    let r = accounts.register(&s("eve"), &s("pw"), &s("admin"), &s("north"), &s("e@x"), &s("Eve"));
    assert_eq!(r, Err(LedgerError::StoreUnavailable));
    assert!(matches!(accounts.login(&s("eve"), &s("pw")), Err(LedgerError::AuthRejected)));
}

#[test]
fn login_verdicts() {
    assert_eq!(judge_login(Some(true)), Ok(()));
    assert_eq!(judge_login(Some(false)), Err(LedgerError::AuthRejected));
    assert_eq!(judge_login(None), Err(LedgerError::Validation));
}

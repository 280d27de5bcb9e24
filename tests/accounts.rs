use als_api::account::{check_password, check_token, create_account, fetch_details, user_id_text, Account, SignIn};
use als_api::claims::Claims;
use als_api::error::AccountError;
use als_api::password::{hash_secret, verify_secret};
use als_api::store::{AccountStore, SessionStore};

fn account(username: &str, password: &str) -> Account {
    Account {
        first_name: "Ada".to_string(),
        last_name: "Lovelace".to_string(),
        username: username.to_string(),
        password: password.to_string(),
    }
}

fn sign_in(username: &str, password: &str) -> SignIn {
    SignIn { username: username.to_string(), password: password.to_string() }
}

#[test]
fn hash_is_not_the_secret_and_verifies() {
    let h = hash_secret(b"hunter2").unwrap();
    assert!(h.starts_with("$argon2id$"));
    assert!(!h.contains("hunter2"));
    assert_eq!(verify_secret(b"hunter2", &h), Ok(true));
    assert_eq!(verify_secret(b"hunter3", &h), Ok(false));
}

#[test]
fn two_hashes_of_one_secret_differ() {
    let a = hash_secret(b"same").unwrap();
    let b = hash_secret(b"same").unwrap();
    assert_ne!(a, b);
}

#[test]
fn malformed_record_is_a_hashing_error() {
    assert!(matches!(verify_secret(b"x", "not a hash"), Err(AccountError::Hashing(_))));
}

#[test]
fn create_account_numbers_from_one_and_refuses_duplicates() {
    let mut accounts = AccountStore::new();
    assert_eq!(create_account(&mut accounts, account("alice", "secret123")), Ok(()));
    assert_eq!(accounts.len(), 1);
    let rec = accounts.get(0);
    assert_eq!(rec.id, 1);
    assert_eq!(rec.username, "alice");
    assert_ne!(rec.password_hash, "secret123");
    assert!(matches!(create_account(&mut accounts, account("alice", "other")), Err(AccountError::Database(_))));
    assert_eq!(accounts.len(), 1);
}

#[test]
fn wrong_password_opens_no_session() {
    let mut accounts = AccountStore::new();
    let mut sessions = SessionStore::new();
    create_account(&mut accounts, account("alice", "secret123")).unwrap();
    let r = check_password(&accounts, &mut sessions, sign_in("alice", "wrong"));
    assert!(matches!(r, Err(AccountError::Authentication(_))));
    assert_eq!(sessions.len(), 0);
}

#[test]
fn unknown_user_is_an_authentication_error() {
    let accounts = AccountStore::new();
    let mut sessions = SessionStore::new();
    let r = check_password(&accounts, &mut sessions, sign_in("nobody", "x"));
    assert!(matches!(r, Err(AccountError::Authentication(_))));
    assert_eq!(sessions.len(), 0);
}

#[test]
fn login_opens_a_session_whose_credential_redeems() {
    let mut accounts = AccountStore::new();
    let mut sessions = SessionStore::new();
    create_account(&mut accounts, account("alice", "secret123")).unwrap();
    let cred = check_password(&accounts, &mut sessions, sign_in("alice", "secret123")).unwrap();
    assert_eq!(sessions.len(), 1);
    assert_eq!(sessions.get(0).user_id, 1);
    assert_eq!(sessions.get(0).id, 1);
    assert_eq!(check_token(&sessions, cred), Ok("1".to_string()));
}

#[test]
fn unissued_credential_is_refused() {
    let mut accounts = AccountStore::new();
    let mut sessions = SessionStore::new();
    create_account(&mut accounts, account("alice", "secret123")).unwrap();
    check_password(&accounts, &mut sessions, sign_in("alice", "secret123")).unwrap();
    assert!(matches!(check_token(&sessions, [7u8; 32]), Err(AccountError::Authentication(_))));
}

#[test]
fn empty_session_store_refuses_every_credential() {
    let sessions = SessionStore::new();
    assert!(matches!(check_token(&sessions, [0u8; 32]), Err(AccountError::Authentication(_))));
}

#[test]
fn user_id_text_is_decimal() {
    assert_eq!(user_id_text(0), "0");
    assert_eq!(user_id_text(42), "42");
    assert_eq!(user_id_text(-42), "-42");
    assert_eq!(user_id_text(i32::MAX), "2147483647");
    assert_eq!(user_id_text(i32::MIN), "-2147483648");
}

#[test]
fn fetch_details_gives_names_only() {
    let mut accounts = AccountStore::new();
    create_account(&mut accounts, account("alice", "secret123")).unwrap();
    let claims = Claims {
        sub: "alice".to_string(),
        uid: 1,
        exp: 10,
        iat: 1,
        iss: "i".to_string(),
        aud: "a".to_string(),
    };
    let a = fetch_details(&accounts, &claims).unwrap();
    assert_eq!(a.first_name, "Ada");
    assert_eq!(a.last_name, "Lovelace");
    assert_eq!(a.username, "none");
    assert_eq!(a.password, "none");
    let missing = Claims { uid: 2, ..claims };
    assert!(matches!(fetch_details(&accounts, &missing), Err(AccountError::Database(_))));
}

#[test]
fn stored_password_checks() {
    let h = hash_secret(b"secret123").unwrap();
    assert_eq!(als_api::account::check_stored_password("secret123", Some(&h)), Ok(()));
    assert!(matches!(als_api::account::check_stored_password("nope", Some(&h)), Err(AccountError::Authentication(_))));
    assert!(matches!(als_api::account::check_stored_password("secret123", None), Err(AccountError::Authentication(_))));
    assert!(matches!(als_api::account::check_stored_password("x", Some("not a hash")), Err(AccountError::Hashing(_))));
}

#[test]
fn open_session_stores_a_hash_of_the_credential() {
    let mut sessions = SessionStore::new();
    let credential = als_api::account::draw_credential().unwrap();
    assert_eq!(als_api::account::open_session(&mut sessions, 5, credential), Ok(()));
    assert_eq!(sessions.len(), 1);
    assert_eq!(sessions.get(0).user_id, 5);
    assert_eq!(verify_secret(&credential, &sessions.get(0).refresh_token_hash), Ok(true));
    assert_eq!(check_token(&sessions, credential), Ok("5".to_string()));
}

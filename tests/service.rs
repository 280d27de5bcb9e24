use als_api::difficulty::Difficulty;
use als_api::error::AccountError;
use als_api::service::{AuthService, AuthenticatedUser};
use als_api::structs::connection_string;

#[test]
fn alice_scenario() {
    let mut s = AuthService::new("signing-key".to_string());
    s.register("alice", "secret123", "Alice", "Liddell").unwrap();
    let c = s.login("alice", "secret123").unwrap();
    let now: usize = 1_700_000_000;
    let grant = s.refresh_at(&c, now).unwrap();
    assert_eq!(grant.user_id, 1);
    let claims = s.authorize_at(&grant.access_token, now).unwrap();
    assert_eq!(claims.sub, "alice");
    assert_eq!(claims.uid, 1);
    assert_eq!(claims.iat, now);
    assert_eq!(claims.exp, now + 900);
    let late = s.authorize_at(&grant.access_token, claims.exp + 1);
    assert!(matches!(late, Err(AccountError::Authentication(_))));
}

#[test]
fn second_registration_of_a_username_fails() {
    let mut s = AuthService::new("k".to_string());
    assert_eq!(s.register("bob", "pw", "Bob", "B"), Ok(()));
    assert!(matches!(s.register("bob", "other", "Rob", "R"), Err(AccountError::Database(_))));
    assert!(s.login("bob", "pw").is_ok());
}

#[test]
fn two_logins_give_two_working_credentials() {
    let mut s = AuthService::new("k".to_string());
    s.register("carol", "pw", "Carol", "C").unwrap();
    let c1 = s.login("carol", "pw").unwrap();
    let c2 = s.login("carol", "pw").unwrap();
    assert_ne!(c1, c2);
    assert_eq!(s.refresh_at(&c1, 100).unwrap().user_id, 1);
    assert_eq!(s.refresh_at(&c2, 100).unwrap().user_id, 1);
    assert_eq!(s.refresh_at(&c1, 200).unwrap().user_id, 1);
}

#[test]
fn refresh_with_a_random_credential_fails() {
    let mut s = AuthService::new("k".to_string());
    s.register("dave", "pw", "Dave", "D").unwrap();
    s.login("dave", "pw").unwrap();
    assert!(matches!(s.refresh_at(&[42u8; 32], 100), Err(AccountError::Authentication(_))));
}

#[test]
fn login_with_wrong_password_fails() {
    let mut s = AuthService::new("k".to_string());
    s.register("erin", "pw", "Erin", "E").unwrap();
    assert!(matches!(s.login("erin", "nope"), Err(AccountError::Authentication(_))));
    assert!(matches!(s.login("frank", "pw"), Err(AccountError::Authentication(_))));
}

#[test]
fn second_account_gets_id_two() {
    let mut s = AuthService::new("k".to_string());
    s.register("amy", "first-pass", "A", "One").unwrap();
    s.register("ann", "second-pass", "A", "Two").unwrap();
    let c = s.login("ann", "second-pass").unwrap();
    let g = s.refresh_at(&c, 10).unwrap();
    assert_eq!(g.user_id, 2);
    let claims = s.authorize_at(&g.access_token, 10).unwrap();
    assert_eq!(claims.sub, "ann");
}

#[test]
fn refresh_and_authorize_with_the_clock() {
    let mut s = AuthService::new("k".to_string());
    s.register("gina", "pw", "Gina", "G").unwrap();
    let c = s.login("gina", "pw").unwrap();
    let g = s.refresh(&c).unwrap();
    let claims = s.authorize(&g.access_token).unwrap();
    assert_eq!(claims.uid, 1);
    assert!(matches!(s.authorize("nonsense"), Err(AccountError::InvalidToken(_))));
}

#[test]
fn bearer_user_carries_claims() {
    let t = als_api::jwt::issue_access_token_at("hal", 9, "k", 50).unwrap();
    let u = AuthenticatedUser::from_bearer(&t, "k", 60).unwrap();
    assert_eq!(u.claims.sub, "hal");
    assert!(AuthenticatedUser::from_bearer(&t, "k", 950).is_err());
}

#[test]
fn difficulty_names() {
    assert_eq!(Difficulty::Easy.to_string(), "easy");
    assert_eq!(Difficulty::Medium.as_str(), "medium");
    assert_eq!(Difficulty::Hard.to_string(), "hard");
}

#[test]
fn connection_string_layout() {
    assert_eq!(
        connection_string("10.0.0.1", "u", "d", "p"),
        "host=10.0.0.1 user=u db=d password=p"
    );
}

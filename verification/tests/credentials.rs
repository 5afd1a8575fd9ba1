use shift_scheduler::auth::{auth, AuthError, CredentialService, TOKEN_LIFETIME_SECONDS};
use shift_scheduler::errors::ApiError;

const NOW: u64 = 1704099600;
const PRINCIPAL: u128 = 0x1234_5678_9abc_def0_1111_2222_3333_4444;

fn service() -> CredentialService {
    CredentialService::new(b"test-signing-secret".to_vec())
}

#[test]
fn future_expiry_accepted() {
    let svc = service();
    let token = svc.issue(PRINCIPAL, NOW);
    let user = svc.validate(&token, NOW + 1).unwrap();
    assert_eq!(user.id, PRINCIPAL);
}

#[test]
fn past_expiry_rejected() {
    let svc = service();
    let token = svc.issue(PRINCIPAL, NOW);
    assert_eq!(
        svc.validate(&token, NOW + TOKEN_LIFETIME_SECONDS),
        Err(AuthError::Expired)
    );
    assert_eq!(
        svc.validate(&token, NOW + TOKEN_LIFETIME_SECONDS + 5000),
        Err(AuthError::Expired)
    );
}

#[test]
fn tampered_token_is_malformed() {
    let svc = service();
    let mut token = svc.issue(PRINCIPAL, NOW);
    token.push('x');
    assert_eq!(svc.validate(&token, NOW + 1), Err(AuthError::Malformed));
    assert_eq!(svc.validate("not-a-token", NOW + 1), Err(AuthError::Malformed));
}

#[test]
fn wrong_secret_is_malformed() {
    let svc = service();
    let other = CredentialService::new(b"another-secret".to_vec());
    let token = svc.issue(PRINCIPAL, NOW);
    assert_eq!(other.validate(&token, NOW + 1), Err(AuthError::Malformed));
}

#[test]
fn issue_is_deterministic() {
    let svc = service();
    let t1 = svc.issue(PRINCIPAL, NOW);
    let t2 = svc.issue(PRINCIPAL, NOW);
    assert_eq!(t1, t2);
}

#[test]
fn guard_missing_header_is_unauthenticated() {
    let svc = service();
    assert_eq!(auth(&svc, None, NOW), Err(ApiError::Unauthenticated));
}

#[test]
fn guard_never_leaks_failure_kind() {
    // Expired and malformed credentials surface identically at the guard.
    let svc = service();
    let token = svc.issue(PRINCIPAL, NOW);
    assert_eq!(
        auth(&svc, Some(&token), NOW + TOKEN_LIFETIME_SECONDS),
        Err(ApiError::Unauthenticated)
    );
    assert_eq!(auth(&svc, Some("junk"), NOW), Err(ApiError::Unauthenticated));
}

#[test]
fn guard_accepts_valid_credential() {
    let svc = service();
    let token = svc.issue(PRINCIPAL, NOW);
    let user = auth(&svc, Some(&token), NOW + 10).unwrap();
    assert_eq!(user.id, PRINCIPAL);
}

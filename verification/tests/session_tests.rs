use vb_manager::session::default_admin_password;
use vb_manager::session::{after_wrong_password, FailedLoginOutcome};
use vb_manager::session::{after_password_check, PasswordStep};
use vb_manager::session::{
    after_failed_attempt, after_lookup, failed_login_redirect, forward_to_login, logout_page,
    ApiErrorType, FailedLoginAction, LoginRedirect, LoginStep, LookupDecision,
};
use vb_manager::session::{
    after_reset_lookup, after_token_check, check_new_passwords, confirmation_url,
    error_context_key, pw_reset_error_location, reset_mail_text, reset_request_location,
    reset_token_valid_until, PwResetError, PwResetStep,
};
use vb_manager::session::{
    check_password, confirm_reset, hash_password, new_reset_token, ResetOutcome, RESET_TOKEN_LENGTH,
};

#[test]
fn unauthenticated_requests_are_sent_to_login() {
    assert_eq!(forward_to_login("/api/projects"), Ok("/login".to_string()));
    assert_eq!(forward_to_login("/projects"), Ok("/login".to_string()));
    assert_eq!(forward_to_login("/api"), Ok("/login".to_string()));
}

#[test]
fn logout_removes_the_session() {
    let mut sessions = vec!["a".to_string(), "b".to_string(), "a".to_string()];
    assert_eq!(logout_page(&mut sessions, "a"), "/login");
    assert_eq!(sessions, vec!["b".to_string()]);
}

#[test]
fn lookup_decisions() {
    assert_eq!(
        after_lookup(false, None, 0, true),
        LookupDecision { clear_lockout: false, next: LoginStep::Finish(LoginRedirect::Invalid) }
    );
    assert_eq!(
        after_lookup(true, Some(100), 50, true),
        LookupDecision { clear_lockout: false, next: LoginStep::Finish(LoginRedirect::TooManyAttempts) }
    );
    assert_eq!(
        after_lookup(true, Some(10), 50, true),
        LookupDecision { clear_lockout: true, next: LoginStep::CheckPassword }
    );
    assert_eq!(
        after_lookup(true, Some(50), 50, false),
        LookupDecision { clear_lockout: true, next: LoginStep::Finish(LoginRedirect::Invalid) }
    );
    assert_eq!(
        after_lookup(true, None, 50, true),
        LookupDecision { clear_lockout: false, next: LoginStep::CheckPassword }
    );
}

#[test]
fn failed_attempts_lock_at_the_limit_and_fail_closed() {
    assert_eq!(after_failed_attempt(Some(5), 5), FailedLoginAction::Lock);
    assert_eq!(after_failed_attempt(Some(4), 5), FailedLoginAction::Reject);
    assert_eq!(after_failed_attempt(None, 5), FailedLoginAction::Lock);
    assert_eq!(failed_login_redirect(FailedLoginAction::Lock), LoginRedirect::TooManyAttempts);
    assert_eq!(failed_login_redirect(FailedLoginAction::Reject), LoginRedirect::Invalid);
}

#[test]
fn redirect_locations() {
    assert_eq!(LoginRedirect::Home.location(), "/");
    assert_eq!(LoginRedirect::Invalid.location(), "/login?error=invalid");
    assert_eq!(LoginRedirect::TooManyAttempts.location(), "/login?error=too-many-attempts");
}

#[test]
fn pw_reset_rejects_different_passwords() {
    assert_eq!(check_new_passwords("secret", "secret"), None);
    assert_eq!(check_new_passwords("secret", "Secret"), Some(PwResetError::PasswordsDontMatch));
    assert_eq!(
        pw_reset_error_location("tok123", PwResetError::PasswordsDontMatch),
        "/pw-reset-confirm?token=tok123&error=pw-dont-match"
    );
}

#[test]
fn pw_reset_lookup_decisions() {
    assert_eq!(
        after_reset_lookup(false, Some(100), 50, true),
        PwResetStep::Reject(PwResetError::EmailInvalid)
    );
    assert_eq!(after_reset_lookup(true, Some(100), 50, true), PwResetStep::VerifyToken);
    assert_eq!(after_reset_lookup(true, Some(100), 100, true), PwResetStep::VerifyToken);
    assert_eq!(
        after_reset_lookup(true, Some(99), 100, true),
        PwResetStep::Reject(PwResetError::InvalidToken)
    );
    assert_eq!(
        after_reset_lookup(true, Some(100), 50, false),
        PwResetStep::Reject(PwResetError::InvalidToken)
    );
    assert_eq!(
        after_reset_lookup(true, None, 50, true),
        PwResetStep::Reject(PwResetError::InvalidToken)
    );
    assert_eq!(
        pw_reset_error_location("t", PwResetError::EmailInvalid),
        "/pw-reset-confirm?token=t&error=email-invalid"
    );
}

#[test]
fn pw_reset_token_check_redirects() {
    assert_eq!(after_token_check("abc", true), "/login?error=pw-reset-success");
    assert_eq!(after_token_check("abc", false), "/pw-reset-confirm?token=abc&error=invalid-token");
}

#[test]
fn pw_reset_request_texts() {
    assert_eq!(reset_token_valid_until(1_000), 4_600);
    assert_eq!(
        confirmation_url("https://books.example", "XYZ"),
        "https://books.example/pw-reset-confirm?token=XYZ"
    );
    assert_eq!(
        reset_mail_text("Ada", "Manager", "https://x/y"),
        "Dear Ada,\n someone requested to reset your Manager password. If this was you, visit https://x/y and enter a new password."
    );
    assert_eq!(reset_request_location(), "/login?error=pw-reset");
    assert_eq!(error_context_key("invalid"), "error_invalid");
}

#[test]
fn generate_hash() {
    let hash = hash_password("123456").unwrap();
    println!("{}", hash);
    assert!(hash.starts_with("$argon2id$"));
    assert_eq!(check_password("123456", &hash), Some(true));
}

#[test]
fn passwords_are_checked_against_their_hash() {
    let hash = hash_password("correct horse").unwrap();
    assert_eq!(check_password("correct horse", &hash), Some(true));
    assert_eq!(check_password("correct horsE", &hash), Some(false));
    assert_eq!(check_password("correct horse", "not a hash"), None);
    // a fresh salt each time
    let again = hash_password("correct horse").unwrap();
    assert_ne!(hash, again);
    assert_eq!(check_password("correct horse", &again), Some(true));
}

#[test]
fn reset_tokens_are_random_letters_and_digits_with_their_hash() {
    let (token, hash) = new_reset_token();
    assert_eq!(token.len(), RESET_TOKEN_LENGTH);
    assert!(token.chars().all(|c| c.is_ascii_alphanumeric()));
    let hash = hash.unwrap();
    assert_eq!(check_password(&token, &hash), Some(true));
    let (other, _) = new_reset_token();
    assert_ne!(token, other);
}

#[test]
fn reset_confirmation_needs_the_token() {
    let (token, hash) = new_reset_token();
    let hash = hash.unwrap();
    match confirm_reset(&token, &hash, "new secret") {
        ResetOutcome::Reset { password_hash } => {
            assert_eq!(check_password("new secret", &password_hash), Some(true));
            assert_eq!(check_password(&token, &password_hash), Some(false));
        }
        other => panic!("unexpected outcome {:?}", other),
    }
    assert_eq!(confirm_reset("wrong token", &hash, "new secret"), ResetOutcome::InvalidToken);
    assert_eq!(confirm_reset(&token, "garbage", "new secret"), ResetOutcome::InvalidToken);
}

#[test]
fn matching_password_signs_in_and_clears_lockout() {
    assert_eq!(
        after_password_check(true),
        PasswordStep::SignIn { clear_lockout: true, location: "/".to_string() }
    );
    assert_eq!(after_password_check(false), PasswordStep::RecordFailedAttempt);
}

#[test]
fn reaching_the_limit_locks_until_the_end_of_the_window() {
    let locked = after_wrong_password(Some(5), 5, 1_000, 15);
    assert_eq!(locked, FailedLoginOutcome { lock_until: Some(1_000 + 15 * 60), redirect: LoginRedirect::TooManyAttempts });
    let uncounted = after_wrong_password(None, 5, 0, 1);
    assert_eq!(uncounted.lock_until, Some(60));
    let rejected = after_wrong_password(Some(2), 5, 1_000, 15);
    assert_eq!(rejected, FailedLoginOutcome { lock_until: None, redirect: LoginRedirect::Invalid });
}

#[test]
fn default_admin_passwords_have_twenty_allowed_characters() {
    let allowed = "abcdefghijklmnopqrstuvwxyzABCDEFGHIJKLMNOPQRSTUVWXYZ0123456789!@#$%^&*()_+-=[]{}|\\;:'\",.<>/?";
    assert_eq!(allowed.chars().count(), 92);
    let p = default_admin_password();
    assert_eq!(p.chars().count(), 20);
    assert!(p.chars().all(|c| allowed.contains(c)));
}

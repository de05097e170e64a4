//! Sign-in and sign-out decisions: where an unauthenticated request is
//! sent, what logging out does to the stored sessions, the lockout rules of
//! the login form, and the hashing and checking of passwords and reset
//! tokens.
use vstd::prelude::*;
use crate::content::owned;
use crate::text::{push_char, starts_with, strings_view, text_eq};
use argon2::password_hash::rand_core::OsRng;
use argon2::password_hash::{PasswordHash, PasswordHasher, PasswordVerifier, SaltString};
use argon2::Argon2;
use rand::distr::{Alphanumeric, SampleString};

verus! {

// ---------------------------------------------------------------------------
// Unauthenticated requests
// ---------------------------------------------------------------------------

/// The API error kinds a request handler answers with.
#[derive(Clone, Copy, Debug, PartialEq, Eq, Structural)]
pub enum ApiErrorType {
    /// The request needs a signed-in session.
    Unauthorized,
}

/// Answer to a request that ended unauthorized: every such request, API
/// requests included, is redirected to the login page.
pub fn forward_to_login(path: &str) -> (r: Result<String, ApiErrorType>)
    ensures
        r matches Ok(to) && to@ == "/login"@,
{
    Ok(owned("/login"))
}

/// Signs a session out: removes it from the stored sessions and redirects
/// to the login page.
pub fn logout_page(sessions: &mut Vec<String>, session_id: &str) -> (to: String)
    ensures
        to@ == "/login"@,
        strings_view(final(sessions)@) == strings_view(old(sessions)@).filter(
            other_session(session_id@),
        ),
{
    let ghost orig = sessions@;
    let mut kept: Vec<String> = Vec::new();
    let mut i: usize = 0;
    proof {
        reveal(Seq::filter);
        assert(strings_view(orig.take(0)) =~= Seq::<Seq<char>>::empty());
        assert(strings_view(kept@) =~= Seq::<Seq<char>>::empty());
    }
    while i < sessions.len()
        invariant
            i <= sessions.len(),
            sessions@ == orig,
            strings_view(kept@) == strings_view(orig.take(i as int)).filter(
                other_session(session_id@),
            ),
        decreases sessions.len() - i,
    {
        proof {
            reveal(Seq::filter);
            assert(strings_view(orig.take(i + 1)).drop_last() =~= strings_view(
                orig.take(i as int),
            ));
            assert(strings_view(orig.take(i + 1)).last() == orig[i as int]@);
        }
        let ghost before = strings_view(kept@);
        if !text_eq(sessions[i].as_str(), session_id) {
            kept.push(owned(sessions[i].as_str()));
            assert(strings_view(kept@) =~= before.push(orig[i as int]@));
        }
        i = i + 1;
    }
    assert(orig.take(i as int) =~= orig);
    *sessions = kept;
    owned("/login")
}

/// The sessions other than `id`.
pub open spec fn other_session(id: Seq<char>) -> spec_fn(Seq<char>) -> bool {
    |s: Seq<char>| s != id
}

// ---------------------------------------------------------------------------
// Login form
// ---------------------------------------------------------------------------

/// Where the login form sends the browser.
#[derive(Clone, Copy, Debug, PartialEq, Eq, Structural)]
pub enum LoginRedirect {
    /// Signed in: the start page.
    Home,
    /// Unknown user, no password set, or a wrong password.
    Invalid,
    /// The account is locked after too many failed attempts.
    TooManyAttempts,
}

pub open spec fn location_spec(r: LoginRedirect) -> Seq<char> {
    match r {
        LoginRedirect::Home => "/"@,
        LoginRedirect::Invalid => "/login?error=invalid"@,
        LoginRedirect::TooManyAttempts => "/login?error=too-many-attempts"@,
    }
}

impl LoginRedirect {
    /// The location of the redirect.
    pub fn location(&self) -> (r: String)
        ensures
            r@ == location_spec(*self),
    {
        match self {
            LoginRedirect::Home => owned("/"),
            LoginRedirect::Invalid => owned("/login?error=invalid"),
            LoginRedirect::TooManyAttempts => owned("/login?error=too-many-attempts"),
        }
    }
}

/// The next step of a login once the account has been looked up.
#[derive(Clone, Copy, Debug, PartialEq, Eq, Structural)]
pub enum LoginStep {
    /// Stop with this redirect.
    Finish(LoginRedirect),
    /// Check the submitted password against the stored hash.
    CheckPassword,
}

/// What is done after the account lookup: whether an expired lockout is
/// cleared first, and the next step.
#[derive(Clone, Copy, Debug, PartialEq, Eq, Structural)]
pub struct LookupDecision {
    pub clear_lockout: bool,
    pub next: LoginStep,
}

/// The decision after looking up the account of the submitted email. An
/// unknown account is rejected; a lockout that has not ended rejects the
/// login as locked; an ended lockout is cleared; an account without a
/// password is rejected; otherwise the password is checked.
pub open spec fn after_lookup_spec(
    found: bool,
    locked_until: Option<i64>,
    now: i64,
    has_password: bool,
) -> LookupDecision {
    if !found {
        LookupDecision { clear_lockout: false, next: LoginStep::Finish(LoginRedirect::Invalid) }
    } else {
        match locked_until {
            Some(t) => if t > now {
                LookupDecision {
                    clear_lockout: false,
                    next: LoginStep::Finish(LoginRedirect::TooManyAttempts),
                }
            } else {
                LookupDecision {
                    clear_lockout: true,
                    next: if has_password {
                        LoginStep::CheckPassword
                    } else {
                        LoginStep::Finish(LoginRedirect::Invalid)
                    },
                }
            },
            None => LookupDecision {
                clear_lockout: false,
                next: if has_password {
                    LoginStep::CheckPassword
                } else {
                    LoginStep::Finish(LoginRedirect::Invalid)
                },
            },
        }
    }
}

/// Decides what follows the account lookup of a login.
pub fn after_lookup(found: bool, locked_until: Option<i64>, now: i64, has_password: bool) -> (r:
    LookupDecision)
    ensures
        r == after_lookup_spec(found, locked_until, now, has_password),
{
    if !found {
        return LookupDecision { clear_lockout: false, next: LoginStep::Finish(LoginRedirect::Invalid) };
    }
    let mut clear_lockout = false;
    if let Some(t) = locked_until {
        if t > now {
            return LookupDecision {
                clear_lockout: false,
                next: LoginStep::Finish(LoginRedirect::TooManyAttempts),
            };
        }
        clear_lockout = true;
    }
    let next = if has_password {
        LoginStep::CheckPassword
    } else {
        LoginStep::Finish(LoginRedirect::Invalid)
    };
    LookupDecision { clear_lockout, next }
}

/// What follows a wrong password.
#[derive(Clone, Copy, Debug, PartialEq, Eq, Structural)]
pub enum FailedLoginAction {
    /// Lock the account for the lockout window and report too many
    /// attempts.
    Lock,
    /// Report invalid credentials.
    Reject,
}

/// The action for a wrong password, from the number of recent failed
/// attempts once this one is recorded (`None` when it could not be).
pub open spec fn failed_attempt_spec(recorded: Option<u64>, max_login_attempts: u64) -> FailedLoginAction {
    match recorded {
        Some(n) => if n >= max_login_attempts {
            FailedLoginAction::Lock
        } else {
            FailedLoginAction::Reject
        },
        None => FailedLoginAction::Lock,
    }
}

/// Decides, from the number of recent failed attempts once this one is
/// recorded, whether the account is locked. When the attempt could not be
/// recorded (`None`), the account is locked: the rule fails closed.
pub fn after_failed_attempt(recorded: Option<u64>, max_login_attempts: u64) -> (r:
    FailedLoginAction)
    ensures
        r == failed_attempt_spec(recorded, max_login_attempts),
{
    match recorded {
        Some(n) => if n >= max_login_attempts {
            FailedLoginAction::Lock
        } else {
            FailedLoginAction::Reject
        },
        None => FailedLoginAction::Lock,
    }
}

/// What follows the password check of a login.
#[derive(Debug, PartialEq, Eq)]
pub enum PasswordStep {
    /// Sign the user in: clear the lockout and the recorded failed
    /// attempts when `clear_lockout` is set, create a session, and redirect
    /// to `location`.
    SignIn { clear_lockout: bool, location: String },
    /// Record a failed attempt, then decide by `after_failed_attempt`.
    RecordFailedAttempt,
}

/// The step after checking the password of a login: a matching password
/// signs the user in, clearing the lockout and the failed attempts, and
/// goes to the start page; a wrong one is recorded as a failed attempt.
pub fn after_password_check(password_matches: bool) -> (r: PasswordStep)
    ensures
        password_matches ==> (r matches PasswordStep::SignIn { clear_lockout, location } && clear_lockout
            && location@ == "/"@),
        !password_matches ==> r == PasswordStep::RecordFailedAttempt,
{
    if password_matches {
        PasswordStep::SignIn { clear_lockout: true, location: owned("/") }
    } else {
        PasswordStep::RecordFailedAttempt
    }
}

/// The redirect that follows the action for a wrong password.
pub fn failed_login_redirect(a: FailedLoginAction) -> (r: LoginRedirect)
    ensures
        a == FailedLoginAction::Lock ==> r == LoginRedirect::TooManyAttempts,
        a == FailedLoginAction::Reject ==> r == LoginRedirect::Invalid,
{
    match a {
        FailedLoginAction::Lock => LoginRedirect::TooManyAttempts,
        FailedLoginAction::Reject => LoginRedirect::Invalid,
    }
}

/// The end of a lockout that starts now and lasts the lockout window, in
/// seconds.
pub open spec fn lockout_end_spec(now: i64, lockout_window_minutes: i64) -> int {
    now + lockout_window_minutes * 60
}

/// What follows a wrong password: the time until which the account is
/// locked, when it is, and the redirect.
#[derive(Clone, Copy, Debug, PartialEq, Eq, Structural)]
pub struct FailedLoginOutcome {
    pub lock_until: Option<i64>,
    pub redirect: LoginRedirect,
}

/// Decides what follows a wrong password at time `now` (seconds): with the
/// failed attempts reaching the limit, or not counted, the account is
/// locked until `now` plus the lockout window and the login is refused as
/// too many attempts; otherwise it is refused as invalid and nothing is
/// locked. No session is created either way. The window, in seconds, is
/// within what a time span can hold (a thousandth of `i64::MAX`).
pub fn after_wrong_password(
    recorded: Option<u64>,
    max_login_attempts: u64,
    now: i64,
    lockout_window_minutes: i64,
) -> (r: FailedLoginOutcome)
    requires
        -9_223_372_036_854_775 <= lockout_window_minutes * 60 <= 9_223_372_036_854_775,
        i64::MIN <= lockout_end_spec(now, lockout_window_minutes) <= i64::MAX,
    ensures
        failed_attempt_spec(recorded, max_login_attempts) == FailedLoginAction::Lock ==> r == (
        FailedLoginOutcome {
            lock_until: Some(lockout_end_spec(now, lockout_window_minutes) as i64),
            redirect: LoginRedirect::TooManyAttempts,
        }),
        failed_attempt_spec(recorded, max_login_attempts) == FailedLoginAction::Reject ==> r == (
        FailedLoginOutcome { lock_until: None, redirect: LoginRedirect::Invalid }),
{
    let action = after_failed_attempt(recorded, max_login_attempts);
    let redirect = failed_login_redirect(action);
    match action {
        FailedLoginAction::Lock => {
            let until = now + lockout_window_minutes * 60;
            FailedLoginOutcome { lock_until: Some(until), redirect }
        },
        FailedLoginAction::Reject => FailedLoginOutcome { lock_until: None, redirect },
    }
}

/// A locked account is never signed in before its lockout ends: the
/// lookup then finishes with the too-many-attempts redirect, whatever the
/// password.
pub proof fn lemma_locked_account_rejected(locked_until: i64, now: i64, has_password: bool)
    requires
        locked_until > now,
    ensures
        after_lookup_spec(true, Some(locked_until), now, has_password).next == LoginStep::Finish(
            LoginRedirect::TooManyAttempts,
        ),
        !after_lookup_spec(true, Some(locked_until), now, has_password).clear_lockout,
{
}

/// Failed attempts reaching the limit always lock, fewer only reject, and
/// an attempt that could not be counted locks too.
pub proof fn lemma_lockout_fails_closed(recorded: Option<u64>, max_login_attempts: u64)
    ensures
        (match recorded {
            Some(n) => n >= max_login_attempts,
            None => true,
        }) <==> failed_attempt_spec(recorded, max_login_attempts) == FailedLoginAction::Lock,
{
}

// ---------------------------------------------------------------------------
// Password reset
// ---------------------------------------------------------------------------

/// The template key that flags an error named in a page's query: `error_`
/// followed by the name.
pub fn error_context_key(error: &str) -> (r: String)
    ensures
        r@ == "error_"@ + error@,
{
    let mut r = owned("error_");
    r.append(error);
    r
}

/// Why a password-reset confirmation is sent back to its form.
#[derive(Clone, Copy, Debug, PartialEq, Eq, Structural)]
pub enum PwResetError {
    /// The two new passwords differ.
    PasswordsDontMatch,
    /// No account has the submitted email.
    EmailInvalid,
    /// The token is missing, expired or wrong.
    InvalidToken,
}

pub open spec fn pw_reset_reason(e: PwResetError) -> Seq<char> {
    match e {
        PwResetError::PasswordsDontMatch => "pw-dont-match"@,
        PwResetError::EmailInvalid => "email-invalid"@,
        PwResetError::InvalidToken => "invalid-token"@,
    }
}

/// The confirmation form again, with the token and the reason.
pub open spec fn pw_reset_error_location_spec(token: Seq<char>, e: PwResetError) -> Seq<char> {
    "/pw-reset-confirm?token="@ + token + "&error="@ + pw_reset_reason(e)
}

/// Where a password-reset confirmation that failed sends the browser.
pub fn pw_reset_error_location(token: &str, e: PwResetError) -> (r: String)
    ensures
        r@ == pw_reset_error_location_spec(token@, e),
{
    let mut r = owned("/pw-reset-confirm?token=");
    r.append(token);
    r.append("&error=");
    match e {
        PwResetError::PasswordsDontMatch => r.append("pw-dont-match"),
        PwResetError::EmailInvalid => r.append("email-invalid"),
        PwResetError::InvalidToken => r.append("invalid-token"),
    }
    r
}

/// Where a successful password reset sends the browser.
pub fn pw_reset_success_location() -> (r: String)
    ensures
        r@ == "/login?error=pw-reset-success"@,
{
    owned("/login?error=pw-reset-success")
}

/// The first check of a reset confirmation: the two new passwords must be
/// the same text.
pub fn check_new_passwords(password: &str, password2: &str) -> (r: Option<PwResetError>)
    ensures
        r == (if password@ == password2@ {
            None::<PwResetError>
        } else {
            Some(PwResetError::PasswordsDontMatch)
        }),
{
    if text_eq(password, password2) {
        None
    } else {
        Some(PwResetError::PasswordsDontMatch)
    }
}

/// What follows the account lookup of a reset confirmation.
#[derive(Clone, Copy, Debug, PartialEq, Eq, Structural)]
pub enum PwResetStep {
    /// Send the form back for this reason.
    Reject(PwResetError),
    /// Verify the submitted token against the stored hash.
    VerifyToken,
}

/// An unknown email is rejected; a token is only verified while its
/// validity lasts (up to and including its end) and a hash of it is stored;
/// otherwise the token is invalid.
pub open spec fn after_reset_lookup_spec(
    found: bool,
    valid_until: Option<i64>,
    now: i64,
    has_token_hash: bool,
) -> PwResetStep {
    if !found {
        PwResetStep::Reject(PwResetError::EmailInvalid)
    } else {
        match valid_until {
            Some(t) => if t >= now && has_token_hash {
                PwResetStep::VerifyToken
            } else {
                PwResetStep::Reject(PwResetError::InvalidToken)
            },
            None => PwResetStep::Reject(PwResetError::InvalidToken),
        }
    }
}

/// Decides what follows the account lookup of a reset confirmation.
pub fn after_reset_lookup(found: bool, valid_until: Option<i64>, now: i64, has_token_hash: bool) -> (r:
    PwResetStep)
    ensures
        r == after_reset_lookup_spec(found, valid_until, now, has_token_hash),
{
    if !found {
        return PwResetStep::Reject(PwResetError::EmailInvalid);
    }
    match valid_until {
        Some(t) => if t >= now && has_token_hash {
            PwResetStep::VerifyToken
        } else {
            PwResetStep::Reject(PwResetError::InvalidToken)
        },
        None => PwResetStep::Reject(PwResetError::InvalidToken),
    }
}

/// The redirect once the token has been checked: a verified token resets
/// the password, any other result sends the form back as an invalid token.
pub fn after_token_check(token: &str, verified: bool) -> (r: String)
    ensures
        verified ==> r@ == "/login?error=pw-reset-success"@,
        !verified ==> r@ == pw_reset_error_location_spec(token@, PwResetError::InvalidToken),
{
    if verified {
        pw_reset_success_location()
    } else {
        pw_reset_error_location(token, PwResetError::InvalidToken)
    }
}

/// How long a reset token stays valid, in seconds.
pub const RESET_TOKEN_LIFETIME: i64 = 3600;

/// The end of the validity of a token issued at `now` (seconds).
pub fn reset_token_valid_until(now: i64) -> (r: i64)
    requires
        now <= i64::MAX - RESET_TOKEN_LIFETIME,
    ensures
        r == now + RESET_TOKEN_LIFETIME,
{
    now + RESET_TOKEN_LIFETIME
}

/// The link of a reset mail: the instance, the confirmation page and the
/// token.
pub fn confirmation_url(instance_url: &str, token: &str) -> (r: String)
    ensures
        r@ == instance_url@ + "/pw-reset-confirm?token="@ + token@,
{
    let mut r = owned(instance_url);
    r.append("/pw-reset-confirm?token=");
    r.append(token);
    r
}

/// The text of a reset mail.
pub fn reset_mail_text(name: &str, app_title: &str, url: &str) -> (r: String)
    ensures
        r@ == "Dear "@ + name@ + ",\n someone requested to reset your "@ + app_title@
            + " password. If this was you, visit "@ + url@ + " and enter a new password."@,
{
    let mut r = owned("Dear ");
    r.append(name);
    r.append(",\n someone requested to reset your ");
    r.append(app_title);
    r.append(" password. If this was you, visit ");
    r.append(url);
    r.append(" and enter a new password.");
    r
}

/// Where a reset request sends the browser: always the login page with the
/// reset notice, whether or not an account has the email.
pub fn reset_request_location() -> (r: String)
    ensures
        r@ == "/login?error=pw-reset"@,
{
    owned("/login?error=pw-reset")
}

/// A token whose validity has ended, or that has no stored hash, is never
/// verified: the confirmation is sent back as an invalid token.
pub proof fn lemma_expired_token_rejected(valid_until: i64, now: i64, has_token_hash: bool)
    requires
        valid_until < now || !has_token_hash,
    ensures
        after_reset_lookup_spec(true, Some(valid_until), now, has_token_hash) == PwResetStep::Reject(
            PwResetError::InvalidToken,
        ),
{
}

// ---------------------------------------------------------------------------
// Passwords and reset tokens
// ---------------------------------------------------------------------------

/// What checking a secret against a stored text gives: `None` where the
/// text is no password hash that argon2 reads, otherwise whether the secret
/// hashes to it.
pub uninterp spec fn argon2_check(secret: Seq<char>, stored: Seq<char>) -> Option<bool>;

/// `argon2::PasswordHash::new` on the stored text, then
/// `Argon2::default().verify_password` with the secret's bytes, which
/// recomputes the hash with the algorithm, parameters and salt that the
/// stored hash names. The result is the one named by secret and stored
/// text.
#[verifier::external_body]
fn verify_secret(secret: &str, stored: &str) -> (r: Option<bool>)
    ensures
        r == argon2_check(secret@, stored@),
{
    match PasswordHash::new(stored) {
        Ok(parsed) => Some(Argon2::default().verify_password(secret.as_bytes(), &parsed).is_ok()),
        Err(_) => None,
    }
}

/// `Argon2::default().hash_password` of the secret's bytes with a fresh
/// random salt (`SaltString::generate` with `OsRng`), as its PHC text
/// (`to_string`); `None` where hashing fails. The salt is random, so the
/// text is not stated; as argon2 documents, the secret verifies against the
/// hash made of it. With the default parameters and a generated salt (16
/// bytes, within argon2's salt limits) the only input that argon2 refuses
/// is a secret of more than `MAX_PWD_LEN` (2^32 - 1) bytes, so a secret of
/// at most 2^30 - 1 characters (at most 4 bytes each) is hashed. For
/// longer secrets success is not stated.
#[verifier::external_body]
fn hash_secret(secret: &str) -> (r: Option<String>)
    ensures
        secret@.len() <= 0x3fff_ffff ==> r is Some,
        r matches Some(h) ==> argon2_check(secret@, h@) == Some(true),
{
    let salt = SaltString::generate(&mut OsRng);
    Argon2::default().hash_password(secret.as_bytes(), &salt).ok().map(|h| h.to_string())
}

/// An ASCII letter or digit.
pub open spec fn is_ascii_alphanumeric(c: char) -> bool {
    ('a' <= c && c <= 'z') || ('A' <= c && c <= 'Z') || ('0' <= c && c <= '9')
}

/// `rand::distr::Alphanumeric.sample_string(&mut rand::rng(), len)`: `len`
/// random ASCII letters and digits.
#[verifier::external_body]
fn random_alphanumeric(len: usize) -> (r: String)
    ensures
        r@.len() == len,
        forall|i: int| 0 <= i < len ==> is_ascii_alphanumeric(#[trigger] r@[i]),
{
    Alphanumeric.sample_string(&mut rand::rng(), len)
}

/// `rand::Rng::random_range(0..n)` on the thread's generator: a random
/// number below `n` (the range must not be empty).
#[verifier::external_body]
fn random_below(n: usize) -> (r: usize)
    requires
        n > 0,
    ensures
        r < n,
{
    rand::Rng::random_range(&mut rand::rng(), 0..n)
}

/// The characters of a generated default password: ASCII letters, digits
/// and punctuation.
pub open spec fn password_characters() -> Seq<char> {
    seq![
        'a', 'b', 'c', 'd', 'e', 'f', 'g', 'h', 'i', 'j', 'k', 'l', 'm', 'n', 'o', 'p', 'q', 'r',
        's', 't', 'u', 'v', 'w', 'x', 'y', 'z', 'A', 'B', 'C', 'D', 'E', 'F', 'G', 'H', 'I', 'J',
        'K', 'L', 'M', 'N', 'O', 'P', 'Q', 'R', 'S', 'T', 'U', 'V', 'W', 'X', 'Y', 'Z', '0', '1',
        '2', '3', '4', '5', '6', '7', '8', '9', '!', '@', '#', '$', '%', '^', '&', '*', '(', ')',
        '_', '+', '-', '=', '[', ']', '{', '}', '|', '\\', ';', ':', '\'', '"', ',', '.', '<', '>',
        '/', '?',
    ]
}

/// The password of the default administrator that a new installation
/// creates: twenty characters, each drawn at random from
/// `password_characters`.
pub fn default_admin_password() -> (r: String)
    ensures
        r@.len() == 20,
        forall|i: int| 0 <= i < 20 ==> password_characters().contains(#[trigger] r@[i]),
{
    let table: Vec<char> = vec![
        'a', 'b', 'c', 'd', 'e', 'f', 'g', 'h', 'i', 'j', 'k', 'l', 'm', 'n', 'o', 'p', 'q', 'r',
        's', 't', 'u', 'v', 'w', 'x', 'y', 'z', 'A', 'B', 'C', 'D', 'E', 'F', 'G', 'H', 'I', 'J',
        'K', 'L', 'M', 'N', 'O', 'P', 'Q', 'R', 'S', 'T', 'U', 'V', 'W', 'X', 'Y', 'Z', '0', '1',
        '2', '3', '4', '5', '6', '7', '8', '9', '!', '@', '#', '$', '%', '^', '&', '*', '(', ')',
        '_', '+', '-', '=', '[', ']', '{', '}', '|', '\\', ';', ':', '\'', '"', ',', '.', '<', '>',
        '/', '?',
    ];
    assert(table@ =~= password_characters());
    let mut r = String::new();
    let mut i: usize = 0;
    while i < 20
        invariant
            i <= 20,
            table@ == password_characters(),
            r@.len() == i,
            forall|k: int| 0 <= k < i ==> password_characters().contains(#[trigger] r@[k]),
        decreases 20 - i,
    {
        let k = random_below(table.len());
        let c = table[k];
        let ghost before = r@;
        push_char(&mut r, c);
        assert(password_characters()[k as int] == c);
        assert forall|j: int| 0 <= j < i + 1 implies password_characters().contains(#[trigger] r@[j]) by {
            if j < i {
                assert(r@[j] == before[j]);
            }
        }
        i = i + 1;
    }
    r
}

/// Checks a submitted password against the stored hash of an account:
/// `None` where the stored text is no hash that can be read, otherwise
/// whether the password matches.
pub fn check_password(password: &str, stored_hash: &str) -> (r: Option<bool>)
    ensures
        r == argon2_check(password@, stored_hash@),
{
    verify_secret(password, stored_hash)
}

/// The hash stored for a new password, with a fresh random salt; `None`
/// where hashing fails, which happens only for passwords longer than
/// argon2 accepts. The password is accepted against the hash.
pub fn hash_password(password: &str) -> (r: Option<String>)
    ensures
        password@.len() <= 0x3fff_ffff ==> r is Some,
        r matches Some(h) ==> argon2_check(password@, h@) == Some(true),
{
    hash_secret(password)
}

/// How many characters a reset token has.
pub const RESET_TOKEN_LENGTH: usize = 40;

/// A new reset token and the hash stored for it: random ASCII letters and
/// digits; the hash, where hashing succeeds, is one the token is accepted
/// against.
pub fn new_reset_token() -> (r: (String, Option<String>))
    ensures
        r.0@.len() == RESET_TOKEN_LENGTH,
        forall|i: int| 0 <= i < RESET_TOKEN_LENGTH ==> is_ascii_alphanumeric(#[trigger] r.0@[i]),
        r.1 matches Some(h) ==> argon2_check(r.0@, h@) == Some(true),
{
    let token = random_alphanumeric(RESET_TOKEN_LENGTH);
    let hash = hash_secret(token.as_str());
    (token, hash)
}

/// What a reset confirmation whose token has not expired does.
#[derive(Debug, PartialEq, Eq)]
pub enum ResetOutcome {
    /// The token does not match the stored hash, or the stored text is no
    /// hash: the form is sent back as an invalid token.
    InvalidToken,
    /// The token matches: the password is replaced by one with this hash,
    /// and the token and any lockout are cleared.
    Reset { password_hash: String },
    /// The token matches but the new password could not be hashed.
    HashFailed,
}

/// Checks the token of a reset confirmation against the stored hash and,
/// where it matches, hashes the new password. A reset leaves a hash that
/// the new password is accepted against.
pub fn confirm_reset(token: &str, stored_hash: &str, new_password: &str) -> (r: ResetOutcome)
    ensures
        argon2_check(token@, stored_hash@) != Some(true) ==> r == ResetOutcome::InvalidToken,
        argon2_check(token@, stored_hash@) == Some(true) ==> (r is HashFailed || (r matches ResetOutcome::Reset {
            password_hash,
        } && argon2_check(new_password@, password_hash@) == Some(true))),
{
    match verify_secret(token, stored_hash) {
        Some(true) => match hash_secret(new_password) {
            Some(password_hash) => ResetOutcome::Reset { password_hash },
            None => ResetOutcome::HashFailed,
        },
        _ => ResetOutcome::InvalidToken,
    }
}


} // verus!

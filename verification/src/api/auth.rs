//! Accounts: registration, login, and the verification of email addresses.

use crate::api::{refusal, refuse, refused, Refusal, RefusalView};
use crate::text::{
    chars_of, contains, law_occurrence_is_a_cut, occurs, opt_str, same_text,
};
use argon2::password_hash::rand_core::OsRng;
use argon2::password_hash::{PasswordHash, PasswordHasher, PasswordVerifier, SaltString};
use argon2::Argon2;
use vstd::prelude::*;
use vstd::string::StringSliceAdditionalSpecFns;
use vstd::utf8::encode_utf8;

verus! {

/// JWT claims: the id of the user, the name, and when the token expires
#[derive(Debug, Clone)]
pub struct Claims {
    pub sub: i64,
    pub username: String,
    pub exp: usize,
}

/// Authenticated user extracted from JWT
#[derive(Debug, Clone)]
pub struct AuthUser {
    pub id: i64,
    pub username: String,
}

/// Error response
pub struct ErrorResponse {
    pub error: String,
}

// ---------------------------------------------------------------------------
// Passwords
// ---------------------------------------------------------------------------
/// What Argon2 says of a password and a stored hash: `None` where the hash is malformed,
/// else whether the password is the one that was hashed.
pub uninterp spec fn password_verdict(password: Seq<char>, hash: Seq<char>) -> Option<bool>;

/// `PasswordHash::new` and `Argon2::default().verify_password`: `None` where the stored
/// hash cannot be parsed, else whether verification succeeds.
#[verifier::external_body]
fn verify_password(password: &str, hash: &str) -> (r: Option<bool>)
    ensures
        r == password_verdict(password@, hash@),
{
    match PasswordHash::new(hash) {
        Ok(parsed) => Some(Argon2::default().verify_password(password.as_bytes(), &parsed).is_ok()),
        Err(_) => None,
    }
}

/// The longest password that Argon2 hashes, in bytes.
pub const MAX_PASSWORD_BYTES: u64 = 0xffff_ffff;

/// `Argon2::default().hash_password` with a fresh random salt, as a string: `None` where
/// hashing fails, which is for passwords that are too long and for no other. Which string it
/// is depends on the salt; the password that was hashed is accepted for it.
#[verifier::external_body]
fn argon2_hash(password: &str) -> (r: Option<String>)
    ensures
        r is Some <==> encode_utf8(password@).len() <= MAX_PASSWORD_BYTES,
        r matches Some(hash) ==> password_verdict(password@, hash@) == Some(true),
{
    let salt = SaltString::generate(&mut OsRng);
    match Argon2::default().hash_password(password.as_bytes(), &salt) {
        Ok(hash) => Some(hash.to_string()),
        Err(_) => None,
    }
}

/// A random UUID in writing: 32 hexadecimal digits in lower case, in groups of 8, 4, 4, 4 and
/// 12 with dashes between them. The third group begins with the version, 4, and the fourth
/// with the two bits of the variant.
pub open spec fn is_uuid(s: Seq<char>) -> bool {
    &&& s.len() == 36
    &&& forall|i: int|
        0 <= i < 36 ==> if i == 8 || i == 13 || i == 18 || i == 23 {
            #[trigger] s[i] == '-'
        } else {
            '0' <= s[i] <= '9' || 'a' <= s[i] <= 'f'
        }
    &&& s[14] == '4'
    &&& s[19] == '8' || s[19] == '9' || s[19] == 'a' || s[19] == 'b'
}

/// `uuid::Uuid::new_v4`, as a string: a UUID of version 4. Which one is left to chance.
#[verifier::external_body]
fn random_uuid() -> (r: String)
    ensures
        is_uuid(r@),
{
    uuid::Uuid::new_v4().to_string()
}

/// Takes the hash of a password, where there is one; a user cannot be created without.
pub fn finish_hash(hash: Option<String>) -> (r: Result<String, Refusal>)
    ensures
        match hash {
            Some(h) => r matches Ok(text) && text@ == h@,
            None => refused(r, 500, "Failed to create user"@),
        },
{
    match hash {
        Some(h) => Ok(h),
        None => Err(refuse(500, "Failed to create user")),
    }
}

/// Hashes a password for storage, unless it is longer than can be hashed. The hash accepts
/// the password that was given.
pub fn hash_password(password: &str) -> (r: Result<String, Refusal>)
    ensures
        r is Ok <==> encode_utf8(password@).len() <= MAX_PASSWORD_BYTES,
        match r {
            Ok(hash) => password_verdict(password@, hash@) == Some(true),
            Err(e) => e@ == refusal(500, "Failed to create user"@),
        },
{
    finish_hash(argon2_hash(password))
}

/// Makes the token that a new email address is verified with: a random UUID.
pub fn verification_token() -> (r: String)
    ensures
        is_uuid(r@),
{
    random_uuid()
}

// ---------------------------------------------------------------------------
// Administrators
// ---------------------------------------------------------------------------
/// Whether a user who has a role, if the user exists, is an administrator.
pub open spec fn is_admin(role: Option<Seq<char>>) -> bool {
    role == Some("admin"@)
}

/// Refuses those who are no administrators.
pub fn require_admin(role: Option<&str>) -> (r: Result<(), Refusal>)
    ensures
        if is_admin(opt_str(role)) {
            r is Ok
        } else {
            refused(r, 403, "Admin access required"@)
        },
{
    match role {
        Some(role) => {
            if same_text(role, "admin") {
                return Ok(());
            }
        },
        None => {},
    }
    Err(refuse(403, "Admin access required"))
}

// ---------------------------------------------------------------------------
// Registration
// ---------------------------------------------------------------------------
/// What is wrong with a registration, if anything: the email address needs an `@` and
/// five bytes, the name 3 to 30 bytes, the password 8 bytes. The first thing counts.
pub open spec fn registration_fault(
    username: Seq<char>,
    email: Seq<char>,
    password: Seq<char>,
) -> Option<RefusalView> {
    if !email.contains('@') || encode_utf8(email).len() < 5 {
        Some(refusal(400, "Invalid email format"@))
    } else if encode_utf8(username).len() < 3 || encode_utf8(username).len() > 30 {
        Some(refusal(400, "Username must be between 3 and 30 characters"@))
    } else if encode_utf8(password).len() < 8 {
        Some(refusal(400, "Password must be at least 8 characters"@))
    } else {
        None
    }
}

/// Whether a character stands in a text.
fn has_char(s: &str, c: char) -> (r: bool)
    ensures
        r == s@.contains(c),
{
    let chars = chars_of(s);
    let mut i: usize = 0;
    while i < chars.len()
        invariant
            i <= chars.len(),
            chars@ == s@,
            forall|j: int| 0 <= j < i ==> chars@[j] != c,
        decreases chars.len() - i,
    {
        if chars[i] == c {
            assert(s@[i as int] == c);
            return true;
        }
        i = i + 1;
    }
    false
}

/// Checks a registration.
pub fn check_registration(username: &str, email: &str, password: &str) -> (r: Result<(), Refusal>)
    ensures
        match r {
            Ok(_) => registration_fault(username@, email@, password@) is None,
            Err(e) => registration_fault(username@, email@, password@) == Some(e@),
        },
{
    if !has_char(email, '@') || email.as_bytes().len() < 5 {
        return Err(refuse(400, "Invalid email format"));
    }
    let name_len: usize = username.as_bytes().len();
    if name_len < 3 || name_len > 30 {
        return Err(refuse(400, "Username must be between 3 and 30 characters"));
    }
    if password.as_bytes().len() < 8 {
        return Err(refuse(400, "Password must be at least 8 characters"));
    }
    Ok(())
}

/// What a client is told when an account could not be stored, from the text of the error:
/// a broken uniqueness tells whether the address or the name is taken.
pub open spec fn storage_fault(error: Seq<char>) -> RefusalView {
    if occurs(error, "UNIQUE"@) {
        if occurs(error, "email"@) {
            refusal(409, "An account with this email already exists"@)
        } else {
            refusal(409, "Username is already taken"@)
        }
    } else {
        refusal(500, "Failed to create user"@)
    }
}

/// Says what a client is told when an account could not be stored.
pub fn explain_storage_error(error: &str) -> (r: Refusal)
    ensures
        r@ == storage_fault(error@),
{
    if contains(error, "UNIQUE") {
        if contains(error, "email") {
            refuse(409, "An account with this email already exists")
        } else {
            refuse(409, "Username is already taken")
        }
    } else {
        refuse(500, "Failed to create user")
    }
}

/// What became of the verification email.
#[derive(Debug, Clone, Copy, PartialEq, Eq, Structural)]
pub enum Mail {
    /// It was sent.
    Sent,
    /// It could not be sent.
    Failed,
    /// There is no mail service.
    NoService,
}

/// Ends a registration whose account is stored. Where the email did not go out the account
/// is to be deleted again, and the client is told why.
pub fn finish_registration(mail: Mail) -> (r: Result<String, Refusal>)
    ensures
        match mail {
            Mail::Sent => r matches Ok(text) && text@
                == "Registration successful! Please check your email to verify your account."@,
            Mail::Failed => refused(
                r,
                500,
                "Failed to send verification email. Please try again later."@,
            ),
            Mail::NoService => refused(
                r,
                503,
                "Email service is not configured. Registration is currently unavailable."@,
            ),
        },
{
    match mail {
        Mail::Sent => Ok(
            "Registration successful! Please check your email to verify your account.".to_owned(),
        ),
        Mail::Failed => Err(
            refuse(500, "Failed to send verification email. Please try again later."),
        ),
        Mail::NoService => Err(
            refuse(503, "Email service is not configured. Registration is currently unavailable."),
        ),
    }
}

// ---------------------------------------------------------------------------
// Login
// ---------------------------------------------------------------------------
/// What a login needs to know of an account.
#[derive(Debug, Clone)]
pub struct Account {
    pub id: i64,
    pub username: String,
    pub password_hash: String,
    pub email_verified: bool,
    /// When the verification token expires, where it does, in nanoseconds since 1970.
    pub token_expires_at: Option<i128>,
}

/// What a login comes to: who is logged in, or the refusal. An unknown account and a wrong
/// password are told apart by nobody; an unverified account is refused before its password
/// is looked at.
pub open spec fn login_verdict(account: Option<Account>, verdict: Option<bool>) -> Option<
    RefusalView,
> {
    match account {
        None => Some(refusal(401, "Invalid credentials"@)),
        Some(a) => if !a.email_verified {
            Some(
                refusal(
                    403,
                    "Please verify your email before logging in. Check your inbox for the verification link."@,
                ),
            )
        } else {
            match verdict {
                None => Some(refusal(500, "Internal server error"@)),
                Some(false) => Some(refusal(401, "Invalid credentials"@)),
                Some(true) => None,
            }
        },
    }
}

/// Decides a login, from the account and what Argon2 says of the password and its hash.
pub fn decide_login(account: Option<&Account>, verdict: Option<bool>) -> (r: Result<
    AuthUser,
    Refusal,
>)
    ensures
        match r {
            Ok(user) => account matches Some(a) && {
                &&& login_verdict(Some(*a), verdict) is None
                &&& user.id == a.id
                &&& user.username@ == a.username@
            },
            Err(e) => login_verdict(
                match account {
                    Some(a) => Some(*a),
                    None => None,
                },
                verdict,
            ) == Some(e@),
        },
{
    match account {
        None => Err(refuse(401, "Invalid credentials")),
        Some(a) => {
            if !a.email_verified {
                return Err(
                    refuse(
                        403,
                        "Please verify your email before logging in. Check your inbox for the verification link.",
                    ),
                );
            }
            match verdict {
                None => Err(refuse(500, "Internal server error")),
                Some(accepted) => {
                    if accepted {
                        Ok(AuthUser { id: a.id, username: a.username.clone() })
                    } else {
                        Err(refuse(401, "Invalid credentials"))
                    }
                },
            }
        },
    }
}

/// Decides a login with a password.
pub fn check_login(account: Option<&Account>, password: &str) -> (r: Result<AuthUser, Refusal>)
    ensures
        match account {
            Some(a) => match r {
                Ok(user) => {
                    &&& login_verdict(
                        Some(*a),
                        password_verdict(password@, a.password_hash@),
                    ) is None
                    &&& user.id == a.id
                    &&& user.username@ == a.username@
                },
                Err(e) => login_verdict(
                    Some(*a),
                    password_verdict(password@, a.password_hash@),
                ) == Some(e@),
            },
            None => refused(r, 401, "Invalid credentials"@),
        },
{
    match account {
        Some(a) => decide_login(
            account,
            verify_password(password, a.password_hash.as_str()),
        ),
        None => decide_login(None, None),
    }
}

/// How long a login lasts: seven days, in seconds.
pub const TOKEN_SECONDS: i64 = 604_800;

/// How long an email address can be verified: 24 hours, in seconds.
pub const VERIFICATION_SECONDS: i64 = 86_400;

/// The claims of a user who logs in at a time, in seconds since 1970.
pub fn claims_for(user: &AuthUser, now: i64) -> (c: Claims)
    requires
        0 <= now <= i64::MAX - TOKEN_SECONDS,
        now + TOKEN_SECONDS <= usize::MAX,
    ensures
        c.sub == user.id,
        c.username@ == user.username@,
        c.exp == now + TOKEN_SECONDS,
{
    Claims { sub: user.id, username: user.username.clone(), exp: (now + TOKEN_SECONDS) as usize }
}

/// The user that claims speak of.
pub fn claimed_user(claims: &Claims) -> (u: AuthUser)
    ensures
        u.id == claims.sub,
        u.username@ == claims.username@,
{
    AuthUser { id: claims.sub, username: claims.username.clone() }
}

/// Whoever registers can log in with the same password as soon as the address is verified:
/// the stored hash accepts it.
pub proof fn law_registered_password_logs_in(account: Account, password: Seq<char>)
    requires
        password_verdict(password, account.password_hash@) == Some(true),
        account.email_verified,
    ensures
        login_verdict(
            Some(account),
            password_verdict(password, account.password_hash@),
        ) is None,
{
}

/// A login does not tell whether an account exists: an unknown account and a wrong
/// password of a verified one are refused alike.
pub proof fn law_unknown_account_looks_like_wrong_password(account: Account)
    requires
        account.email_verified,
    ensures
        login_verdict(None, None) == login_verdict(Some(account), Some(false)),
{
}

// ---------------------------------------------------------------------------
// Verification of email addresses
// ---------------------------------------------------------------------------
/// What the token of a verification email leads to.
#[derive(Debug, Clone)]
pub enum Verification {
    /// The address is verified already, and the client is told so.
    Already(String),
    /// The address is to be marked as verified.
    Verify,
}

/// Decides a verification: from the account that has the token, if any, and the time in
/// nanoseconds since 1970. A token without an end does not expire.
pub fn decide_verification(account: Option<&Account>, now: i128) -> (r: Result<
    Verification,
    Refusal,
>)
    ensures
        match account {
            None => refused(r, 400, "Invalid or expired verification token"@),
            Some(a) => if a.email_verified {
                r matches Ok(Verification::Already(text)) && text@
                    == "Email is already verified. You can log in."@
            } else if a.token_expires_at matches Some(end) && now > end {
                refused(r, 400, "Verification token has expired. Please request a new one."@)
            } else {
                r matches Ok(Verification::Verify)
            },
        },
{
    match account {
        None => Err(refuse(400, "Invalid or expired verification token")),
        Some(a) => {
            if a.email_verified {
                return Ok(
                    Verification::Already("Email is already verified. You can log in.".to_owned()),
                );
            }
            match a.token_expires_at {
                Some(end) => {
                    if now > end {
                        Err(
                            refuse(
                                400,
                                "Verification token has expired. Please request a new one.",
                            ),
                        )
                    } else {
                        Ok(Verification::Verify)
                    }
                },
                None => Ok(Verification::Verify),
            }
        },
    }
}

/// What a request for a new verification email leads to.
#[derive(Debug, Clone)]
pub enum Resend {
    /// Nothing is sent, and the client is told this.
    Tell(String),
    /// A new token is to be stored and sent.
    Send,
}

/// What is told whether or not the account exists.
pub open spec fn resend_text() -> Seq<char> {
    "If an account exists with this email, a new verification link has been sent."@
}

/// Decides a request for a new verification email.
pub fn decide_resend(account: Option<&Account>) -> (r: Resend)
    ensures
        match account {
            None => r matches Resend::Tell(text) && text@ == resend_text(),
            Some(a) => if a.email_verified {
                r matches Resend::Tell(text) && text@
                    == "Email is already verified. You can log in."@
            } else {
                r is Send
            },
        },
{
    match account {
        None => Resend::Tell(
            "If an account exists with this email, a new verification link has been sent.".to_owned(),
        ),
        Some(a) => {
            if a.email_verified {
                Resend::Tell("Email is already verified. You can log in.".to_owned())
            } else {
                Resend::Send
            }
        },
    }
}

/// Ends a request for a new verification email. Without a mail service the answer is the
/// same as with one, so that nothing is told of the account.
pub fn finish_resend(mail: Mail) -> (r: Result<String, Refusal>)
    ensures
        match mail {
            Mail::Failed => refused(r, 500, "Failed to send verification email"@),
            _ => r matches Ok(text) && text@ == resend_text(),
        },
{
    match mail {
        Mail::Failed => Err(refuse(500, "Failed to send verification email")),
        _ => Ok(
            "If an account exists with this email, a new verification link has been sent.".to_owned(),
        ),
    }
}

// ---------------------------------------------------------------------------
// Laws
// ---------------------------------------------------------------------------
/// A registration is accepted exactly where the address has an `@` and five bytes or more,
/// the name 3 to 30 bytes and the password 8 or more. What is told is the first of these that
/// is not so: the address, then the name, then the password.
pub proof fn law_registration_needs(username: Seq<char>, email: Seq<char>, password: Seq<char>)
    ensures
        ({
            let address = email.contains('@') && encode_utf8(email).len() >= 5;
            let name = 3 <= encode_utf8(username).len() <= 30;
            let secret = encode_utf8(password).len() >= 8;
            let fault = registration_fault(username, email, password);
            &&& fault is None <==> address && name && secret
            &&& fault matches Some(r) ==> r.status == 400
            &&& !address ==> (fault matches Some(r) && r.error == "Invalid email format"@)
            &&& address && !name ==> (fault matches Some(r) && r.error
                == "Username must be between 3 and 30 characters"@)
            &&& address && name && !secret ==> (fault matches Some(r) && r.error
                == "Password must be at least 8 characters"@)
        }),
{
}

/// A user who logs in has a verified account and the right password. Without an account, or
/// with a wrong password, the credentials are invalid; an account that is not verified is
/// told so whatever the password is; and a hash that cannot be read is our own fault.
pub proof fn law_login_needs(account: Account, verdict: Option<bool>)
    ensures
        login_verdict(None, verdict) matches Some(r) && r.status == 401,
        login_verdict(Some(account), verdict) is None <==> account.email_verified && verdict
            == Some(true),
        !account.email_verified ==> (login_verdict(Some(account), verdict) matches Some(r)
            && r.status == 403),
        account.email_verified && verdict == Some(false) ==> (login_verdict(
            Some(account),
            verdict,
        ) matches Some(r) && r.status == 401),
        account.email_verified && verdict is None ==> (login_verdict(
            Some(account),
            verdict,
        ) matches Some(r) && r.status == 500),
{
}

/// An error of the database that speaks of uniqueness means that the address is taken, where
/// it speaks of the address, and else that the name is; any other error is our own fault.
pub proof fn law_storage_errors_are_told(before: Seq<char>, between: Seq<char>, after: Seq<char>)
    ensures
        storage_fault(before + "UNIQUE"@ + between + "email"@ + after) == refusal(
            409,
            "An account with this email already exists"@,
        ),
        ({
            let error = before + "UNIQUE"@ + after;
            !occurs(error, "email"@) ==> storage_fault(error) == refusal(
                409,
                "Username is already taken"@,
            )
        }),
        !occurs(before, "UNIQUE"@) ==> storage_fault(before) == refusal(
            500,
            "Failed to create user"@,
        ),
{
    let u = "UNIQUE"@;
    let e = "email"@;
    law_occurrence_is_a_cut(before, u, after);
    let whole = before + u + between + e + after;
    law_occurrence_is_a_cut(before, u, between + e + after);
    assert(before + u + (between + e + after) =~= whole);
    law_occurrence_is_a_cut(before + u + between, e, after);
}

/// An administrator is a user whose role is that of administrators, and nobody else.
pub proof fn law_admins_have_the_role(role: Seq<char>)
    ensures
        is_admin(Some(role)) <==> role == "admin"@,
        !is_admin(None),
{
}

/// A login lasts seven days, and an address can be verified for one.
pub proof fn law_tokens_last()
    ensures
        TOKEN_SECONDS == 7 * 24 * 60 * 60,
        VERIFICATION_SECONDS == 24 * 60 * 60,
{
}

/// Whoever asks for a new verification email is told nothing of whether there is an account.
pub proof fn law_resend_tells_nothing()
    ensures
        resend_text()
            == "If an account exists with this email, a new verification link has been sent."@,
{
}

} // verus!

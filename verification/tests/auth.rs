use rinse::api::auth::{
    check_login, check_registration, claimed_user, claims_for, decide_login, decide_resend,
    decide_verification, explain_storage_error, finish_hash, finish_registration, finish_resend,
    hash_password, verification_token, Account, AuthUser, Mail, Resend, Verification,
};
use rinse::api::Refusal;

fn said(r: Refusal) -> (u16, String) {
    (r.status, r.error)
}

fn account(verified: bool, hash: &str) -> Account {
    Account {
        id: 7,
        username: "ann".to_string(),
        password_hash: hash.to_string(),
        email_verified: verified,
        token_expires_at: Some(100),
    }
}

#[test]
fn registrations_are_checked() {
    assert!(check_registration("ann", "a@b.c", "password").is_ok());
    let refused = |name: &str, email: &str, password: &str| {
        said(check_registration(name, email, password).unwrap_err())
    };
    let email = (400, "Invalid email format".to_string());
    assert_eq!(refused("ann", "ab.cd", "password"), email);
    assert_eq!(refused("ann", "a@bc", "password"), email);
    let name = (400, "Username must be between 3 and 30 characters".to_string());
    assert_eq!(refused("an", "a@b.c", "password"), name);
    assert_eq!(refused(&"a".repeat(31), "a@b.c", "password"), name);
    assert!(check_registration(&"a".repeat(30), "a@b.c", "password").is_ok());
    let password = (400, "Password must be at least 8 characters".to_string());
    assert_eq!(refused("ann", "a@b.c", "passwor"), password);
}

#[test]
fn lengths_count_bytes() {
    // Two characters of two bytes each are no name of three characters, but four bytes.
    assert!(check_registration("ää", "a@b.c", "password").is_ok());
    assert!(check_registration("ann", "a@b.c", "pässwör").is_ok());
}

#[test]
fn storage_errors_are_explained() {
    assert_eq!(
        said(explain_storage_error("UNIQUE constraint failed: users.email")),
        (409, "An account with this email already exists".to_string())
    );
    assert_eq!(
        said(explain_storage_error("UNIQUE constraint failed: users.username")),
        (409, "Username is already taken".to_string())
    );
    assert_eq!(
        said(explain_storage_error("email disk I/O error")),
        (500, "Failed to create user".to_string())
    );
}

#[test]
fn registrations_end_with_an_email() {
    assert_eq!(
        finish_registration(Mail::Sent).unwrap(),
        "Registration successful! Please check your email to verify your account."
    );
    assert_eq!(
        said(finish_registration(Mail::Failed).unwrap_err()),
        (500, "Failed to send verification email. Please try again later.".to_string())
    );
    assert_eq!(
        said(finish_registration(Mail::NoService).unwrap_err()),
        (
            503,
            "Email service is not configured. Registration is currently unavailable.".to_string()
        )
    );
}

#[test]
fn hashed_password_logs_in_and_no_other() {
    let hash = hash_password("secret password").unwrap();
    assert_ne!(hash, "secret password");
    let ann = account(true, &hash);
    let user = check_login(Some(&ann), "secret password").unwrap();
    assert_eq!((user.id, user.username.as_str()), (7, "ann"));
    assert_eq!(
        said(check_login(Some(&ann), "wrong password").unwrap_err()),
        (401, "Invalid credentials".to_string())
    );
    assert_ne!(hash_password("secret password").unwrap(), hash);
}

#[test]
fn passwords_of_any_usual_length_are_hashed() {
    for password in ["", "ä", &"p".repeat(100_000)] {
        let ann = account(true, &hash_password(password).unwrap());
        assert!(check_login(Some(&ann), password).is_ok());
        assert!(check_login(Some(&ann), "another password").is_err());
    }
}

#[test]
fn logins_are_refused() {
    let unverified = (
        403,
        "Please verify your email before logging in. Check your inbox for the verification link."
            .to_string(),
    );
    assert_eq!(said(check_login(Some(&account(false, "x")), "p").unwrap_err()), unverified);
    assert_eq!(
        said(check_login(Some(&account(true, "not a hash")), "p").unwrap_err()),
        (500, "Internal server error".to_string())
    );
    let unknown = said(check_login(None, "p").unwrap_err());
    assert_eq!(unknown, (401, "Invalid credentials".to_string()));
    let ann = account(true, "x");
    assert_eq!(said(decide_login(Some(&ann), Some(false)).unwrap_err()), unknown);
    assert!(decide_login(Some(&ann), Some(true)).is_ok());
    assert_eq!(said(decide_login(Some(&ann), None).unwrap_err()).0, 500);
}

#[test]
fn claims_last_seven_days() {
    let user = AuthUser { id: 7, username: "ann".to_string() };
    let claims = claims_for(&user, 1000);
    assert_eq!((claims.sub, claims.username.as_str(), claims.exp), (7, "ann", 605_800));
    let back = claimed_user(&claims);
    assert_eq!((back.id, back.username.as_str()), (7, "ann"));
}

#[test]
fn verification_tokens_are_uuids() {
    let token = verification_token();
    assert_eq!(token.len(), 36);
    for (i, c) in token.chars().enumerate() {
        if [8, 13, 18, 23].contains(&i) {
            assert_eq!(c, '-');
        } else {
            assert!(c.is_ascii_digit() || ('a'..='f').contains(&c));
        }
    }
    let chars: Vec<char> = token.chars().collect();
    assert_eq!(chars[14], '4');
    assert!(['8', '9', 'a', 'b'].contains(&chars[19]));
    assert_ne!(verification_token(), token);
}

#[test]
fn verifications_are_decided() {
    assert_eq!(
        said(decide_verification(None, 0).unwrap_err()),
        (400, "Invalid or expired verification token".to_string())
    );
    assert!(matches!(
        decide_verification(Some(&account(true, "x")), 1000),
        Ok(Verification::Already(text)) if text == "Email is already verified. You can log in."
    ));
    let open = account(false, "x");
    assert!(matches!(decide_verification(Some(&open), 100), Ok(Verification::Verify)));
    assert_eq!(
        said(decide_verification(Some(&open), 101).unwrap_err()),
        (400, "Verification token has expired. Please request a new one.".to_string())
    );
    let mut endless = account(false, "x");
    endless.token_expires_at = None;
    assert!(matches!(decide_verification(Some(&endless), 1000), Ok(Verification::Verify)));
}

#[test]
fn resends_tell_nothing_of_the_account() {
    let text = "If an account exists with this email, a new verification link has been sent.";
    assert!(matches!(decide_resend(None), Resend::Tell(t) if t == text));
    assert!(matches!(
        decide_resend(Some(&account(true, "x"))),
        Resend::Tell(t) if t == "Email is already verified. You can log in."
    ));
    assert!(matches!(decide_resend(Some(&account(false, "x"))), Resend::Send));
    assert_eq!(finish_resend(Mail::Sent).unwrap(), text);
    assert_eq!(finish_resend(Mail::NoService).unwrap(), text);
    assert_eq!(
        said(finish_resend(Mail::Failed).unwrap_err()),
        (500, "Failed to send verification email".to_string())
    );
}

#[test]
fn a_user_needs_a_hash() {
    assert_eq!(finish_hash(Some("$argon2id$x".to_string())).unwrap(), "$argon2id$x");
    let refusal = finish_hash(None).unwrap_err();
    assert_eq!((refusal.status, refusal.error.as_str()), (500, "Failed to create user"));
}

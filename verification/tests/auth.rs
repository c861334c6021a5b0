use canari::auth::{
    cleared_cookie, create_session, entered_password, generate_secret, hash_password, hash_secret,
    open_session, require_auth, secret_from, session_cookie, session_is_valid, set_password,
    token_from_headers, verify_password, Access, Session, SESSION_TTL,
};

const T0: i64 = 1_700_000_000;

#[test]
fn passwords_are_let_in_by_their_hash() {
    let hash = set_password("correct horse").unwrap();
    assert!(hash.starts_with("$argon2id$"));
    assert!(verify_password(Some(&hash), "correct horse"));
    assert!(!verify_password(Some(&hash), "correct horse "));
    assert!(!verify_password(None, "correct horse"));
    assert!(!verify_password(Some("not a hash"), "correct horse"));
}

#[test]
fn short_passwords_are_refused() {
    let err = set_password("seven77").unwrap_err();
    assert_eq!(err.message, "password must be at least 8 characters");
    assert!(set_password("eight888").is_ok());
    // Four characters, eight bytes.
    assert!(set_password("éééé").is_ok());
}

#[test]
fn salts_make_hashes_differ() {
    let one = hash_password("correct horse", &[1; 16]).unwrap();
    let two = hash_password("correct horse", &[2; 16]).unwrap();
    assert_ne!(one, two);
    assert_eq!(one, hash_password("correct horse", &[1; 16]).unwrap());
}

#[test]
fn typed_passwords_lose_their_line_break() {
    assert_eq!(entered_password("secret\r\n").unwrap(), "secret");
    assert_eq!(entered_password(" secret ").unwrap(), " secret ");
    assert_eq!(entered_password("\n").unwrap_err().message, "empty password");
    assert_eq!(entered_password("").unwrap_err().message, "empty password");
}

#[test]
fn secrets_are_hashed() {
    // SHA-256 of "abc".
    assert_eq!(hash_secret("abc"), "ungWv48Bz-pBQUDeXa4iI7ADYaOWF3qctBD_YfIAFa0");
    assert_eq!(hash_secret(""), "47DEQpj8HBSa-_TImW-5JCeuQeRkm5NMpJWZG3hSuFU");
}

#[test]
fn secrets_are_random_and_url_safe() {
    let one = generate_secret();
    assert_eq!(one.len(), 43);
    assert!(one.chars().all(|c| c.is_ascii_alphanumeric() || c == '-' || c == '_'));
    assert_ne!(one, generate_secret());
    assert_eq!(secret_from(&[0xff; 32]), format!("{}8", "_".repeat(42)));
    assert_eq!(secret_from(&[0; 32]), "A".repeat(43));
}

#[test]
fn sessions_last_their_time() {
    let session = open_session("token".into(), T0);
    assert_eq!(session.token, "token");
    assert_eq!(session.row.token_hash, hash_secret("token"));
    assert_eq!((session.row.created_at, session.purge_before), (T0, T0));
    assert_eq!(session.row.expires_at, T0 + 30 * 86_400);
    assert_eq!(SESSION_TTL, 30 * 86_400);
    let rows = vec![session.row];
    assert!(session_is_valid(&rows, "token", T0));
    assert!(session_is_valid(&rows, "token", T0 + SESSION_TTL - 1));
    assert!(!session_is_valid(&rows, "token", T0 + SESSION_TTL));
    assert!(!session_is_valid(&rows, "other", T0));
    assert!(!session_is_valid(&Vec::new(), "token", T0));
}

#[test]
fn fresh_sessions_are_valid() {
    let session = create_session();
    let now = canari::model::now();
    assert_eq!(session.row.token_hash, hash_secret(&session.token));
    assert!(session_is_valid(&vec![session.row], &session.token, now));
}

#[test]
fn tokens_are_read_from_cookies() {
    let read = |cookies| token_from_headers(Some(cookies));
    assert_eq!(read("canari_session=abc").as_deref(), Some("abc"));
    assert_eq!(read("theme=dark; canari_session = abc ; x=y").as_deref(), Some("abc"));
    assert_eq!(read("canari_session=a=b").as_deref(), Some("a=b"));
    assert_eq!(read("canari_session=1; canari_session=2").as_deref(), Some("1"));
    assert_eq!(read("canari_session").as_deref(), None);
    assert_eq!(read("other=abc").as_deref(), None);
    assert_eq!(token_from_headers(None), None);
}

#[test]
fn session_cookies_read_back() {
    let token = generate_secret();
    let cookie = session_cookie(&token, "https://x.test");
    let returned = cookie.split(';').next().unwrap();
    assert_eq!(token_from_headers(Some(returned)), Some(token.clone()));
    for (before, after) in [("theme=dark; ", ""), ("", "; x=y"), ("a; =; b=c;; ", ";canari_session=no")] {
        let header = format!("{before}{returned}{after}");
        assert_eq!(token_from_headers(Some(header.as_str())), Some(token.clone()));
    }
}

#[test]
fn cookies_are_secure_on_https() {
    assert_eq!(
        session_cookie("t", "https://x.test"),
        "canari_session=t; Path=/; HttpOnly; SameSite=Lax; Max-Age=2592000; Secure"
    );
    assert_eq!(
        session_cookie("t", "http://x.test"),
        "canari_session=t; Path=/; HttpOnly; SameSite=Lax; Max-Age=2592000"
    );
    assert_eq!(
        cleared_cookie(),
        "canari_session=; Path=/; HttpOnly; SameSite=Lax; Max-Age=0"
    );
}

fn rows() -> Vec<Session> {
    vec![open_session("token".into(), T0).row]
}

#[test]
fn pages_are_gated() {
    let token = Some("token");
    assert_eq!(require_auth(Some(true), token, &rows(), T0), Access::Allowed);
    assert_eq!(require_auth(Some(true), Some("x"), &rows(), T0), Access::SignIn);
    assert_eq!(require_auth(Some(true), None, &rows(), T0), Access::SignIn);
    assert_eq!(require_auth(Some(true), token, &Vec::new(), T0), Access::SignIn);
    assert_eq!(require_auth(Some(false), token, &rows(), T0), Access::SetupRequired);
    assert_eq!(require_auth(None, token, &rows(), T0), Access::Failed);
}

#[test]
fn page_refusals_are_answered() {
    assert!(Access::Allowed.refusal().is_none());
    let sign_in = Access::SignIn.refusal().unwrap();
    assert_eq!((sign_in.status, sign_in.location.as_deref()), (303, Some("/login")));
    let setup = Access::SetupRequired.refusal().unwrap();
    assert_eq!(setup.status, 503);
    assert_eq!(
        setup.body,
        "canari has no password yet.\n\nSet one with:  canari admin set-password\n"
    );
    assert_eq!(setup.content_type.as_deref(), Some("text/plain; charset=utf-8"));
    assert_eq!(Access::Failed.refusal().unwrap().status, 500);
}

#[test]
fn purged_sessions_were_no_longer_valid() {
    let old = open_session("old".into(), T0 - SESSION_TTL - 1);
    let new = open_session("new".into(), T0);
    assert!(old.row.expires_at < new.purge_before);
    assert!(!session_is_valid(&vec![old.row], "old", T0));
}

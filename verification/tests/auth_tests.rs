use blog_core::auth::{login, logout, resolve_identity, Auth, CookieJar};
use blog_core::errors::BlogError;
use blog_core::gate::GlobalContext;
use blog_core::session::{SessionStore, UserState};

fn anonymous() -> Auth {
    Auth::default()
}

#[test]
fn missing_header_resolves_to_default() {
    let store = SessionStore::new();
    let auth = resolve_identity(None, &store);
    assert_eq!(auth.id, None);
    assert_eq!(auth.user_state, UserState::Unknown);
}

#[test]
fn malformed_headers_resolve_to_default() {
    let store = SessionStore::new();
    for header in [
        "",
        "noequals",
        "a=b=c",
        "auth=1; broken",
        "auth=1;x=y=z",
        ";",
        "=;=;=x=y",
    ] {
        let auth = resolve_identity(Some(header), &store);
        assert_eq!(auth.id, None, "header {:?} must resolve anonymous", header);
        assert_eq!(auth.user_state, UserState::Unknown);
    }
}

#[test]
fn unknown_cookie_name_resolves_to_default() {
    let store = SessionStore::new();
    let auth = resolve_identity(Some("session=12345"), &store);
    assert_eq!(auth, Auth::default());
}

#[test]
fn non_numeric_auth_cookie_resolves_to_default() {
    let mut store = SessionStore::new();
    let _ = store.create(UserState::Admin);
    let auth = resolve_identity(Some("auth=notanumber"), &store);
    assert_eq!(auth, Auth::default());
}

#[test]
fn unknown_session_id_resolves_to_default() {
    let store = SessionStore::new();
    let auth = resolve_identity(Some("auth=42"), &store);
    assert_eq!(auth, Auth::default());
}

#[test]
fn registered_session_resolves_to_its_identity() {
    let mut store = SessionStore::new();
    let id = store.create(UserState::Admin);
    let header = format!("auth={}", id);
    let auth = resolve_identity(Some(header.as_str()), &store);
    assert_eq!(auth.id, Some(id));
    assert_eq!(auth.user_state, UserState::Admin);
    assert!(auth.is_admin());
    assert!(!auth.is_user());
}

#[test]
fn cookie_jar_parses_pairs_in_order() {
    let jar = CookieJar::try_parse("a=1;b=2;auth=7").expect("well-formed header");
    assert_eq!(jar.try_get("a"), Some("1"));
    assert_eq!(jar.try_get("b"), Some("2"));
    assert_eq!(jar.try_get("auth"), Some("7"));
    assert_eq!(jar.try_get("missing"), None);
}

#[test]
fn cookie_jar_keeps_first_match_and_no_trimming() {
    let jar = CookieJar::try_parse("k=first;k=second; k=spaced").expect("well-formed header");
    assert_eq!(jar.try_get("k"), Some("first"));
    // the third pair's name begins with a space, so it is a different name
    assert_eq!(jar.try_get(" k"), Some("spaced"));
}

#[test]
fn cookie_jar_rejects_whole_header_on_one_bad_pair() {
    assert!(CookieJar::try_parse("good=1;bad").is_none());
    assert!(CookieJar::try_parse("bad;good=1").is_none());
    assert!(CookieJar::try_parse("a=b=c").is_none());
    assert!(CookieJar::try_parse("").is_none());
}

#[test]
fn login_with_correct_credentials_creates_admin_session() {
    let mut store = SessionStore::new();
    let id = login(&mut store, "admin", "secret", "admin", "secret").expect("login must succeed");
    assert_eq!(store.len(), 1);
    assert_eq!(store.lookup(id), Some(UserState::Admin));

    // the cookie value round-trips through its decimal string form
    let header = format!("auth={}", id);
    let auth = resolve_identity(Some(header.as_str()), &store);
    assert_eq!(auth.id, Some(id));
    assert_eq!(auth.user_state, UserState::Admin);
}

#[test]
fn login_failure_is_generic_and_creates_nothing() {
    let mut store = SessionStore::new();
    let wrong_user = login(&mut store, "nobody", "secret", "admin", "secret");
    let wrong_password = login(&mut store, "admin", "wrong", "admin", "secret");
    let wrong_both = login(&mut store, "nobody", "wrong", "admin", "secret");
    // one generic error whichever part was wrong: the response does not
    // leak whether the username or the password failed
    assert_eq!(wrong_user, Err(BlogError::Unauthorized));
    assert_eq!(wrong_password, Err(BlogError::Unauthorized));
    assert_eq!(wrong_both, Err(BlogError::Unauthorized));
    assert_eq!(BlogError::Unauthorized.message(), "not authorized");
    assert_eq!(store.len(), 0);
}

#[test]
fn logout_removes_the_session() {
    let mut store = SessionStore::new();
    let id = login(&mut store, "admin", "pw", "admin", "pw").expect("login must succeed");
    let header = format!("auth={}", id);
    let auth = resolve_identity(Some(header.as_str()), &store);
    assert!(auth.is_admin());

    logout(&auth, &mut store).expect("admin logout must succeed");
    assert_eq!(store.len(), 0);
    assert_eq!(store.lookup(id), None);

    // a later lookup by the same session id yields the default identity
    let after = resolve_identity(Some(header.as_str()), &store);
    assert_eq!(after, Auth::default());
}

#[test]
fn logout_rejects_non_admin() {
    let mut store = SessionStore::new();
    let id = store.create(UserState::User);
    let auth = Auth::new(id, UserState::User);
    assert_eq!(logout(&auth, &mut store), Err(BlogError::Unauthorized));
    assert_eq!(store.len(), 1);
    assert_eq!(logout(&anonymous(), &mut store), Err(BlogError::Unauthorized));
    assert_eq!(store.len(), 1);
}

#[test]
fn global_context_carries_the_user_state() {
    let mut store = SessionStore::new();
    let id = store.create(UserState::Admin);
    let ctx = GlobalContext::new(&Auth::new(id, UserState::Admin));
    assert_eq!(ctx.user_state, UserState::Admin);
    let anon_ctx = GlobalContext::new(&anonymous());
    assert_eq!(anon_ctx.user_state, UserState::Unknown);
}

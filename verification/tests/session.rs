use rust_buck3t::consts::Config;
use rust_buck3t::error::ApiError;
use rust_buck3t::routes::session::{
    check_credentials, default_scope, find_user, join_spaced, login, signup, sorted_distinct,
    token_ttl, StoredUser, TokenGrant, DEFAULT_TTL_SECS,
};

fn user(name: &str, password: &str) -> StoredUser {
    StoredUser { username: name.to_string(), password: password.to_string() }
}

fn strings(items: &[&str]) -> Vec<String> {
    items.iter().map(|s| s.to_string()).collect()
}

fn config(vars: &[(&str, &str)]) -> Config {
    let vars: Vec<(String, String)> =
        vars.iter().map(|(k, v)| (k.to_string(), v.to_string())).collect();
    Config::from_vars(&vars)
}

fn hs() -> Config {
    config(&[("AUTH_MODE", "jwt_hs256"), ("JWT_HS_SECRET", "s"), ("HOST", "127.0.0.1"), ("PORT", "8081")])
}

#[test]
fn signup_takes_a_free_name() {
    let users = vec![user("ann", "pw1")];
    assert_eq!(signup(&users, "bob", "pw2"), Ok(user("bob", "pw2")));
    assert_eq!(signup(&Vec::new(), "ann", ""), Ok(user("ann", "")));
}

#[test]
fn signup_of_a_taken_name_is_a_conflict() {
    let users = vec![user("ann", "pw1"), user("bob", "pw2")];
    let err = signup(&users, "bob", "other").unwrap_err();
    assert_eq!(err, ApiError::Conflict);
    assert_eq!(err.status(), 409);
    assert!(signup(&users, "Bob", "other").is_ok());
}

#[test]
fn users_are_found_by_name() {
    let users = vec![user("ann", "pw1"), user("bob", "pw2"), user("ann", "pw3")];
    assert_eq!(find_user(&users, "ann"), Some(0));
    assert_eq!(find_user(&users, "bob"), Some(1));
    assert_eq!(find_user(&users, "cy"), None);
    assert_eq!(find_user(&Vec::new(), "ann"), None);
}

#[test]
fn credentials() {
    let users = vec![user("ann", "pw1"), user("bob", "pw2"), user("ann", "pw3")];
    assert!(check_credentials(&users, "ann", "pw1"));
    assert!(check_credentials(&users, "bob", "pw2"));
    assert!(!check_credentials(&users, "ann", "pw3"));
    assert!(!check_credentials(&users, "ann", "pw2"));
    assert!(!check_credentials(&users, "ann", ""));
    assert!(!check_credentials(&users, "cy", "pw1"));
}

#[test]
fn lifetime_is_capped() {
    assert_eq!(DEFAULT_TTL_SECS, 900);
    assert_eq!(token_ttl(None, 900), 900);
    assert_eq!(token_ttl(None, 60), 60);
    assert_eq!(token_ttl(None, 3600), 900);
    assert_eq!(token_ttl(Some(30), 900), 30);
    assert_eq!(token_ttl(Some(3600), 900), 900);
    assert_eq!(token_ttl(Some(0), 900), 0);
    assert_eq!(token_ttl(Some(5), 0), 0);
    assert_eq!(token_ttl(Some(u64::MAX), u64::MAX), u64::MAX);
}

#[test]
fn joining() {
    assert_eq!(join_spaced(&Vec::new()), "");
    assert_eq!(join_spaced(&strings(&["a"])), "a");
    assert_eq!(join_spaced(&strings(&["a", "b", "c"])), "a b c");
    assert_eq!(join_spaced(&strings(&["", ""])), " ");
}

#[test]
fn sorting_without_repeats() {
    let all = strings(&["obj:write", "obj:read", "admin", "obj:read", "obj:list", "admin", "Z"]);
    let mut want = all.clone();
    want.sort();
    want.dedup();
    assert_eq!(sorted_distinct(&all), want);
    assert_eq!(sorted_distinct(&Vec::new()), Vec::<String>::new());
    assert_eq!(sorted_distinct(&strings(&["x", "x", "x"])), strings(&["x"]));
}

#[test]
fn default_scopes() {
    assert_eq!(default_scope(&hs()), "obj:list obj:read obj:write");
    let custom = config(&[
        ("JWT_SCOPES_WRITE", "rw, admin"),
        ("JWT_SCOPES_READ", "rw, ro"),
        ("JWT_SCOPES_LIST", ""),
    ]);
    assert_eq!(default_scope(&custom), "admin ro rw");
    let none = config(&[("JWT_SCOPES_WRITE", ""), ("JWT_SCOPES_READ", ""), ("JWT_SCOPES_LIST", "")]);
    assert_eq!(default_scope(&none), "obj:write obj:read obj:list");
}

#[test]
fn login_grants_a_token() {
    let users = vec![user("ann", "pw1")];
    let grant = login(&hs(), &users, "ann", "pw1", None, None, 1_000).unwrap();
    assert_eq!(
        grant,
        TokenGrant {
            sub: "ann".to_string(),
            scope: "obj:list obj:read obj:write".to_string(),
            exp: 1_900,
            iss: "http://127.0.0.1:8081".to_string(),
            aud: None,
            expires_in: 900,
        }
    );
    let mut cfg = hs();
    cfg.jwt_audience = Some("bucket".to_string());
    cfg.auth_max_ttl_secs = 60;
    let grant = login(&cfg, &users, "ann", "pw1", Some("obj:read"), Some(3600), 1_000).unwrap();
    assert_eq!(grant.scope, "obj:read");
    assert_eq!(grant.expires_in, 60);
    assert_eq!(grant.exp, 1_060);
    assert_eq!(grant.aud, Some("bucket".to_string()));
    let grant = login(&hs(), &users, "ann", "pw1", None, Some(10), u64::MAX - 3).unwrap();
    assert_eq!(grant.exp, u64::MAX);
}

#[test]
fn login_failures() {
    let users = vec![user("ann", "pw1")];
    let off = config(&[("AUTH_MODE", "off")]);
    let err = login(&off, &users, "ann", "pw1", None, None, 0).unwrap_err();
    assert_eq!(err, ApiError::InvalidArgument);
    assert_eq!(err.status(), 400);
    let rs = config(&[("JWT_HS_SECRET", "s")]);
    assert_eq!(login(&rs, &users, "ann", "pw1", None, None, 0).unwrap_err(), ApiError::InvalidArgument);
    let no_secret = config(&[("AUTH_MODE", "jwt_hs256")]);
    assert_eq!(
        login(&no_secret, &users, "ann", "pw1", None, None, 0).unwrap_err(),
        ApiError::Misconfigured
    );
    assert_eq!(
        login(&no_secret, &users, "ann", "wrong", None, None, 0).unwrap_err(),
        ApiError::Misconfigured
    );
    assert_eq!(login(&hs(), &users, "ann", "wrong", None, None, 0).unwrap_err(), ApiError::Unauthenticated);
    assert_eq!(login(&hs(), &users, "bob", "pw1", None, None, 0).unwrap_err(), ApiError::Unauthenticated);
    assert_eq!(login(&hs(), &Vec::new(), "", "", None, None, 0).unwrap_err(), ApiError::Unauthenticated);
}

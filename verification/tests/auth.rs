use jsonwebtoken::{encode, Algorithm, EncodingKey, Header};
use rust_buck3t::auth::{
    anonymous_user, aud_matches, aud_values, auth_gate, bearer_token, check_claims, check_scopes,
    claims_of, is_protected, require_any_scope, scopes_from_claims, scopes_required,
    verify_hs256, Audience, AuthError, AuthUser, Claims, NeedList, NeedRead, NeedWrite,
    RouteClass,
};
use rust_buck3t::consts::{AuthMode, Config};
use rust_buck3t::error::ApiError;
use serde_json::{Number, Value};

const SECRET: &str = "test-secret";
const NOW: u64 = 1_000;
const LATER: u64 = 2_000;

fn strings(items: &[&str]) -> Vec<String> {
    items.iter().map(|s| s.to_string()).collect()
}

fn config(vars: &[(&str, &str)]) -> Config {
    let vars: Vec<(String, String)> =
        vars.iter().map(|(k, v)| (k.to_string(), v.to_string())).collect();
    Config::from_vars(&vars)
}

fn hs_config() -> Config {
    config(&[("AUTH_MODE", "jwt_hs256"), ("JWT_HS_SECRET", SECRET)])
}

fn no_claims() -> Claims {
    Claims {
        sub: None,
        exp: None,
        iss: None,
        aud: Audience::Absent,
        scope: None,
        scopes: None,
        scp: None,
    }
}

fn object(members: Vec<(&str, Value)>) -> Value {
    let mut map = serde_json::Map::new();
    for (k, v) in members {
        map.insert(k.to_string(), v);
    }
    Value::Object(map)
}

fn s(text: &str) -> Value {
    Value::String(text.to_string())
}

fn n(number: u64) -> Value {
    Value::Number(Number::from(number))
}

fn mint_with(secret: &str, alg: Algorithm, claims: &Value) -> String {
    encode(&Header::new(alg), claims, &EncodingKey::from_secret(secret.as_bytes())).unwrap()
}

fn mint(claims: &Value) -> String {
    mint_with(SECRET, Algorithm::HS256, claims)
}

fn bearer(token: &str) -> String {
    format!("Bearer {}", token)
}

#[test]
fn any_overlap_of_scopes_suffices() {
    let required = strings(&["obj:write", "admin"]);
    assert!(require_any_scope(&required, &strings(&["obj:read", "admin"])));
    assert!(require_any_scope(&required, &strings(&["obj:write"])));
    assert!(!require_any_scope(&required, &strings(&["obj:read"])));
    assert!(!require_any_scope(&required, &strings(&[])));
    assert!(!require_any_scope(&required, &strings(&["obj:writ", "OBJ:WRITE", "obj:write "])));
}

#[test]
fn empty_requirement_lets_everyone_through() {
    assert!(require_any_scope(&strings(&[]), &strings(&[])));
    assert!(require_any_scope(&strings(&[]), &strings(&["x"])));
}

#[test]
fn bearer_token_of_a_header() {
    assert_eq!(bearer_token(Some("Bearer abc")), Ok("abc".to_string()));
    assert_eq!(bearer_token(Some("Bearer   abc  ")), Ok("abc".to_string()));
    assert_eq!(bearer_token(Some("Bearer ")), Ok(String::new()));
    assert_eq!(bearer_token(Some("Bearer a b")), Ok("a b".to_string()));
    assert_eq!(bearer_token(Some("bearer abc")), Err(()));
    assert_eq!(bearer_token(Some("Bearer")), Err(()));
    assert_eq!(bearer_token(Some(" Bearer abc")), Err(()));
    assert_eq!(bearer_token(Some("Basic abc")), Err(()));
    assert_eq!(bearer_token(Some("")), Err(()));
    assert_eq!(bearer_token(None), Err(()));
}

#[test]
fn scopes_first_present_claim_wins() {
    let mut c = no_claims();
    assert_eq!(scopes_from_claims(&c), Vec::<String>::new());

    c.scp = Some("x  y".to_string());
    assert_eq!(scopes_from_claims(&c), strings(&["x", "y"]));

    c.scopes = Some(vec![Some("p".to_string()), None, Some("q r".to_string())]);
    assert_eq!(scopes_from_claims(&c), strings(&["p", "q r"]));

    c.scope = Some(" obj:read\tobj:write\n".to_string());
    assert_eq!(scopes_from_claims(&c), strings(&["obj:read", "obj:write"]));

    c.scope = Some(String::new());
    assert_eq!(scopes_from_claims(&c), Vec::<String>::new());

    c.scope = None;
    c.scopes = Some(Vec::new());
    assert_eq!(scopes_from_claims(&c), Vec::<String>::new());
}

#[test]
fn audience_forms() {
    let mut c = no_claims();
    assert!(!aud_matches("api", &c));
    assert_eq!(aud_values(&c), Vec::<String>::new());

    c.aud = Audience::One("api".to_string());
    assert!(aud_matches("api", &c));
    assert!(!aud_matches("ap", &c));
    assert_eq!(aud_values(&c), strings(&["api"]));

    c.aud = Audience::Many(vec![Some("web".to_string()), None, Some("api".to_string())]);
    assert!(aud_matches("api", &c));
    assert!(aud_matches("web", &c));
    assert!(!aud_matches("other", &c));
    assert_eq!(aud_values(&c), strings(&["web", "api"]));

    c.aud = Audience::Many(Vec::new());
    assert!(!aud_matches("api", &c));
    assert_eq!(aud_values(&c), Vec::<String>::new());
}

#[test]
fn claims_expiry() {
    let cfg = hs_config();
    let mut c = no_claims();
    assert_eq!(check_claims(&cfg, &c, NOW).unwrap_err(), AuthError::Unauthenticated);
    c.exp = Some(NOW);
    assert_eq!(check_claims(&cfg, &c, NOW).unwrap_err(), AuthError::Unauthenticated);
    c.exp = Some(NOW - 1);
    assert_eq!(check_claims(&cfg, &c, NOW).unwrap_err(), AuthError::Unauthenticated);
    c.exp = Some(NOW + 1);
    assert!(check_claims(&cfg, &c, NOW).is_ok());
    c.exp = Some(u64::MAX);
    assert!(check_claims(&cfg, &c, u64::MAX - 1).is_ok());
    assert!(check_claims(&cfg, &c, u64::MAX).is_err());
}

#[test]
fn claims_issuer_allow_list() {
    let cfg = config(&[
        ("AUTH_MODE", "jwt_hs256"),
        ("JWT_HS_SECRET", SECRET),
        ("JWT_ISSUERS", "https://a.example, https://b.example"),
    ]);
    let mut c = no_claims();
    c.exp = Some(LATER);
    assert_eq!(check_claims(&cfg, &c, NOW).unwrap_err(), AuthError::Unauthenticated);
    c.iss = Some("https://c.example".to_string());
    assert_eq!(check_claims(&cfg, &c, NOW).unwrap_err(), AuthError::Unauthenticated);
    c.iss = Some("https://b.example".to_string());
    let user = check_claims(&cfg, &c, NOW).unwrap();
    assert_eq!(user.iss, Some("https://b.example".to_string()));

    // without a list any issuer, or none, passes
    let open = hs_config();
    c.iss = Some("anyone".to_string());
    assert!(check_claims(&open, &c, NOW).is_ok());
    c.iss = None;
    assert!(check_claims(&open, &c, NOW).is_ok());
}

#[test]
fn claims_audience() {
    let cfg = config(&[
        ("AUTH_MODE", "jwt_hs256"),
        ("JWT_HS_SECRET", SECRET),
        ("JWT_AUDIENCE", "bucket"),
    ]);
    let mut c = no_claims();
    c.exp = Some(LATER);
    assert_eq!(check_claims(&cfg, &c, NOW).unwrap_err(), AuthError::Unauthenticated);
    c.aud = Audience::One("other".to_string());
    assert_eq!(check_claims(&cfg, &c, NOW).unwrap_err(), AuthError::Unauthenticated);
    c.aud = Audience::One("bucket".to_string());
    assert!(check_claims(&cfg, &c, NOW).is_ok());
    c.aud = Audience::Many(vec![Some("x".to_string()), Some("bucket".to_string())]);
    let user = check_claims(&cfg, &c, NOW).unwrap();
    assert_eq!(user.aud, strings(&["x", "bucket"]));
}

#[test]
fn claims_make_the_user() {
    let cfg = hs_config();
    let c = Claims {
        sub: Some("u1".to_string()),
        exp: Some(LATER),
        iss: Some("idp".to_string()),
        aud: Audience::One("api".to_string()),
        scope: Some("obj:write obj:read".to_string()),
        scopes: None,
        scp: None,
    };
    let user = check_claims(&cfg, &c, NOW).unwrap();
    assert_eq!(user.sub, Some("u1".to_string()));
    assert_eq!(user.scopes, strings(&["obj:write", "obj:read"]));
    assert_eq!(user.iss, Some("idp".to_string()));
    assert_eq!(user.aud, strings(&["api"]));
}

#[test]
fn scope_check_per_class() {
    let cfg = hs_config();
    let user = |scopes: &[&str]| AuthUser {
        sub: None,
        scopes: strings(scopes),
        iss: None,
        aud: Vec::new(),
    };
    assert!(check_scopes(&cfg, RouteClass::Write, user(&["obj:write"])).is_ok());
    assert!(check_scopes(&cfg, RouteClass::Read, user(&["obj:read"])).is_ok());
    assert!(check_scopes(&cfg, RouteClass::List, user(&["obj:list"])).is_ok());
    assert_eq!(
        check_scopes(&cfg, RouteClass::Write, user(&["obj:read", "obj:list"])).unwrap_err(),
        AuthError::Forbidden
    );
    assert_eq!(
        check_scopes(&cfg, RouteClass::List, user(&[])).unwrap_err(),
        AuthError::Forbidden
    );
    let kept = check_scopes(&cfg, RouteClass::Write, user(&["x", "obj:write"])).unwrap();
    assert_eq!(kept.scopes, strings(&["x", "obj:write"]));

    let mut none_required = hs_config();
    none_required.jwt_scopes_write = Vec::new();
    assert!(check_scopes(&none_required, RouteClass::Write, user(&[])).is_ok());
}

#[test]
fn claims_are_read_from_json() {
    let payload = object(vec![
        ("sub", s("u1")),
        ("exp", n(2000)),
        ("iss", s("idp")),
        ("aud", Value::Array(vec![s("a"), n(3), s("b")])),
        ("scope", s("r w")),
        ("scopes", Value::Array(vec![s("x"), Value::Null])),
        ("scp", s("z")),
    ]);
    let c = claims_of(&payload);
    assert_eq!(c.sub, Some("u1".to_string()));
    assert_eq!(c.exp, Some(2000));
    assert_eq!(c.iss, Some("idp".to_string()));
    match c.aud {
        Audience::Many(items) => {
            assert_eq!(items, vec![Some("a".to_string()), None, Some("b".to_string())])
        }
        other => panic!("unexpected {:?}", other),
    }
    assert_eq!(c.scope, Some("r w".to_string()));
    assert_eq!(c.scopes, Some(vec![Some("x".to_string()), None]));
    assert_eq!(c.scp, Some("z".to_string()));
}

#[test]
fn claims_of_another_type_count_as_missing() {
    let payload = object(vec![
        ("sub", n(7)),
        ("exp", s("2000")),
        ("iss", Value::Bool(true)),
        ("aud", n(1)),
        ("scope", Value::Array(vec![s("x")])),
        ("scopes", s("x y")),
        ("scp", Value::Null),
    ]);
    let c = claims_of(&payload);
    assert_eq!(c.sub, None);
    assert_eq!(c.exp, None);
    assert_eq!(c.iss, None);
    assert!(matches!(c.aud, Audience::Absent));
    assert_eq!(c.scope, None);
    assert_eq!(c.scopes, None);
    assert_eq!(c.scp, None);

    let single = claims_of(&object(vec![("aud", s("api"))]));
    assert!(matches!(single.aud, Audience::One(ref a) if a == "api"));

    let negative = claims_of(&object(vec![("exp", Value::Number(Number::from(-5i64)))]));
    assert_eq!(negative.exp, None);

    let not_an_object = claims_of(&Value::Array(vec![s("sub")]));
    assert_eq!(not_an_object.sub, None);
}

#[test]
fn token_signed_with_the_secret_is_taken() {
    let cfg = hs_config();
    let token = mint(&object(vec![("sub", s("u1")), ("exp", n(LATER)), ("scope", s("obj:write"))]));
    let user = verify_hs256(&cfg, token.as_str(), Some(NOW)).unwrap();
    assert_eq!(user.sub, Some("u1".to_string()));
    assert_eq!(user.scopes, strings(&["obj:write"]));
    assert_eq!(user.iss, None);
    assert_eq!(user.aud, Vec::<String>::new());
}

#[test]
fn token_with_audience_claim_is_taken() {
    let token = mint(&object(vec![("exp", n(LATER)), ("aud", s("bucket"))]));
    // no audience configured: the claim is not judged
    let user = verify_hs256(&hs_config(), token.as_str(), Some(NOW)).unwrap();
    assert_eq!(user.aud, strings(&["bucket"]));
    // the configured audience is met
    let cfg = config(&[("AUTH_MODE", "jwt_hs256"), ("JWT_HS_SECRET", SECRET), ("JWT_AUDIENCE", "bucket")]);
    assert!(verify_hs256(&cfg, token.as_str(), Some(NOW)).is_ok());
    // another configured audience is not
    let cfg = config(&[("AUTH_MODE", "jwt_hs256"), ("JWT_HS_SECRET", SECRET), ("JWT_AUDIENCE", "vault")]);
    assert_eq!(
        verify_hs256(&cfg, token.as_str(), Some(NOW)).unwrap_err(),
        AuthError::Unauthenticated
    );
}

#[test]
fn token_that_does_not_hold_is_unauthenticated() {
    let cfg = hs_config();
    let claims = object(vec![("sub", s("u1")), ("exp", n(LATER))]);

    let wrong_secret = mint_with("other-secret", Algorithm::HS256, &claims);
    assert_eq!(
        verify_hs256(&cfg, wrong_secret.as_str(), Some(NOW)).unwrap_err(),
        AuthError::Unauthenticated
    );

    let wrong_algorithm = mint_with(SECRET, Algorithm::HS384, &claims);
    assert_eq!(
        verify_hs256(&cfg, wrong_algorithm.as_str(), Some(NOW)).unwrap_err(),
        AuthError::Unauthenticated
    );

    let good = mint(&claims);
    let mut tampered = good.clone();
    let last = tampered.pop().unwrap();
    tampered.push(if last == 'A' { 'B' } else { 'A' });
    assert_eq!(
        verify_hs256(&cfg, tampered.as_str(), Some(NOW)).unwrap_err(),
        AuthError::Unauthenticated
    );

    for junk in ["", "abc", "a.b.c", "a.b", SECRET] {
        assert_eq!(
            verify_hs256(&cfg, junk, Some(NOW)).unwrap_err(),
            AuthError::Unauthenticated
        );
    }

    let no_exp = mint(&object(vec![("sub", s("u1"))]));
    assert_eq!(
        verify_hs256(&cfg, no_exp.as_str(), Some(NOW)).unwrap_err(),
        AuthError::Unauthenticated
    );

    // expired, and expiring at this very second
    assert_eq!(
        verify_hs256(&cfg, good.as_str(), Some(LATER + 1)).unwrap_err(),
        AuthError::Unauthenticated
    );
    assert_eq!(
        verify_hs256(&cfg, good.as_str(), Some(LATER)).unwrap_err(),
        AuthError::Unauthenticated
    );
    assert!(verify_hs256(&cfg, good.as_str(), Some(LATER - 1)).is_ok());

    // no clock
    assert_eq!(verify_hs256(&cfg, good.as_str(), None).unwrap_err(), AuthError::Unauthenticated);
}

#[test]
fn missing_secret_is_a_misconfiguration() {
    let cfg = config(&[("AUTH_MODE", "jwt_hs256")]);
    let token = mint(&object(vec![("exp", n(LATER))]));
    assert_eq!(
        verify_hs256(&cfg, token.as_str(), Some(NOW)).unwrap_err(),
        AuthError::Misconfigured
    );
    let blank = config(&[("AUTH_MODE", "jwt_hs256"), ("JWT_HS_SECRET", "   ")]);
    assert_eq!(
        verify_hs256(&blank, token.as_str(), Some(NOW)).unwrap_err(),
        AuthError::Misconfigured
    );
}

#[test]
fn open_routes_pass_anonymously() {
    let off = config(&[("AUTH_MODE", "off")]);
    for class in [RouteClass::Write, RouteClass::Read, RouteClass::List] {
        let user = auth_gate(&off, class, None, None).unwrap();
        assert_eq!(user.sub, None);
        assert!(user.scopes.is_empty());
        assert_eq!(user.iss, None);
        assert!(user.aud.is_empty());
    }
    // by default only writing is protected
    let cfg = hs_config();
    assert!(auth_gate(&cfg, RouteClass::Read, None, Some(NOW)).is_ok());
    assert!(auth_gate(&cfg, RouteClass::List, Some("garbage"), Some(NOW)).is_ok());
    assert!(auth_gate(&cfg, RouteClass::Write, None, Some(NOW)).is_err());
}

#[test]
fn protected_route_without_bearer_is_unauthenticated() {
    let cfg = config(&[
        ("AUTH_MODE", "jwt_hs256"),
        ("JWT_HS_SECRET", SECRET),
        ("AUTH_READ", "1"),
        ("AUTH_LIST", "yes"),
    ]);
    for class in [RouteClass::Write, RouteClass::Read, RouteClass::List] {
        for header in [None, Some(""), Some("Basic dXNlcjpwdw=="), Some("bearer x"), Some("Bearer")] {
            assert_eq!(
                auth_gate(&cfg, class, header, Some(NOW)).unwrap_err(),
                AuthError::Unauthenticated
            );
        }
    }
    // the same holds before the missing verifier is even looked at
    let rs = config(&[]);
    assert_eq!(rs.auth_mode, AuthMode::JwtRs256);
    assert_eq!(
        auth_gate(&rs, RouteClass::Write, None, Some(NOW)).unwrap_err(),
        AuthError::Unauthenticated
    );
}

#[test]
fn asymmetric_mode_fails_closed() {
    let rs = config(&[]);
    let token = mint(&object(vec![("exp", n(LATER)), ("scope", s("obj:write"))]));
    let header = bearer(token.as_str());
    let err = auth_gate(&rs, RouteClass::Write, Some(header.as_str()), Some(NOW)).unwrap_err();
    assert_eq!(err, AuthError::Misconfigured);
    assert_eq!(ApiError::from_auth(err).status(), 500);
}

#[test]
fn token_with_other_scopes_is_forbidden_not_unauthenticated() {
    let cfg = hs_config();
    let token = mint(&object(vec![("exp", n(LATER)), ("scope", s("obj:read obj:list"))]));
    let header = bearer(token.as_str());
    let err = auth_gate(&cfg, RouteClass::Write, Some(header.as_str()), Some(NOW)).unwrap_err();
    assert_eq!(err, AuthError::Forbidden);
    assert_eq!(ApiError::from_auth(err).status(), 403);

    let no_scopes = mint(&object(vec![("exp", n(LATER))]));
    let header = bearer(no_scopes.as_str());
    assert_eq!(
        auth_gate(&cfg, RouteClass::Write, Some(header.as_str()), Some(NOW)).unwrap_err(),
        AuthError::Forbidden
    );
}

#[test]
fn token_with_the_scope_passes() {
    let cfg = hs_config();
    for claims in [
        object(vec![("exp", n(LATER)), ("sub", s("u1")), ("scope", s("obj:read obj:write"))]),
        object(vec![("exp", n(LATER)), ("sub", s("u1")), ("scopes", Value::Array(vec![s("obj:write")]))]),
        object(vec![("exp", n(LATER)), ("sub", s("u1")), ("scp", s("obj:write"))]),
    ] {
        let header = bearer(mint(&claims).as_str());
        let user = auth_gate(&cfg, RouteClass::Write, Some(header.as_str()), Some(NOW)).unwrap();
        assert_eq!(user.sub, Some("u1".to_string()));
        assert!(user.scopes.contains(&"obj:write".to_string()));
    }
}

#[test]
fn extractors_follow_their_class() {
    let cfg = config(&[
        ("AUTH_MODE", "jwt_hs256"),
        ("JWT_HS_SECRET", SECRET),
        ("AUTH_READ", "true"),
        ("AUTH_LIST", "on"),
    ]);
    let token = mint(&object(vec![("exp", n(LATER)), ("sub", s("u1")), ("scope", s("obj:read"))]));
    let header = bearer(token.as_str());
    let h = Some(header.as_str());
    assert_eq!(NeedRead::from_request(&cfg, h, Some(NOW)).unwrap().0.sub, Some("u1".to_string()));
    assert_eq!(NeedWrite::from_request(&cfg, h, Some(NOW)).err(), Some(AuthError::Forbidden));
    assert_eq!(NeedList::from_request(&cfg, h, Some(NOW)).err(), Some(AuthError::Forbidden));
    assert_eq!(NeedRead::from_request(&cfg, None, Some(NOW)).err(), Some(AuthError::Unauthenticated));
}

#[test]
fn policy_of_each_class() {
    let cfg = config(&[
        ("AUTH_WRITE", "0"),
        ("AUTH_READ", "1"),
        ("JWT_SCOPES_WRITE", "w"),
        ("JWT_SCOPES_READ", "r1,r2"),
        ("JWT_SCOPES_LIST", ""),
    ]);
    assert!(!is_protected(&cfg, RouteClass::Write));
    assert!(is_protected(&cfg, RouteClass::Read));
    assert!(!is_protected(&cfg, RouteClass::List));
    assert_eq!(scopes_required(&cfg, RouteClass::Write), &strings(&["w"]));
    assert_eq!(scopes_required(&cfg, RouteClass::Read), &strings(&["r1", "r2"]));
    assert_eq!(scopes_required(&cfg, RouteClass::List), &strings(&[]));
}

#[test]
fn the_anonymous_caller_holds_nothing() {
    let user = anonymous_user();
    assert_eq!(user.sub, None);
    assert_eq!(user.iss, None);
    assert!(user.scopes.is_empty());
    assert!(user.aud.is_empty());
}

#[test]
fn protected_class_without_required_scopes_takes_any_token_that_holds() {
    let cfg = config(&[("AUTH_MODE", "jwt_hs256"), ("JWT_HS_SECRET", SECRET), ("JWT_SCOPES_WRITE", "")]);
    let token = mint(&object(vec![("exp", n(LATER))]));
    let header = bearer(token.as_str());
    assert!(auth_gate(&cfg, RouteClass::Write, Some(header.as_str()), Some(NOW)).is_ok());
    assert_eq!(
        auth_gate(&cfg, RouteClass::Write, None, Some(NOW)).unwrap_err(),
        AuthError::Unauthenticated
    );
}

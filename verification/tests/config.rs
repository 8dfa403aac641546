use rust_buck3t::consts::{
    csv_list, find_var, is_truthy, parse_auth_mode, parse_bool, parse_csv, AuthMode, Config,
};

fn vars(pairs: &[(&str, &str)]) -> Vec<(String, String)> {
    pairs.iter().map(|(k, v)| (k.to_string(), v.to_string())).collect()
}

fn strings(items: &[&str]) -> Vec<String> {
    items.iter().map(|s| s.to_string()).collect()
}

#[test]
fn csv_items() {
    assert_eq!(parse_csv(None), None);
    assert_eq!(parse_csv(Some("a,b".to_string())), Some(strings(&["a", "b"])));
    assert_eq!(parse_csv(Some(" a , b ,, c,".to_string())), Some(strings(&["a", "b", "c"])));
    assert_eq!(parse_csv(Some(String::new())), Some(Vec::new()));
    assert_eq!(parse_csv(Some(" , ,".to_string())), Some(Vec::new()));
    assert_eq!(parse_csv(Some("one".to_string())), Some(strings(&["one"])));
    assert_eq!(parse_csv(Some("a b,c".to_string())), Some(strings(&["a b", "c"])));
    assert_eq!(csv_list("\u{a0}x\u{2003},y\t"), strings(&["x", "y"]));
}

#[test]
fn flags() {
    assert_eq!(parse_bool(None), None);
    for on in ["1", "true", "yes", "on", "TRUE", "Yes", " on ", "oN", "\ttrue\n"] {
        assert_eq!(parse_bool(Some(on.to_string())), Some(true), "{:?}", on);
        assert!(is_truthy(on));
    }
    for off in ["0", "false", "no", "off", "", "2", "y", "t rue", "truee", "11"] {
        assert_eq!(parse_bool(Some(off.to_string())), Some(false), "{:?}", off);
        assert!(!is_truthy(off));
    }
}

#[test]
fn auth_modes() {
    assert_eq!(parse_auth_mode("jwt_hs256"), AuthMode::JwtHs256);
    assert_eq!(parse_auth_mode(" JWT_HS256 "), AuthMode::JwtHs256);
    assert_eq!(parse_auth_mode("off"), AuthMode::Off);
    assert_eq!(parse_auth_mode("OFF\n"), AuthMode::Off);
    assert_eq!(parse_auth_mode("jwt_rs256"), AuthMode::JwtRs256);
    assert_eq!(parse_auth_mode(""), AuthMode::JwtRs256);
    assert_eq!(parse_auth_mode("none"), AuthMode::JwtRs256);
    assert_eq!(parse_auth_mode("o ff"), AuthMode::JwtRs256);
}

#[test]
fn first_variable_of_a_name_counts() {
    let v = vars(&[("A", "1"), ("B", "2"), ("A", "3")]);
    assert_eq!(find_var(&v, "A"), Some(&"1".to_string()));
    assert_eq!(find_var(&v, "B"), Some(&"2".to_string()));
    assert_eq!(find_var(&v, "C"), None);
    assert_eq!(find_var(&v, "a"), None);
    assert_eq!(find_var(&Vec::new(), "A"), None);
}

#[test]
fn defaults() {
    let c = Config::from_vars(&Vec::new());
    assert_eq!(c.host, "0.0.0.0");
    assert_eq!(c.port, 8080);
    assert_eq!(c.root_dir, "data");
    assert_eq!(c.max_upload_bytes, None);
    assert_eq!(c.auth_max_ttl_secs, 900);
    assert_eq!(c.auth_mode, AuthMode::JwtRs256);
    assert!(c.auth_write);
    assert!(!c.auth_read);
    assert!(!c.auth_list);
    assert_eq!(c.jwt_scopes_write, strings(&["obj:write"]));
    assert_eq!(c.jwt_scopes_read, strings(&["obj:read"]));
    assert_eq!(c.jwt_scopes_list, strings(&["obj:list"]));
    assert_eq!(c.jwt_audience, None);
    assert_eq!(c.jwt_issuers, Vec::<String>::new());
    assert_eq!(c.jwks_urls, Vec::<String>::new());
    assert_eq!(c.jwks_ttl_secs, 300);
    assert_eq!(c.jwt_hs_secret, None);
    assert!(!c.idp_embed);
    assert_eq!(c.idp_key_dir, "./keys");
}

#[test]
fn every_variable_is_read() {
    let c = Config::from_vars(&vars(&[
        ("HOST", "127.0.0.1"),
        ("PORT", "9000"),
        ("RUST_BUCKET_DIR", "/srv/objects"),
        ("MAX_UPLOAD_BYTES", "1048576"),
        ("AUTH_MAX_TTL_SECS", "60"),
        ("AUTH_MODE", "jwt_hs256"),
        ("AUTH_WRITE", "0"),
        ("AUTH_READ", "1"),
        ("AUTH_LIST", "true"),
        ("JWT_SCOPES_WRITE", "w1, w2"),
        ("JWT_SCOPES_READ", ""),
        ("JWT_SCOPES_LIST", "l"),
        ("JWT_AUDIENCE", " bucket "),
        ("JWT_ISSUERS", "https://a, https://b"),
        ("JWKS_URLS", "https://a/jwks"),
        ("JWKS_TTL_SECS", "5"),
        ("JWT_HS_SECRET", "s3cret"),
        ("IDP_EMBED", "yes"),
        ("IDP_KEY_DIR", "/keys"),
    ]));
    assert_eq!(c.host, "127.0.0.1");
    assert_eq!(c.port, 9000);
    assert_eq!(c.root_dir, "/srv/objects");
    assert_eq!(c.max_upload_bytes, Some(1048576));
    assert_eq!(c.auth_max_ttl_secs, 60);
    assert_eq!(c.auth_mode, AuthMode::JwtHs256);
    assert!(!c.auth_write);
    assert!(c.auth_read);
    assert!(c.auth_list);
    assert_eq!(c.jwt_scopes_write, strings(&["w1", "w2"]));
    assert_eq!(c.jwt_scopes_read, Vec::<String>::new());
    assert_eq!(c.jwt_scopes_list, strings(&["l"]));
    assert_eq!(c.jwt_audience, Some(" bucket ".to_string()));
    assert_eq!(c.jwt_issuers, strings(&["https://a", "https://b"]));
    assert_eq!(c.jwks_urls, strings(&["https://a/jwks"]));
    assert_eq!(c.jwks_ttl_secs, 5);
    assert_eq!(c.jwt_hs_secret, Some("s3cret".to_string()));
    assert!(c.idp_embed);
    assert_eq!(c.idp_key_dir, "/keys");
}

#[test]
fn numbers_that_do_not_parse_fall_back() {
    let c = Config::from_vars(&vars(&[
        ("PORT", "65536"),
        ("MAX_UPLOAD_BYTES", "12k"),
        ("AUTH_MAX_TTL_SECS", ""),
        ("JWKS_TTL_SECS", " 5"),
    ]));
    assert_eq!(c.port, 8080);
    assert_eq!(c.max_upload_bytes, None);
    assert_eq!(c.auth_max_ttl_secs, 900);
    assert_eq!(c.jwks_ttl_secs, 300);

    let c = Config::from_vars(&vars(&[
        ("PORT", "65535"),
        ("MAX_UPLOAD_BYTES", "18446744073709551615"),
        ("AUTH_MAX_TTL_SECS", "+7"),
        ("JWKS_TTL_SECS", "18446744073709551616"),
    ]));
    assert_eq!(c.port, 65535);
    assert_eq!(c.max_upload_bytes, Some(u64::MAX));
    assert_eq!(c.auth_max_ttl_secs, 7);
    assert_eq!(c.jwks_ttl_secs, 300);

    let c = Config::from_vars(&vars(&[("PORT", "-1"), ("MAX_UPLOAD_BYTES", "0")]));
    assert_eq!(c.port, 8080);
    assert_eq!(c.max_upload_bytes, Some(0));
}

#[test]
fn blank_secret_and_audience_count_as_unset() {
    let c = Config::from_vars(&vars(&[("JWT_AUDIENCE", "  "), ("JWT_HS_SECRET", "")]));
    assert_eq!(c.jwt_audience, None);
    assert_eq!(c.jwt_hs_secret, None);
}

#[test]
fn mode_names_read_back() {
    for mode in [AuthMode::JwtRs256, AuthMode::JwtHs256, AuthMode::Off] {
        assert_eq!(parse_auth_mode(mode.name()), mode);
    }
    assert_eq!(AuthMode::JwtRs256.name(), "jwt_rs256");
    assert_eq!(AuthMode::JwtHs256.name(), "jwt_hs256");
    assert_eq!(AuthMode::Off.name(), "off");
}

#[test]
fn warnings_of_a_configuration() {
    let plain = Config::from_vars(&Vec::new());
    assert!(!plain.lacks_secret());
    assert!(plain.permits_no_issuer());

    let with_issuer = Config::from_vars(&vars(&[("JWT_ISSUERS", "https://idp")]));
    assert!(!with_issuer.permits_no_issuer());
    let embedded = Config::from_vars(&vars(&[("IDP_EMBED", "1")]));
    assert!(!embedded.permits_no_issuer());

    let hs = Config::from_vars(&vars(&[("AUTH_MODE", "jwt_hs256")]));
    assert!(hs.lacks_secret());
    assert!(!hs.permits_no_issuer());
    let hs_set = Config::from_vars(&vars(&[("AUTH_MODE", "jwt_hs256"), ("JWT_HS_SECRET", "x")]));
    assert!(!hs_set.lacks_secret());

    let off = Config::from_vars(&vars(&[("AUTH_MODE", "off")]));
    assert!(!off.lacks_secret());
    assert!(!off.permits_no_issuer());
}

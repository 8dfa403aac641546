//! The configuration of the gateway and how its values are read from text.

use crate::decimal::{read_unsigned, unsigned_up_to};
use crate::text::{chars_of, cut_strings, cuts, cuts_within, lowered, opt_text, range_is_lowered,
    same_text, split, split_ranges, texts, trim, trim_range};
use vstd::prelude::*;

verus! {

/// How bearer tokens are checked.
#[derive(Clone, Debug, PartialEq, Eq, Structural)]
pub enum AuthMode {
    /// Tokens are signed with a key pair whose public half is published.
    JwtRs256,
    /// Tokens are signed with a secret that the gateway shares with the issuer.
    JwtHs256,
    /// No request needs a token.
    Off,
}

#[derive(Clone, Debug)]
pub struct Config {
    pub host: String,
    pub port: u16,
    pub root_dir: String,
    /// The most bytes one upload may bring; `None` sets no bound.
    pub max_upload_bytes: Option<u64>,
    /// The longest lifetime, in seconds, of a token minted at login.
    pub auth_max_ttl_secs: u64,
    pub auth_mode: AuthMode,
    /// Whether writing and deleting need a token.
    pub auth_write: bool,
    /// Whether reading needs a token.
    pub auth_read: bool,
    /// Whether listing needs a token.
    pub auth_list: bool,
    /// The scopes of which a token needs one to write or delete.
    pub jwt_scopes_write: Vec<String>,
    /// The scopes of which a token needs one to read.
    pub jwt_scopes_read: Vec<String>,
    /// The scopes of which a token needs one to list.
    pub jwt_scopes_list: Vec<String>,
    /// The audience that a token must name, where one is set.
    pub jwt_audience: Option<String>,
    /// The issuers whose tokens are taken; empty takes any.
    pub jwt_issuers: Vec<String>,
    pub jwks_urls: Vec<String>,
    pub jwks_ttl_secs: u64,
    /// The shared secret of `AuthMode::JwtHs256`.
    pub jwt_hs_secret: Option<String>,
    pub idp_embed: bool,
    pub idp_key_dir: String,
}

/// The texts of `parts` that are not empty, in order.
pub open spec fn non_empty(parts: Seq<Seq<char>>) -> Seq<Seq<char>>
    decreases parts.len(),
{
    if parts.len() == 0 {
        Seq::empty()
    } else if parts.last().len() > 0 {
        non_empty(parts.drop_last()).push(parts.last())
    } else {
        non_empty(parts.drop_last())
    }
}

/// Each text of `parts` without the white space around it.
pub open spec fn trimmed(parts: Seq<Seq<char>>) -> Seq<Seq<char>> {
    Seq::new(parts.len(), |i: int| trim(parts[i]))
}

/// The items of a comma-separated list: what stands between the commas,
/// without the white space around it, empty items left out.
pub open spec fn csv_items(s: Seq<char>) -> Seq<Seq<char>> {
    non_empty(trimmed(split(s, ',')))
}

/// Whether `s` switches a flag on: `1`, `true`, `yes` or `on`, in any case
/// of letters and with any white space around it.
pub open spec fn truthy(s: Seq<char>) -> bool {
    let t = lowered(trim(s));
    t == "1"@ || t == "true"@ || t == "yes"@ || t == "on"@
}

/// The mode that `s` names: `jwt_hs256` and `off` name theirs, in any case
/// of letters and with any white space around them; any other text names
/// `AuthMode::JwtRs256`.
pub open spec fn auth_mode_named(s: Seq<char>) -> AuthMode {
    let t = lowered(trim(s));
    if t == "jwt_hs256"@ {
        AuthMode::JwtHs256
    } else if t == "off"@ {
        AuthMode::Off
    } else {
        AuthMode::JwtRs256
    }
}

/// The items of the comma-separated list `s`.
pub fn csv_list(s: &str) -> (r: Vec<String>)
    ensures
        texts(r@) == csv_items(s@),
{
    let v = chars_of(s);
    assert(v@.subrange(0, v.len() as int) =~= s@);
    let parts = split_ranges(&v, 0, v.len(), ',');
    let ghost pieces = trimmed(split(s@, ','));
    let mut kept: Vec<(usize, usize)> = Vec::new();
    let mut i: usize = 0;
    while i < parts.len()
        invariant
            i <= parts.len(),
            v@ == s@,
            cuts_within(parts@, 0, v.len() as int),
            cuts(v@, parts@) == split(s@, ','),
            pieces == trimmed(split(s@, ',')),
            cuts_within(kept@, 0, v.len() as int),
            cuts(v@, kept@) == non_empty(pieces.take(i as int)),
        decreases parts.len() - i,
    {
        let (a, b) = parts[i];
        let (ta, tb) = trim_range(&v, a, b);
        assert(pieces.take(i + 1).drop_last() =~= pieces.take(i as int));
        if tb > ta {
            kept.push((ta, tb));
        }
        i += 1;
    }
    assert(pieces.take(parts.len() as int) =~= pieces);
    cut_strings(s, &kept)
}

/// The items of a comma-separated list, where there is a list.
pub fn parse_csv(val: Option<String>) -> (r: Option<Vec<String>>)
    ensures
        match val {
            Some(s) => r matches Some(items) && texts(items@) == csv_items(s@),
            None => r is None,
        },
{
    match val {
        Some(s) => Some(csv_list(s.as_str())),
        None => None,
    }
}

/// Whether the text `s` switches a flag on.
pub fn is_truthy(s: &str) -> (r: bool)
    ensures
        r == truthy(s@),
{
    let v = chars_of(s);
    assert(v@.subrange(0, v.len() as int) =~= s@);
    let (a, b) = trim_range(&v, 0, v.len());
    range_is_lowered(&v, a, b, "1") || range_is_lowered(&v, a, b, "true") || range_is_lowered(
        &v,
        a,
        b,
        "yes",
    ) || range_is_lowered(&v, a, b, "on")
}

/// Whether a flag is switched on, where its text is there.
pub fn parse_bool(val: Option<String>) -> (r: Option<bool>)
    ensures
        match val {
            Some(s) => r == Some(truthy(s@)),
            None => r is None,
        },
{
    match val {
        Some(s) => Some(is_truthy(s.as_str())),
        None => None,
    }
}

/// The mode that `s` names.
pub fn parse_auth_mode(s: &str) -> (r: AuthMode)
    ensures
        r == auth_mode_named(s@),
{
    let v = chars_of(s);
    assert(v@.subrange(0, v.len() as int) =~= s@);
    let (a, b) = trim_range(&v, 0, v.len());
    if range_is_lowered(&v, a, b, "jwt_hs256") {
        AuthMode::JwtHs256
    } else if range_is_lowered(&v, a, b, "off") {
        AuthMode::Off
    } else {
        AuthMode::JwtRs256
    }
}

/// The value of the variable `name` in `vars`, a list of names with their
/// values; the first of two with the same name counts.
pub open spec fn var(vars: Seq<(String, String)>, name: Seq<char>) -> Option<Seq<char>>
    decreases vars.len(),
{
    if vars.len() == 0 {
        None
    } else if vars[0].0@ == name {
        Some(vars[0].1@)
    } else {
        var(vars.drop_first(), name)
    }
}

/// The value of `name`, or `default` where it is not set.
pub open spec fn text_or(vars: Seq<(String, String)>, name: Seq<char>, default: Seq<char>) -> Seq<
    char,
> {
    match var(vars, name) {
        Some(s) => s,
        None => default,
    }
}

/// The number that the value of `name` writes, where it is set, writes
/// one, and that is at most `max`.
pub open spec fn number_in(vars: Seq<(String, String)>, name: Seq<char>, max: nat) -> Option<nat> {
    match var(vars, name) {
        Some(s) => unsigned_up_to(s, max),
        None => None,
    }
}

/// The number that the value of `name` writes, or `default` where there is none.
pub open spec fn number_or(vars: Seq<(String, String)>, name: Seq<char>, max: nat, default: nat)
    -> nat {
    match number_in(vars, name, max) {
        Some(n) => n,
        None => default,
    }
}

/// Whether the value of `name` switches the flag on, or `default` where
/// it is not set.
pub open spec fn flag_or(vars: Seq<(String, String)>, name: Seq<char>, default: bool) -> bool {
    match var(vars, name) {
        Some(s) => truthy(s),
        None => default,
    }
}

/// The items of the list that is the value of `name`, or `default` where
/// it is not set.
pub open spec fn list_or(
    vars: Seq<(String, String)>,
    name: Seq<char>,
    default: Seq<Seq<char>>,
) -> Seq<Seq<char>> {
    match var(vars, name) {
        Some(s) => csv_items(s),
        None => default,
    }
}

/// The value of `name` as it stands, where it is set and is more than
/// white space.
pub open spec fn non_blank(vars: Seq<(String, String)>, name: Seq<char>) -> Option<Seq<char>> {
    match var(vars, name) {
        Some(s) if trim(s).len() > 0 => Some(s),
        _ => None,
    }
}

/// Whether `c` is the configuration that the variables `vars` describe:
/// each field is read from the variable named here, and has the default
/// named here where the variable is not set or, for a number, does not
/// write one.
pub open spec fn configured(c: Config, vars: Seq<(String, String)>) -> bool {
    &&& c.host@ == text_or(vars, "HOST"@, "0.0.0.0"@)
    &&& c.port == number_or(vars, "PORT"@, u16::MAX as nat, 8080)
    &&& c.root_dir@ == text_or(vars, "RUST_BUCKET_DIR"@, "data"@)
    &&& match c.max_upload_bytes {
        Some(n) => number_in(vars, "MAX_UPLOAD_BYTES"@, u64::MAX as nat) == Some(n as nat),
        None => number_in(vars, "MAX_UPLOAD_BYTES"@, u64::MAX as nat).is_none(),
    }
    &&& c.auth_max_ttl_secs == number_or(vars, "AUTH_MAX_TTL_SECS"@, u64::MAX as nat, 900)
    &&& c.auth_mode == auth_mode_named(text_or(vars, "AUTH_MODE"@, "jwt_rs256"@))
    &&& c.auth_write == flag_or(vars, "AUTH_WRITE"@, true)
    &&& c.auth_read == flag_or(vars, "AUTH_READ"@, false)
    &&& c.auth_list == flag_or(vars, "AUTH_LIST"@, false)
    &&& texts(c.jwt_scopes_write@) == list_or(vars, "JWT_SCOPES_WRITE"@, seq!["obj:write"@])
    &&& texts(c.jwt_scopes_read@) == list_or(vars, "JWT_SCOPES_READ"@, seq!["obj:read"@])
    &&& texts(c.jwt_scopes_list@) == list_or(vars, "JWT_SCOPES_LIST"@, seq!["obj:list"@])
    &&& opt_text(c.jwt_audience) == non_blank(vars, "JWT_AUDIENCE"@)
    &&& texts(c.jwt_issuers@) == list_or(vars, "JWT_ISSUERS"@, Seq::empty())
    &&& texts(c.jwks_urls@) == list_or(vars, "JWKS_URLS"@, Seq::empty())
    &&& c.jwks_ttl_secs == number_or(vars, "JWKS_TTL_SECS"@, u64::MAX as nat, 300)
    &&& opt_text(c.jwt_hs_secret) == non_blank(vars, "JWT_HS_SECRET"@)
    &&& c.idp_embed == flag_or(vars, "IDP_EMBED"@, false)
    &&& c.idp_key_dir@ == text_or(vars, "IDP_KEY_DIR"@, "./keys"@)
}

/// The value of the variable `name`.
pub fn find_var<'a>(vars: &'a Vec<(String, String)>, name: &str) -> (r: Option<&'a String>)
    ensures
        match r {
            Some(s) => var(vars@, name@) == Some(s@),
            None => var(vars@, name@).is_none(),
        },
{
    let mut i: usize = 0;
    assert(vars@.skip(0) =~= vars@);
    while i < vars.len()
        invariant
            i <= vars.len(),
            var(vars@, name@) == var(vars@.skip(i as int), name@),
        decreases vars.len() - i,
    {
        assert(vars@.skip(i as int).drop_first() =~= vars@.skip(i + 1));
        if same_text(vars[i].0.as_str(), name) {
            return Some(&vars[i].1);
        }
        i += 1;
    }
    None
}

fn read_text(vars: &Vec<(String, String)>, name: &str, default: &str) -> (r: String)
    ensures
        r@ == text_or(vars@, name@, default@),
{
    match find_var(vars, name) {
        Some(s) => s.clone(),
        None => default.to_owned(),
    }
}

fn read_number(vars: &Vec<(String, String)>, name: &str, max: u64) -> (r: Option<u64>)
    ensures
        match r {
            Some(n) => number_in(vars@, name@, max as nat) == Some(n as nat),
            None => number_in(vars@, name@, max as nat).is_none(),
        },
{
    match find_var(vars, name) {
        Some(s) => {
            let v = chars_of(s.as_str());
            assert(v@.subrange(0, v.len() as int) =~= s@);
            read_unsigned(&v, 0, v.len(), max)
        },
        None => None,
    }
}

fn read_number_or(vars: &Vec<(String, String)>, name: &str, max: u64, default: u64) -> (r: u64)
    requires
        default <= max,
    ensures
        r == number_or(vars@, name@, max as nat, default as nat),
        r <= max,
{
    match read_number(vars, name, max) {
        Some(n) => n,
        None => default,
    }
}

fn read_flag(vars: &Vec<(String, String)>, name: &str, default: bool) -> (r: bool)
    ensures
        r == flag_or(vars@, name@, default),
{
    match find_var(vars, name) {
        Some(s) => is_truthy(s.as_str()),
        None => default,
    }
}

fn read_list(vars: &Vec<(String, String)>, name: &str) -> (r: Option<Vec<String>>)
    ensures
        match r {
            Some(items) => var(vars@, name@) matches Some(s) && texts(items@) == csv_items(s),
            None => var(vars@, name@).is_none(),
        },
{
    match find_var(vars, name) {
        Some(s) => Some(csv_list(s.as_str())),
        None => None,
    }
}

fn read_list_or(vars: &Vec<(String, String)>, name: &str, default: &str) -> (r: Vec<String>)
    ensures
        texts(r@) == list_or(vars@, name@, seq![default@]),
{
    match read_list(vars, name) {
        Some(items) => items,
        None => {
            let mut items: Vec<String> = Vec::new();
            items.push(default.to_owned());
            items
        },
    }
}

fn read_list_or_empty(vars: &Vec<(String, String)>, name: &str) -> (r: Vec<String>)
    ensures
        texts(r@) == list_or(vars@, name@, Seq::empty()),
{
    match read_list(vars, name) {
        Some(items) => items,
        None => {
            let items: Vec<String> = Vec::new();
            items
        },
    }
}

fn read_non_blank(vars: &Vec<(String, String)>, name: &str) -> (r: Option<String>)
    ensures
        opt_text(r) == non_blank(vars@, name@),
{
    match find_var(vars, name) {
        Some(s) => {
            let v = chars_of(s.as_str());
            assert(v@.subrange(0, v.len() as int) =~= s@);
            let (a, b) = trim_range(&v, 0, v.len());
            if b > a {
                Some(s.clone())
            } else {
                None
            }
        },
        None => None,
    }
}

impl Config {
    /// The configuration that the variables `vars` describe, each a name
    /// with its value.
    pub fn from_vars(vars: &Vec<(String, String)>) -> (c: Config)
        ensures
            configured(c, vars@),
    {
        let port = read_number_or(vars, "PORT", 65535, 8080);
        let auth_mode = parse_auth_mode(read_text(vars, "AUTH_MODE", "jwt_rs256").as_str());
        Config {
            host: read_text(vars, "HOST", "0.0.0.0"),
            port: port as u16,
            root_dir: read_text(vars, "RUST_BUCKET_DIR", "data"),
            max_upload_bytes: read_number(vars, "MAX_UPLOAD_BYTES", u64::MAX),
            auth_max_ttl_secs: read_number_or(vars, "AUTH_MAX_TTL_SECS", u64::MAX, 900),
            auth_mode,
            auth_write: read_flag(vars, "AUTH_WRITE", true),
            auth_read: read_flag(vars, "AUTH_READ", false),
            auth_list: read_flag(vars, "AUTH_LIST", false),
            jwt_scopes_write: read_list_or(vars, "JWT_SCOPES_WRITE", "obj:write"),
            jwt_scopes_read: read_list_or(vars, "JWT_SCOPES_READ", "obj:read"),
            jwt_scopes_list: read_list_or(vars, "JWT_SCOPES_LIST", "obj:list"),
            jwt_audience: read_non_blank(vars, "JWT_AUDIENCE"),
            jwt_issuers: read_list_or_empty(vars, "JWT_ISSUERS"),
            jwks_urls: read_list_or_empty(vars, "JWKS_URLS"),
            jwks_ttl_secs: read_number_or(vars, "JWKS_TTL_SECS", u64::MAX, 300),
            jwt_hs_secret: read_non_blank(vars, "JWT_HS_SECRET"),
            idp_embed: read_flag(vars, "IDP_EMBED", false),
            idp_key_dir: read_text(vars, "IDP_KEY_DIR", "./keys"),
        }
    }
}

/// The name of each mode, as the configuration writes it.
pub open spec fn mode_name(mode: AuthMode) -> Seq<char> {
    match mode {
        AuthMode::JwtRs256 => "jwt_rs256"@,
        AuthMode::JwtHs256 => "jwt_hs256"@,
        AuthMode::Off => "off"@,
    }
}

impl AuthMode {
    /// The name of this mode, as the configuration writes it.
    pub fn name(&self) -> (r: &'static str)
        ensures
            r@ == mode_name(*self),
    {
        match self {
            AuthMode::JwtRs256 => "jwt_rs256",
            AuthMode::JwtHs256 => "jwt_hs256",
            AuthMode::Off => "off",
        }
    }
}

impl Config {
    /// Whether tokens are to be checked against a shared secret that is not set:
    /// every token is then refused as a misconfiguration.
    pub fn lacks_secret(&self) -> (r: bool)
        ensures
            r == (self.auth_mode == AuthMode::JwtHs256 && self.jwt_hs_secret is None),
    {
        matches!(self.auth_mode, AuthMode::JwtHs256) && self.jwt_hs_secret.is_none()
    }

    /// Whether tokens are to be checked against published keys while no
    /// issuer is allowed and none is built in: no issuer is then permitted.
    pub fn permits_no_issuer(&self) -> (r: bool)
        ensures
            r == (self.auth_mode == AuthMode::JwtRs256 && self.jwt_issuers@.len() == 0
                && !self.idp_embed),
    {
        matches!(self.auth_mode, AuthMode::JwtRs256) && self.jwt_issuers.len() == 0
            && !self.idp_embed
    }
}

} // verus!

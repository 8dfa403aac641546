//! Authorization: who may pass to which class of routes.
//!
//! The guard is one function of the configuration, the route class, the
//! `Authorization` header and the time. It touches nothing else, so a
//! request that it turns down has reached no storage.

use crate::consts::{AuthMode, Config};
use crate::text::{chars_of, cut_strings, holds_text, opt_text, opt_texts, slice_string,
    starts_with, texts, trim, trim_range, word_ranges, words};
use crate::token::{decode_hs256, hs256_payload, items_of, json_items, json_member, json_number,
    json_text, member, number_of, text_of};
use vstd::prelude::*;

verus! {

/// The caller of a request that passed the guard.
#[derive(Clone, Debug)]
pub struct AuthUser {
    pub sub: Option<String>,
    pub scopes: Vec<String>,
    pub iss: Option<String>,
    pub aud: Vec<String>,
}

/// A caller as plain text: what an [`AuthUser`] holds.
pub struct Principal {
    pub sub: Option<Seq<char>>,
    pub scopes: Seq<Seq<char>>,
    pub iss: Option<Seq<char>>,
    pub aud: Seq<Seq<char>>,
}

impl View for AuthUser {
    type V = Principal;

    open spec fn view(&self) -> Principal {
        Principal {
            sub: opt_text(self.sub),
            scopes: texts(self.scopes@),
            iss: opt_text(self.iss),
            aud: texts(self.aud@),
        }
    }
}

/// The caller of a request to a route that asks for no token: no subject,
/// no issuer, no scope and no audience.
pub open spec fn anonymous() -> Principal {
    Principal { sub: None, scopes: Seq::empty(), iss: None, aud: Seq::empty() }
}

/// A caller that may write and delete.
pub struct NeedWrite(pub AuthUser);

/// A caller that may read.
pub struct NeedRead(pub AuthUser);

/// A caller that may list.
pub struct NeedList(pub AuthUser);

/// The three classes of routes, each with its own protection and scopes.
#[derive(Clone, Copy, Debug, PartialEq, Eq, Structural)]
pub enum RouteClass {
    Write,
    Read,
    List,
}

/// Why the guard turned a request down.
#[derive(Clone, Copy, Debug, PartialEq, Eq, Structural)]
pub enum AuthError {
    /// No token, or one that does not hold: status 401.
    Unauthenticated,
    /// A token that holds but lacks the scope: status 403.
    Forbidden,
    /// The gateway cannot check tokens as it is configured: status 500.
    Misconfigured,
}

/// The `aud` claim of a token.
#[derive(Clone, Debug)]
pub enum Audience {
    /// No `aud` claim, or one that is neither a string nor an array.
    Absent,
    /// A single audience.
    One(String),
    /// An array; an item that is no string stands as `None`.
    Many(Vec<Option<String>>),
}

pub enum AudienceView {
    Absent,
    One(Seq<char>),
    Many(Seq<Option<Seq<char>>>),
}

impl View for Audience {
    type V = AudienceView;

    open spec fn view(&self) -> AudienceView {
        match self {
            Audience::Absent => AudienceView::Absent,
            Audience::One(s) => AudienceView::One(s@),
            Audience::Many(items) => AudienceView::Many(opt_texts(items@)),
        }
    }
}

/// What the guard reads of the claims of a token. A claim of another JSON
/// type than the one named here counts as missing.
#[derive(Clone, Debug)]
pub struct Claims {
    /// `sub`, a string.
    pub sub: Option<String>,
    /// `exp`, a whole number of seconds since the epoch.
    pub exp: Option<u64>,
    /// `iss`, a string.
    pub iss: Option<String>,
    /// `aud`, a string or an array.
    pub aud: Audience,
    /// `scope`, a string of scopes with white space between them.
    pub scope: Option<String>,
    /// `scopes`, an array of scopes.
    pub scopes: Option<Vec<Option<String>>>,
    /// `scp`, a string of scopes with white space between them.
    pub scp: Option<String>,
}

pub struct ClaimsView {
    pub sub: Option<Seq<char>>,
    pub exp: Option<u64>,
    pub iss: Option<Seq<char>>,
    pub aud: AudienceView,
    pub scope: Option<Seq<char>>,
    pub scopes: Option<Seq<Option<Seq<char>>>>,
    pub scp: Option<Seq<char>>,
}

impl View for Claims {
    type V = ClaimsView;

    open spec fn view(&self) -> ClaimsView {
        ClaimsView {
            sub: opt_text(self.sub),
            exp: self.exp,
            iss: opt_text(self.iss),
            aud: self.aud@,
            scope: opt_text(self.scope),
            scopes: match self.scopes {
                Some(items) => Some(opt_texts(items@)),
                None => None,
            },
            scp: opt_text(self.scp),
        }
    }
}

/// The view of what the guard returns.
pub open spec fn verdict_view(r: Result<AuthUser, AuthError>) -> Result<Principal, AuthError> {
    match r {
        Ok(user) => Ok(user@),
        Err(e) => Err(e),
    }
}

/// The items of `items` that are strings, in order.
pub open spec fn strings_in(items: Seq<Option<Seq<char>>>) -> Seq<Seq<char>>
    decreases items.len(),
{
    if items.len() == 0 {
        Seq::empty()
    } else {
        match items.last() {
            Some(s) => strings_in(items.drop_last()).push(s),
            None => strings_in(items.drop_last()),
        }
    }
}

/// The scopes that the claims grant: those of the first of `scope`,
/// `scopes` and `scp` that is there; none where none is.
pub open spec fn scopes_of(claims: ClaimsView) -> Seq<Seq<char>> {
    match claims.scope {
        Some(s) => words(s),
        None => match claims.scopes {
            Some(items) => strings_in(items),
            None => match claims.scp {
                Some(s) => words(s),
                None => Seq::empty(),
            },
        },
    }
}

/// Whether the `aud` claim names `expected`.
pub open spec fn audience_names(aud: AudienceView, expected: Seq<char>) -> bool {
    match aud {
        AudienceView::Absent => false,
        AudienceView::One(s) => s == expected,
        AudienceView::Many(items) => items.contains(Some(expected)),
    }
}

/// The audiences that the `aud` claim names.
pub open spec fn audiences_of(aud: AudienceView) -> Seq<Seq<char>> {
    match aud {
        AudienceView::Absent => Seq::empty(),
        AudienceView::One(s) => seq![s],
        AudienceView::Many(items) => strings_in(items),
    }
}

/// Whether a caller with the scopes `held` meets `required`: it holds one
/// of them, or none is required.
pub open spec fn any_scope(required: Seq<Seq<char>>, held: Seq<Seq<char>>) -> bool {
    required.len() == 0 || exists|i: int| 0 <= i < held.len() && required.contains(#[trigger] held[i])
}

/// The token of an `Authorization` header: what follows `Bearer `, without
/// the white space around it.
pub open spec fn bearer(header: Seq<char>) -> Option<Seq<char>> {
    if "Bearer "@.is_prefix_of(header) {
        Some(trim(header.skip("Bearer "@.len() as int)))
    } else {
        None
    }
}

/// Whether the claims hold at the time `now` under `cfg`: the token has
/// not expired, its issuer is one of the configured ones where any are
/// configured, and it names the configured audience where one is.
pub open spec fn claims_hold(cfg: Config, claims: ClaimsView, now: u64) -> bool {
    &&& match claims.exp {
        Some(exp) => now < exp,
        None => false,
    }
    &&& cfg.jwt_issuers@.len() > 0 ==> match claims.iss {
        Some(iss) => texts(cfg.jwt_issuers@).contains(iss),
        None => false,
    }
    &&& match cfg.jwt_audience {
        Some(expected) => audience_names(claims.aud, expected@),
        None => true,
    }
}

/// The caller that the claims describe.
pub open spec fn principal_of(claims: ClaimsView) -> Principal {
    Principal {
        sub: claims.sub,
        scopes: scopes_of(claims),
        iss: claims.iss,
        aud: audiences_of(claims.aud),
    }
}

/// What the claims of a token with a good signature give at `now`.
pub open spec fn claims_verdict(cfg: Config, claims: ClaimsView, now: u64) -> Result<
    Principal,
    AuthError,
> {
    if claims_hold(cfg, claims, now) {
        Ok(principal_of(claims))
    } else {
        Err(AuthError::Unauthenticated)
    }
}

/// Whether `class` is protected under `cfg`.
pub open spec fn protected(cfg: Config, class: RouteClass) -> bool {
    match class {
        RouteClass::Write => cfg.auth_write,
        RouteClass::Read => cfg.auth_read,
        RouteClass::List => cfg.auth_list,
    }
}

/// The scopes of which a caller needs one for `class`.
pub open spec fn required_scopes(cfg: Config, class: RouteClass) -> Seq<Seq<char>> {
    match class {
        RouteClass::Write => texts(cfg.jwt_scopes_write@),
        RouteClass::Read => texts(cfg.jwt_scopes_read@),
        RouteClass::List => texts(cfg.jwt_scopes_list@),
    }
}

/// Whether requests to `class` pass without a token: authorization is
/// off, or the class is not protected.
pub open spec fn is_open(cfg: Config, class: RouteClass) -> bool {
    cfg.auth_mode == AuthMode::Off || !protected(cfg, class)
}

/// What the scope check gives for a caller whose token holds.
pub open spec fn scope_verdict(cfg: Config, class: RouteClass, user: Principal) -> Result<
    Principal,
    AuthError,
> {
    if any_scope(required_scopes(cfg, class), user.scopes) {
        Ok(user)
    } else {
        Err(AuthError::Forbidden)
    }
}

/// The claim `name` of the JSON object `payload`, where it is a string.
pub open spec fn text_claim(payload: serde_json::Value, name: Seq<char>) -> Option<Seq<char>> {
    match member(payload, name) {
        Some(value) => text_of(value),
        None => None,
    }
}

/// The claim `name` of the JSON object `payload`, where it is a whole
/// number from 0 to `u64::MAX`.
pub open spec fn number_claim(payload: serde_json::Value, name: Seq<char>) -> Option<u64> {
    match member(payload, name) {
        Some(value) => number_of(value),
        None => None,
    }
}

/// The claim `name` of the JSON object `payload`, where it is an array:
/// each item that is a string as its text, each other item as `None`.
pub open spec fn list_claim(payload: serde_json::Value, name: Seq<char>) -> Option<
    Seq<Option<Seq<char>>>,
> {
    match member(payload, name) {
        Some(value) => match items_of(value) {
            Some(items) => Some(Seq::new(items.len(), |i: int| text_of(items[i]))),
            None => None,
        },
        None => None,
    }
}

/// The claims that the guard reads from the JSON object of a token.
pub open spec fn claims_in(payload: serde_json::Value) -> ClaimsView {
    ClaimsView {
        sub: text_claim(payload, "sub"@),
        exp: number_claim(payload, "exp"@),
        iss: text_claim(payload, "iss"@),
        aud: match text_claim(payload, "aud"@) {
            Some(s) => AudienceView::One(s),
            None => match list_claim(payload, "aud"@) {
                Some(items) => AudienceView::Many(items),
                None => AudienceView::Absent,
            },
        },
        scope: text_claim(payload, "scope"@),
        scopes: list_claim(payload, "scopes"@),
        scp: text_claim(payload, "scp"@),
    }
}

/// What checking `token` against the shared secret gives: without a
/// configured secret the gateway is misconfigured; a token that the
/// secret did not sign, a missing clock and claims that do not hold fail
/// authentication; any other token gives its caller.
pub open spec fn hs256_verdict(cfg: Config, token: Seq<char>, now: Option<u64>) -> Result<
    Principal,
    AuthError,
> {
    match cfg.jwt_hs_secret {
        None => Err(AuthError::Misconfigured),
        Some(secret) => match hs256_payload(token, secret@) {
            None => Err(AuthError::Unauthenticated),
            Some(payload) => match now {
                None => Err(AuthError::Unauthenticated),
                Some(now) => claims_verdict(cfg, claims_in(payload), now),
            },
        },
    }
}

/// What the guard gives for a request to `class` that brings the header
/// `authorization`, at the time `now`.
pub open spec fn auth_verdict(
    cfg: Config,
    class: RouteClass,
    authorization: Option<Seq<char>>,
    now: Option<u64>,
) -> Result<Principal, AuthError> {
    if is_open(cfg, class) {
        Ok(anonymous())
    } else {
        match authorization {
            None => Err(AuthError::Unauthenticated),
            Some(header) => match bearer(header) {
                None => Err(AuthError::Unauthenticated),
                Some(token) => match cfg.auth_mode {
                    AuthMode::JwtRs256 => Err(AuthError::Misconfigured),
                    _ => match hs256_verdict(cfg, token, now) {
                        Ok(user) => scope_verdict(cfg, class, user),
                        Err(e) => Err(e),
                    },
                },
            },
        }
    }
}

/// What the guard gives for a request with the header `authorization`.
pub open spec fn auth_verdict_for(
    cfg: Config,
    class: RouteClass,
    authorization: Option<&str>,
    now: Option<u64>,
) -> Result<Principal, AuthError> {
    auth_verdict(
        cfg,
        class,
        match authorization {
            Some(h) => Some(h@),
            None => None,
        },
        now,
    )
}

/// Whether the scopes of a token meet what a route requires: any scope in
/// both suffices, and so does an empty requirement.
pub fn require_any_scope(required: &[String], token_scopes: &[String]) -> (r: bool)
    ensures
        r == any_scope(texts(required@), texts(token_scopes@)),
{
    if required.len() == 0 {
        return true;
    }
    let mut i: usize = 0;
    while i < token_scopes.len()
        invariant
            i <= token_scopes.len(),
            forall|k: int|
                0 <= k < i ==> !texts(required@).contains(#[trigger] texts(token_scopes@)[k]),
        decreases token_scopes.len() - i,
    {
        if holds_text(required, &token_scopes[i]) {
            assert(texts(required@).contains(texts(token_scopes@)[i as int]));
            return true;
        }
        i += 1;
    }
    false
}

/// The token of an `Authorization` header, where the header is there and
/// starts with `Bearer `.
pub fn bearer_token(header: Option<&str>) -> (r: Result<String, ()>)
    ensures
        match header {
            Some(h) => match r {
                Ok(token) => bearer(h@) == Some(token@),
                Err(_) => bearer(h@).is_none(),
            },
            None => r is Err,
        },
{
    match header {
        None => Err(()),
        Some(h) => {
            let v = chars_of(h);
            if starts_with(&v, 0, v.len(), "Bearer ") {
                proof {
                    reveal_strlit("Bearer ");
                }
                let (a, b) = trim_range(&v, 7, v.len());
                Ok(slice_string(h, a, b))
            } else {
                Err(())
            }
        },
    }
}

/// The strings among `items`, in order.
fn strings_among(items: &Vec<Option<String>>) -> (r: Vec<String>)
    ensures
        texts(r@) == strings_in(opt_texts(items@)),
{
    let mut out: Vec<String> = Vec::new();
    let mut i: usize = 0;
    let ghost all = opt_texts(items@);
    while i < items.len()
        invariant
            i <= items.len(),
            all == opt_texts(items@),
            texts(out@) == strings_in(all.take(i as int)),
        decreases items.len() - i,
    {
        assert(all.take(i + 1).drop_last() =~= all.take(i as int));
        match &items[i] {
            Some(s) => {
                out.push(s.clone());
            },
            None => {},
        }
        i += 1;
    }
    assert(all.take(items.len() as int) =~= all);
    out
}

/// The words of `s`, each as a string.
fn word_list(s: &str) -> (r: Vec<String>)
    ensures
        texts(r@) == words(s@),
{
    let v = chars_of(s);
    assert(v@.subrange(0, v.len() as int) =~= s@);
    let ranges = word_ranges(&v, 0, v.len());
    cut_strings(s, &ranges)
}

/// The scopes that the claims grant.
pub fn scopes_from_claims(claims: &Claims) -> (r: Vec<String>)
    ensures
        texts(r@) == scopes_of(claims@),
{
    if let Some(s) = &claims.scope {
        return word_list(s.as_str());
    }
    if let Some(items) = &claims.scopes {
        return strings_among(items);
    }
    if let Some(s) = &claims.scp {
        return word_list(s.as_str());
    }
    let out: Vec<String> = Vec::new();
    out
}

/// Whether the `aud` claim names `expected`.
pub fn aud_matches(expected: &str, claims: &Claims) -> (r: bool)
    ensures
        r == audience_names(claims@.aud, expected@),
{
    let want = expected.to_owned();
    match &claims.aud {
        Audience::Absent => false,
        Audience::One(s) => *s == want,
        Audience::Many(items) => {
            let ghost all = opt_texts(items@);
            let mut i: usize = 0;
            while i < items.len()
                invariant
                    i <= items.len(),
                    all == opt_texts(items@),
                    claims@.aud == AudienceView::Many(all),
                    want@ == expected@,
                    forall|k: int| 0 <= k < i ==> all[k] != Some(expected@),
                decreases items.len() - i,
            {
                if let Some(s) = &items[i] {
                    if *s == want {
                        assert(all[i as int] == Some(expected@));
                        return true;
                    }
                }
                i += 1;
            }
            false
        },
    }
}

/// The audiences that the `aud` claim names.
pub fn aud_values(claims: &Claims) -> (r: Vec<String>)
    ensures
        texts(r@) == audiences_of(claims@.aud),
{
    match &claims.aud {
        Audience::Absent => {
            let out: Vec<String> = Vec::new();
            out
        },
        Audience::One(s) => {
            let mut out: Vec<String> = Vec::new();
            out.push(s.clone());
            out
        },
        Audience::Many(items) => strings_among(items),
    }
}

/// Judges the claims of a token whose signature holds, at the time `now`.
pub fn check_claims(cfg: &Config, claims: &Claims, now: u64) -> (r: Result<AuthUser, AuthError>)
    ensures
        verdict_view(r) == claims_verdict(*cfg, claims@, now),
{
    let exp = match claims.exp {
        Some(exp) => exp,
        None => {
            return Err(AuthError::Unauthenticated);
        },
    };
    if now >= exp {
        return Err(AuthError::Unauthenticated);
    }
    if cfg.jwt_issuers.len() > 0 {
        match &claims.iss {
            None => {
                return Err(AuthError::Unauthenticated);
            },
            Some(iss) => {
                if !holds_text(cfg.jwt_issuers.as_slice(), iss) {
                    return Err(AuthError::Unauthenticated);
                }
            },
        }
    }
    if let Some(expected) = &cfg.jwt_audience {
        if !aud_matches(expected.as_str(), claims) {
            return Err(AuthError::Unauthenticated);
        }
    }
    let scopes = scopes_from_claims(claims);
    let sub = claims.sub.clone();
    let iss = claims.iss.clone();
    let aud = aud_values(claims);
    Ok(AuthUser { sub, scopes, iss, aud })
}

fn claim_text(payload: &serde_json::Value, name: &str) -> (r: Option<String>)
    ensures
        opt_text(r) == text_claim(*payload, name@),
{
    match json_member(payload, name) {
        Some(value) => json_text(value),
        None => None,
    }
}

fn claim_number(payload: &serde_json::Value, name: &str) -> (r: Option<u64>)
    ensures
        r == number_claim(*payload, name@),
{
    match json_member(payload, name) {
        Some(value) => json_number(value),
        None => None,
    }
}

fn claim_items(payload: &serde_json::Value, name: &str) -> (r: Option<Vec<Option<String>>>)
    ensures
        match r {
            Some(items) => list_claim(*payload, name@) == Some(opt_texts(items@)),
            None => list_claim(*payload, name@).is_none(),
        },
{
    let value = match json_member(payload, name) {
        Some(value) => value,
        None => {
            return None;
        },
    };
    let items = match json_items(value) {
        Some(items) => items,
        None => {
            return None;
        },
    };
    let mut out: Vec<Option<String>> = Vec::new();
    let mut i: usize = 0;
    while i < items.len()
        invariant
            i <= items.len(),
            out.len() == i,
            forall|k: int| 0 <= k < i ==> opt_text(#[trigger] out@[k]) == text_of(items@[k]),
        decreases items.len() - i,
    {
        out.push(json_text(&items[i]));
        i += 1;
    }
    Some(out)
}

/// Reads from the JSON object of a token what the guard needs.
pub fn claims_of(payload: &serde_json::Value) -> (r: Claims)
    ensures
        r@ == claims_in(*payload),
{
    let aud = match claim_text(payload, "aud") {
        Some(s) => Audience::One(s),
        None => match claim_items(payload, "aud") {
            Some(items) => Audience::Many(items),
            None => Audience::Absent,
        },
    };
    Claims {
        sub: claim_text(payload, "sub"),
        exp: claim_number(payload, "exp"),
        iss: claim_text(payload, "iss"),
        aud,
        scope: claim_text(payload, "scope"),
        scopes: claim_items(payload, "scopes"),
        scp: claim_text(payload, "scp"),
    }
}

/// Checks a token against the shared secret and judges its claims at `now`.
pub fn verify_hs256(cfg: &Config, token: &str, now: Option<u64>) -> (r: Result<
    AuthUser,
    AuthError,
>)
    ensures
        verdict_view(r) == hs256_verdict(*cfg, token@, now),
{
    let secret = match &cfg.jwt_hs_secret {
        Some(secret) => secret,
        None => {
            return Err(AuthError::Misconfigured);
        },
    };
    let payload = match decode_hs256(token, secret.as_str()) {
        Ok(payload) => payload,
        Err(_) => {
            return Err(AuthError::Unauthenticated);
        },
    };
    let now = match now {
        Some(now) => now,
        None => {
            return Err(AuthError::Unauthenticated);
        },
    };
    let claims = claims_of(&payload);
    check_claims(cfg, &claims, now)
}

/// Whether `class` is protected under `cfg`.
pub fn is_protected(cfg: &Config, class: RouteClass) -> (r: bool)
    ensures
        r == protected(*cfg, class),
{
    match class {
        RouteClass::Write => cfg.auth_write,
        RouteClass::Read => cfg.auth_read,
        RouteClass::List => cfg.auth_list,
    }
}

/// The scopes of which a caller needs one for `class`.
pub fn scopes_required(cfg: &Config, class: RouteClass) -> (r: &Vec<String>)
    ensures
        texts(r@) == required_scopes(*cfg, class),
{
    match class {
        RouteClass::Write => &cfg.jwt_scopes_write,
        RouteClass::Read => &cfg.jwt_scopes_read,
        RouteClass::List => &cfg.jwt_scopes_list,
    }
}

/// Judges the scopes of a caller whose token holds against what `class` requires.
pub fn check_scopes(cfg: &Config, class: RouteClass, user: AuthUser) -> (r: Result<
    AuthUser,
    AuthError,
>)
    ensures
        verdict_view(r) == scope_verdict(*cfg, class, user@),
{
    let required = scopes_required(cfg, class);
    if require_any_scope(required.as_slice(), user.scopes.as_slice()) {
        Ok(user)
    } else {
        Err(AuthError::Forbidden)
    }
}

/// The caller of a request that needs no token.
pub fn anonymous_user() -> (r: AuthUser)
    ensures
        r@ == anonymous(),
{
    let r = AuthUser { sub: None, scopes: Vec::new(), iss: None, aud: Vec::new() };
    assert(texts(r.scopes@) =~= Seq::<Seq<char>>::empty());
    assert(texts(r.aud@) =~= Seq::<Seq<char>>::empty());
    r
}

/// The guard: whether a request to a route of `class` passes, and as whom.
/// `authorization` is the `Authorization` header where the request has
/// one that is text; `now` is the time in seconds since the epoch, where
/// the clock gives one.
pub fn auth_gate(
    cfg: &Config,
    class: RouteClass,
    authorization: Option<&str>,
    now: Option<u64>,
) -> (r: Result<AuthUser, AuthError>)
    ensures
        verdict_view(r) == auth_verdict_for(*cfg, class, authorization, now),
{
    if matches!(cfg.auth_mode, AuthMode::Off) {
        return Ok(anonymous_user());
    }
    if !is_protected(cfg, class) {
        return Ok(anonymous_user());
    }
    let token = match bearer_token(authorization) {
        Ok(token) => token,
        Err(_) => {
            return Err(AuthError::Unauthenticated);
        },
    };
    let user = match cfg.auth_mode {
        AuthMode::JwtRs256 => {
            return Err(AuthError::Misconfigured);
        },
        _ => match verify_hs256(cfg, token.as_str(), now) {
            Ok(user) => user,
            Err(e) => {
                return Err(e);
            },
        },
    };
    check_scopes(cfg, class, user)
}

impl NeedWrite {
    /// Passes the caller of a request that may write and delete.
    pub fn from_request(cfg: &Config, authorization: Option<&str>, now: Option<u64>) -> (r: Result<
        NeedWrite,
        AuthError,
    >)
        ensures
            match r {
                Ok(need) => auth_verdict_for(*cfg, RouteClass::Write, authorization, now) == Ok::<
                    Principal,
                    AuthError,
                >(need.0@),
                Err(e) => auth_verdict_for(*cfg, RouteClass::Write, authorization, now) == Err::<
                    Principal,
                    AuthError,
                >(e),
            },
    {
        match auth_gate(cfg, RouteClass::Write, authorization, now) {
            Ok(user) => Ok(NeedWrite(user)),
            Err(e) => Err(e),
        }
    }
}

impl NeedRead {
    /// Passes the caller of a request that may read.
    pub fn from_request(cfg: &Config, authorization: Option<&str>, now: Option<u64>) -> (r: Result<
        NeedRead,
        AuthError,
    >)
        ensures
            match r {
                Ok(need) => auth_verdict_for(*cfg, RouteClass::Read, authorization, now) == Ok::<
                    Principal,
                    AuthError,
                >(need.0@),
                Err(e) => auth_verdict_for(*cfg, RouteClass::Read, authorization, now) == Err::<
                    Principal,
                    AuthError,
                >(e),
            },
    {
        match auth_gate(cfg, RouteClass::Read, authorization, now) {
            Ok(user) => Ok(NeedRead(user)),
            Err(e) => Err(e),
        }
    }
}

impl NeedList {
    /// Passes the caller of a request that may list.
    pub fn from_request(cfg: &Config, authorization: Option<&str>, now: Option<u64>) -> (r: Result<
        NeedList,
        AuthError,
    >)
        ensures
            match r {
                Ok(need) => auth_verdict_for(*cfg, RouteClass::List, authorization, now) == Ok::<
                    Principal,
                    AuthError,
                >(need.0@),
                Err(e) => auth_verdict_for(*cfg, RouteClass::List, authorization, now) == Err::<
                    Principal,
                    AuthError,
                >(e),
            },
    {
        match auth_gate(cfg, RouteClass::List, authorization, now) {
            Ok(user) => Ok(NeedList(user)),
            Err(e) => Err(e),
        }
    }
}

/// A request to a class of routes that is open passes as the anonymous
/// caller, with or without a token.
pub proof fn lemma_open_routes_pass(
    cfg: Config,
    class: RouteClass,
    authorization: Option<Seq<char>>,
    now: Option<u64>,
)
    requires
        is_open(cfg, class),
    ensures
        auth_verdict(cfg, class, authorization, now) == Ok::<Principal, AuthError>(anonymous()),
{
}

/// A request to a protected class of routes that brings no bearer token,
/// be it no `Authorization` header or one of another form, is turned down
/// as unauthenticated, whatever the configuration and the time.
pub proof fn lemma_no_token_is_unauthenticated(
    cfg: Config,
    class: RouteClass,
    authorization: Option<Seq<char>>,
    now: Option<u64>,
)
    requires
        !is_open(cfg, class),
        match authorization {
            Some(header) => bearer(header).is_none(),
            None => true,
        },
    ensures
        auth_verdict(cfg, class, authorization, now) == Err::<Principal, AuthError>(
            AuthError::Unauthenticated,
        ),
{
}

/// A token that holds, but whose scopes have none in common with those
/// the class requires, is turned down as forbidden, not as unauthenticated.
pub proof fn lemma_missing_scope_is_forbidden(
    cfg: Config,
    class: RouteClass,
    header: Seq<char>,
    now: Option<u64>,
)
    requires
        !is_open(cfg, class),
        cfg.auth_mode == AuthMode::JwtHs256,
        match bearer(header) {
            Some(token) => match hs256_verdict(cfg, token, now) {
                Ok(user) => !any_scope(required_scopes(cfg, class), user.scopes),
                Err(_) => false,
            },
            None => false,
        },
    ensures
        auth_verdict(cfg, class, Some(header), now) == Err::<Principal, AuthError>(
            AuthError::Forbidden,
        ),
{
}

/// Whoever passes a protected class of routes holds a token that was
/// verified, and one of the required scopes where any is required.
pub proof fn lemma_passing_needs_scope(
    cfg: Config,
    class: RouteClass,
    authorization: Option<Seq<char>>,
    now: Option<u64>,
)
    requires
        !is_open(cfg, class),
        auth_verdict(cfg, class, authorization, now) is Ok,
    ensures
        ({
            let user = auth_verdict(cfg, class, authorization, now)->Ok_0;
            &&& any_scope(required_scopes(cfg, class), user.scopes)
            &&& authorization matches Some(header) && bearer(header) matches Some(token)
                && hs256_verdict(cfg, token, now) == Ok::<Principal, AuthError>(user)
        }),
{
}

} // verus!

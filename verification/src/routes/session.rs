//! Signing up and logging in against a list of users, for development:
//! whether a name is free, whether a password fits, and what a token
//! granted at login says. Passwords are compared as they are written;
//! keeping the list and signing the token are the caller's part.

use crate::consts::{AuthMode, Config};
use crate::decimal::{decimal, push_decimal};
use crate::error::ApiError;
use crate::order::{key_before_or_same, key_le, keys_sorted, lemma_insert_adds_one,
    lemma_insert_keeps_order, lemma_key_le_total};
use crate::text::{holds_text, opt_text, texts};
use vstd::prelude::*;
use vstd::string::StringExecFns;

verus! {

/// A user as the list holds it.
#[derive(Clone, Debug, PartialEq, Eq)]
pub struct StoredUser {
    pub username: String,
    pub password: String,
}

/// What a token granted at login says, and for how long it holds.
#[derive(Clone, Debug, PartialEq, Eq)]
pub struct TokenGrant {
    /// The claim `sub`: the user's name.
    pub sub: String,
    /// The claim `scope`: the scopes, with a space between them.
    pub scope: String,
    /// The claim `exp`: the second at which the token expires.
    pub exp: u64,
    /// The claim `iss`: this gateway.
    pub iss: String,
    /// The claim `aud`, where an audience is configured.
    pub aud: Option<String>,
    /// The lifetime of the token in seconds.
    pub expires_in: u64,
}

/// The lifetime of a token where the request names none.
pub const DEFAULT_TTL_SECS: u64 = 900;

/// The index of the first user of `users` with the name `name`.
pub open spec fn user_at(users: Seq<StoredUser>, name: Seq<char>) -> Option<int>
    decreases users.len(),
{
    if users.len() == 0 {
        None
    } else if users[0].username@ == name {
        Some(0)
    } else {
        match user_at(users.drop_first(), name) {
            Some(i) => Some(i + 1),
            None => None,
        }
    }
}

/// Whether `name` and `password` are those of a user: the first user of
/// that name has that password.
pub open spec fn credentials_hold(users: Seq<StoredUser>, name: Seq<char>, password: Seq<char>)
    -> bool {
    match user_at(users, name) {
        Some(i) => users[i].password@ == password,
        None => false,
    }
}

/// The texts of `items` with `sep` between each two.
pub open spec fn join_with(items: Seq<Seq<char>>, sep: Seq<char>) -> Seq<char>
    decreases items.len(),
{
    if items.len() == 0 {
        Seq::empty()
    } else if items.len() == 1 {
        items[0]
    } else {
        join_with(items.drop_last(), sep) + sep + items.last()
    }
}

/// Whether `sorted` holds each text of `all` once, in the order of keys.
pub open spec fn sorted_set_of(sorted: Seq<Seq<char>>, all: Seq<Seq<char>>) -> bool {
    &&& keys_sorted(sorted)
    &&& sorted.no_duplicates()
    &&& forall|x: Seq<char>| sorted.contains(x) <==> all.contains(x)
}

/// All scopes that the configuration requires of any class of routes.
pub open spec fn configured_scopes(cfg: Config) -> Seq<Seq<char>> {
    texts(cfg.jwt_scopes_write@) + texts(cfg.jwt_scopes_read@) + texts(cfg.jwt_scopes_list@)
}

/// The lifetime of a token: what the request asks for, or
/// `DEFAULT_TTL_SECS`, and never more than the configured maximum.
pub open spec fn granted_ttl(requested: Option<u64>, max: u64) -> u64 {
    let asked = match requested {
        Some(t) => t,
        None => DEFAULT_TTL_SECS,
    };
    if asked <= max {
        asked
    } else {
        max
    }
}

/// The second at which a token granted at `now` for `ttl` seconds
/// expires; a time beyond `u64::MAX` counts as `u64::MAX`.
pub open spec fn expiry(now: u64, ttl: u64) -> u64 {
    if now + ttl > u64::MAX {
        u64::MAX
    } else {
        (now + ttl) as u64
    }
}

/// The issuer that this gateway names in its tokens.
pub open spec fn issuer(cfg: Config) -> Seq<char> {
    "http://"@ + cfg.host@ + ":"@ + decimal(cfg.port as nat)
}

/// The index of the first user with the name `name`.
pub fn find_user(users: &Vec<StoredUser>, name: &str) -> (r: Option<usize>)
    ensures
        match r {
            Some(i) => user_at(users@, name@) == Some(i as int) && i < users.len(),
            None => user_at(users@, name@).is_none(),
        },
{
    let wanted = name.to_owned();
    let mut i: usize = 0;
    assert(users@.skip(0) =~= users@);
    while i < users.len()
        invariant
            i <= users.len(),
            wanted@ == name@,
            match user_at(users@.skip(i as int), name@) {
                Some(k) => user_at(users@, name@) == Some(k + i),
                None => user_at(users@, name@).is_none(),
            },
        decreases users.len() - i,
    {
        assert(users@.skip(i as int).drop_first() =~= users@.skip(i + 1));
        if users[i].username == wanted {
            return Some(i);
        }
        i += 1;
    }
    None
}

/// Decides a sign-up: a name that a user has already is a conflict; any
/// other name gives the user to add to the list.
pub fn signup(users: &Vec<StoredUser>, username: &str, password: &str) -> (r: Result<
    StoredUser,
    ApiError,
>)
    ensures
        match r {
            Ok(user) => {
                &&& user_at(users@, username@).is_none()
                &&& user.username@ == username@
                &&& user.password@ == password@
            },
            Err(e) => user_at(users@, username@).is_some() && e == ApiError::Conflict,
        },
{
    match find_user(users, username) {
        Some(_) => Err(ApiError::Conflict),
        None => Ok(StoredUser { username: username.to_owned(), password: password.to_owned() }),
    }
}

/// Whether `name` and `password` are those of a user.
pub fn check_credentials(users: &Vec<StoredUser>, name: &str, password: &str) -> (r: bool)
    ensures
        r == credentials_hold(users@, name@, password@),
{
    match find_user(users, name) {
        Some(i) => users[i].password == password.to_owned(),
        None => false,
    }
}

/// The lifetime of a token granted at login.
pub fn token_ttl(requested: Option<u64>, max: u64) -> (r: u64)
    ensures
        r == granted_ttl(requested, max),
        r <= max,
{
    let asked = match requested {
        Some(t) => t,
        None => DEFAULT_TTL_SECS,
    };
    if asked <= max {
        asked
    } else {
        max
    }
}

/// The texts of `items` with a space between each two.
pub fn join_spaced(items: &Vec<String>) -> (r: String)
    ensures
        r@ == join_with(texts(items@), seq![' ']),
{
    let mut out = String::new();
    let mut i: usize = 0;
    let ghost all = texts(items@);
    while i < items.len()
        invariant
            i <= items.len(),
            all == texts(items@),
            out@ == join_with(all.take(i as int), seq![' ']),
        decreases items.len() - i,
    {
        proof {
            reveal_strlit(" ");
            assert(all.take(i + 1).drop_last() =~= all.take(i as int));
        }
        if i > 0 {
            out.append(" ");
        }
        out.append(items[i].as_str());
        i += 1;
    }
    assert(all.take(items.len() as int) =~= all);
    out
}

/// Each text of `all` once, in the order of keys.
#[verifier::loop_isolation(false)]
pub fn sorted_distinct(all: &Vec<String>) -> (r: Vec<String>)
    ensures
        sorted_set_of(texts(r@), texts(all@)),
{
    let mut out: Vec<String> = Vec::new();
    let mut n: usize = 0;
    let ghost src = texts(all@);
    assert(texts(out@) =~= Seq::<Seq<char>>::empty());
    while n < all.len()
        invariant
            n <= all.len(),
            src == texts(all@),
            sorted_set_of(texts(out@), src.take(n as int)),
        decreases all.len() - n,
    {
        let x = &all[n];
        let ghost before = texts(out@);
        proof {
            let head = src.take(n as int);
            let more = src.take(n + 1);
            assert(more =~= head.push(x@));
            assert forall|y: Seq<char>| more.contains(y) <==> (head.contains(y) || y == x@) by {
                if head.contains(y) {
                    let k = choose|k: int| 0 <= k < head.len() && head[k] == y;
                    assert(more[k] == y);
                }
                if y == x@ {
                    assert(more[n as int] == y);
                }
                if more.contains(y) {
                    let k = choose|k: int| 0 <= k < more.len() && more[k] == y;
                    if k < n {
                        assert(head[k] == y);
                    }
                }
            }
        }
        if !holds_text(out.as_slice(), x) {
            let mut i: usize = 0;
            while i < out.len() && !key_before_or_same(x.as_str(), out[i].as_str())
                invariant
                    i <= out.len(),
                    before == texts(out@),
                    forall|k: int| 0 <= k < i ==> key_le(before[k], x@),
                decreases out.len() - i,
            {
                proof {
                    lemma_key_le_total(x@, before[i as int]);
                }
                i += 1;
            }
            out.insert(i, x.clone());
            proof {
                assert(texts(out@) =~= before.insert(i as int, x@));
                lemma_insert_keeps_order(before, i as int, x@);
                lemma_insert_adds_one(before, i as int, x@);
            }
        }
        n += 1;
    }
    assert(src.take(all.len() as int) =~= src);
    out
}

/// Adds the strings of `more` to `all`.
fn push_all(all: &mut Vec<String>, more: &Vec<String>)
    ensures
        texts(final(all)@) == texts(old(all)@) + texts(more@),
{
    let ghost start = texts(all@);
    let mut i: usize = 0;
    while i < more.len()
        invariant
            i <= more.len(),
            texts(all@) == start + texts(more@).take(i as int),
        decreases more.len() - i,
    {
        let ghost before = texts(all@);
        all.push(more[i].clone());
        assert(texts(all@) =~= before.push(more@[i as int]@));
        i += 1;
    }
    assert(texts(more@).take(more.len() as int) =~= texts(more@));
}

/// The scopes of a token whose request names none: every scope that the
/// configuration requires of any class of routes, each once and in the
/// order of keys; the three scopes that the gateway knows of itself where
/// the configuration requires none.
pub fn default_scope(cfg: &Config) -> (r: String)
    ensures
        configured_scopes(*cfg).len() == 0 ==> r@ == "obj:write obj:read obj:list"@,
        configured_scopes(*cfg).len() > 0 ==> exists|sorted: Seq<Seq<char>>|
            #![trigger sorted_set_of(sorted, configured_scopes(*cfg))]
            sorted_set_of(sorted, configured_scopes(*cfg)) && r@ == join_with(sorted, seq![' ']),
{
    let mut all: Vec<String> = Vec::new();
    push_all(&mut all, &cfg.jwt_scopes_write);
    push_all(&mut all, &cfg.jwt_scopes_read);
    push_all(&mut all, &cfg.jwt_scopes_list);
    assert(texts(all@) =~= configured_scopes(*cfg));
    if all.len() == 0 {
        "obj:write obj:read obj:list".to_owned()
    } else {
        let sorted = sorted_distinct(&all);
        let r = join_spaced(&sorted);
        assert(sorted_set_of(texts(sorted@), configured_scopes(*cfg)));
        r
    }
}

/// Decides a login at the time `now`: it is offered only where tokens are
/// signed with the shared secret, needs that secret to be configured, and
/// is granted to a user who gives the password. The token names the user,
/// the scopes that the request asks for or else the default ones, this
/// gateway as issuer and the configured audience.
pub fn login(
    cfg: &Config,
    users: &Vec<StoredUser>,
    username: &str,
    password: &str,
    scope: Option<&str>,
    ttl_secs: Option<u64>,
    now: u64,
) -> (r: Result<TokenGrant, ApiError>)
    ensures
        cfg.auth_mode != AuthMode::JwtHs256 ==> r == Err::<TokenGrant, ApiError>(
            ApiError::InvalidArgument,
        ),
        cfg.auth_mode == AuthMode::JwtHs256 && cfg.jwt_hs_secret is None ==> r == Err::<
            TokenGrant,
            ApiError,
        >(ApiError::Misconfigured),
        cfg.auth_mode == AuthMode::JwtHs256 && cfg.jwt_hs_secret is Some && !credentials_hold(
            users@,
            username@,
            password@,
        ) ==> r == Err::<TokenGrant, ApiError>(ApiError::Unauthenticated),
        cfg.auth_mode == AuthMode::JwtHs256 && cfg.jwt_hs_secret is Some && credentials_hold(
            users@,
            username@,
            password@,
        ) ==> match r {
            Ok(grant) => {
                &&& grant.sub@ == username@
                &&& grant.expires_in == granted_ttl(ttl_secs, cfg.auth_max_ttl_secs)
                &&& grant.exp == expiry(now, grant.expires_in)
                &&& grant.iss@ == issuer(*cfg)
                &&& opt_text(grant.aud) == opt_text(cfg.jwt_audience)
                &&& match scope {
                    Some(s) => grant.scope@ == s@,
                    None => {
                        &&& configured_scopes(*cfg).len() == 0 ==> grant.scope@
                            == "obj:write obj:read obj:list"@
                        &&& configured_scopes(*cfg).len() > 0 ==> exists|sorted: Seq<Seq<char>>|
                            #![trigger sorted_set_of(sorted, configured_scopes(*cfg))]
                            sorted_set_of(sorted, configured_scopes(*cfg)) && grant.scope@
                                == join_with(sorted, seq![' '])
                    },
                }
            },
            Err(_) => false,
        },
{
    if !matches!(cfg.auth_mode, AuthMode::JwtHs256) {
        return Err(ApiError::InvalidArgument);
    }
    if cfg.jwt_hs_secret.is_none() {
        return Err(ApiError::Misconfigured);
    }
    if !check_credentials(users, username, password) {
        return Err(ApiError::Unauthenticated);
    }
    let scope = match scope {
        Some(s) => s.to_owned(),
        None => default_scope(cfg),
    };
    let ttl = token_ttl(ttl_secs, cfg.auth_max_ttl_secs);
    let exp = match now.checked_add(ttl) {
        Some(t) => t,
        None => u64::MAX,
    };
    let mut iss = "http://".to_owned();
    iss.append(cfg.host.as_str());
    iss.append(":");
    push_decimal(&mut iss, cfg.port as u64);
    let aud = cfg.jwt_audience.clone();
    Ok(TokenGrant { sub: username.to_owned(), scope, exp, iss, aud, expires_in: ttl })
}

} // verus!

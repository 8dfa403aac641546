//! Signed tokens: checking the signature of a token and reading its JSON.
//!
//! The signature check and the JSON in the token are the work of the
//! crates `jsonwebtoken` and `serde_json`. What this module states of
//! them is taken on trust: each function below makes one call and names
//! what the call returns. Which claims are read, and every rule on what
//! they must say, is decided in [`crate::auth`].

use crate::text::opt_text;
use vstd::prelude::*;

verus! {

/// A JSON value of `serde_json`.
#[verifier::external_type_specification]
#[verifier::external_body]
pub struct ExValue(serde_json::Value);

/// The reason `jsonwebtoken` gives for turning a token down.
#[verifier::external_type_specification]
#[verifier::external_body]
pub struct ExTokenError(jsonwebtoken::errors::Error);

/// The claims of `token`, where `jsonwebtoken::decode` takes it as signed
/// with `secret` by HMAC-SHA256 and as carrying a claim `exp` that is a
/// number.
pub uninterp spec fn hs256_payload(token: Seq<char>, secret: Seq<char>) -> Option<
    serde_json::Value,
>;

/// The member `name` of `value`, where `value` is an object that has one.
pub uninterp spec fn member(value: serde_json::Value, name: Seq<char>) -> Option<
    serde_json::Value,
>;

/// The text of `value`, where it is a string.
pub uninterp spec fn text_of(value: serde_json::Value) -> Option<Seq<char>>;

/// The number `value`, where it is a whole number from 0 to `u64::MAX`.
pub uninterp spec fn number_of(value: serde_json::Value) -> Option<u64>;

/// The items of `value`, where it is an array.
pub uninterp spec fn items_of(value: serde_json::Value) -> Option<Seq<serde_json::Value>>;

/// Calls `jsonwebtoken::decode` with a validation that admits the
/// algorithm HS256 alone, requires the claim `exp` to be there as a
/// number, and checks neither expiry nor audience: both are judged by
/// [`crate::auth::check_claims`], so this call reads no clock. The claims
/// come back where the token has three well-formed parts, names HS256 in
/// its header, bears the signature that `secret` gives and holds a JSON
/// object with such an `exp`; the result depends on `token` and `secret`
/// alone.
#[verifier::external_body]
pub(crate) fn decode_hs256(token: &str, secret: &str) -> (r: Result<
    serde_json::Value,
    jsonwebtoken::errors::Error,
>)
    ensures
        match r {
            Ok(claims) => hs256_payload(token@, secret@) == Some(claims),
            Err(_) => hs256_payload(token@, secret@).is_none(),
        },
{
    let mut validation = jsonwebtoken::Validation::new(jsonwebtoken::Algorithm::HS256);
    validation.validate_exp = false;
    validation.validate_aud = false;
    validation.algorithms = vec![jsonwebtoken::Algorithm::HS256];
    let key = jsonwebtoken::DecodingKey::from_secret(secret.as_bytes());
    jsonwebtoken::decode::<serde_json::Value>(token, &key, &validation).map(|d| d.claims)
}

/// Calls `serde_json::Value::get` with a string as index: the member of
/// that name where the value is an object that has one, `None` for an
/// object without it and for any value that is no object.
#[verifier::external_body]
pub(crate) fn json_member<'a>(value: &'a serde_json::Value, name: &str) -> (r: Option<
    &'a serde_json::Value,
>)
    ensures
        match r {
            Some(m) => member(*value, name@) == Some(*m),
            None => member(*value, name@).is_none(),
        },
{
    value.get(name)
}

/// Calls `serde_json::Value::as_str`: the text of a string, `None` for
/// any other value.
#[verifier::external_body]
pub(crate) fn json_text(value: &serde_json::Value) -> (r: Option<String>)
    ensures
        opt_text(r) == text_of(*value),
{
    value.as_str().map(|s| s.to_string())
}

/// Calls `serde_json::Value::as_u64`: the number where the value is one
/// that `serde_json` holds as a `u64`, `None` for a negative number, a
/// number with a fraction or an exponent, and any value that is no number.
#[verifier::external_body]
pub(crate) fn json_number(value: &serde_json::Value) -> (r: Option<u64>)
    ensures
        r == number_of(*value),
{
    value.as_u64()
}

/// Calls `serde_json::Value::as_array`: the items of an array, `None` for
/// any other value.
#[verifier::external_body]
pub(crate) fn json_items<'a>(value: &'a serde_json::Value) -> (r: Option<
    &'a Vec<serde_json::Value>,
>)
    ensures
        match r {
            Some(items) => items_of(*value) == Some(items@),
            None => items_of(*value).is_none(),
        },
{
    value.as_array()
}

} // verus!

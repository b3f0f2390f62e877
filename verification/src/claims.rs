//! The claims of a bearer token, which is verified upstream.

use crate::json::{from_value, json_contents, text_value, Json, JsonView};
use pdk::jwt::error::JWTError;
use pdk::jwt::model::JWTClaims;
use pdk::jwt::JWTClaimsParser;
use vstd::prelude::*;

verus! {

/// The claims of a token, as `pdk` parses them.
#[verifier::external_type_specification]
#[verifier::external_body]
pub struct ExJWTClaims(JWTClaims);

/// The error of `pdk`'s token parser.
#[verifier::external_type_specification]
#[verifier::external_body]
pub struct ExJWTError(JWTError);

/// What parsed claims hold, by name.
pub uninterp spec fn claim_members(claims: JWTClaims) -> Map<Seq<char>, JsonView>;

/// The claims that `JWTClaimsParser::parse` reads from a token; `None` where it reports an error.
pub uninterp spec fn token_claims(token: Seq<char>) -> Option<Map<Seq<char>, JsonView>>;

/// `JWTClaimsParser::parse`: the claims that [`token_claims`] names, or an error where it names
/// none. They depend on the token alone: no signature is verified, and no clock is read.
#[verifier::external_body]
fn parse_token(token: String) -> (r: Result<JWTClaims, JWTError>)
    ensures
        match r {
            Ok(claims) => token_claims(token@) == Some(claim_members(claims)),
            Err(_) => token_claims(token@) is None,
        },
{
    JWTClaimsParser::parse(token)
}

/// `JWTClaims::get_claim` for a `serde_json::Value`: the value of the claim, or `None` where there
/// is no such claim.
#[verifier::external_body]
fn claim_value(claims: &JWTClaims, name: &str) -> (r: Option<serde_json::Value>)
    ensures
        match r {
            Some(value) => claim_members(*claims).dom().contains(name@) && claim_members(
                *claims,
            )[name@] == json_contents(value),
            None => !claim_members(*claims).dom().contains(name@),
        },
{
    claims.get_claim::<serde_json::Value>(name)
}

/// The text of a claim; `None` where the claim is missing or is no text.
pub open spec fn text_claim(
    claims: Option<Map<Seq<char>, JsonView>>,
    name: Seq<char>,
) -> Option<Seq<char>> {
    match claims {
        Some(members) => if members.dom().contains(name) {
            text_value(members[name])
        } else {
            None
        },
        None => None,
    }
}

/// Reads the text of a claim in a token. A token that cannot be read has no claims.
pub fn claim_text(token: String, name: &str) -> (r: Option<String>)
    ensures
        match r {
            Some(text) => text_claim(token_claims(token@), name@) == Some(text@),
            None => text_claim(token_claims(token@), name@) is None,
        },
{
    match parse_token(token) {
        Ok(claims) => match claim_value(&claims, name) {
            Some(value) => match from_value(value) {
                Json::Text(text) => Some(text),
                _ => None,
            },
            None => None,
        },
        Err(_) => None,
    }
}

/// A claim has a text exactly where the token can be read, has the claim, and the claim is that text.
pub proof fn only_text_claims_are_read(
    claims: Option<Map<Seq<char>, JsonView>>,
    name: Seq<char>,
    text: Seq<char>,
)
    ensures
        text_claim(claims, name) == Some(text) <==> claims is Some && claims->0.dom().contains(name)
            && claims->0[name] == JsonView::Text(text),
{
}

} // verus!

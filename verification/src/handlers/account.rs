//! Account endpoints and the bearer-token check that every authenticated
//! endpoint starts with.
use crate::handlers::{Reply, reply};
use crate::ids::{parse_uuid, uuid_parsed};
use crate::text::{starts_with, str_equals, str_uppercase, to_uppercase};
use jsonwebtoken::{decode, DecodingKey, Validation};
use vstd::prelude::*;
use vstd::string::*;

verus! {

pub const MISSING_HEADER: &'static str = "Missing Authorization Header";

pub const BAD_HEADER: &'static str = "Invalid Header FOrmatting!";

pub const NOT_BEARER: &'static str = "Authorization scheme must be bearer";

pub const BAD_TOKEN: &'static str = "Cryptographic token verification failed.";

pub const BAD_SUBJECT: &'static str = "Malformed User UUID payload inside token";

/// The secret that signs tokens where none is configured.
pub const FALLBACK_JWT_SECRET: &'static str = "default_fallback_secret_key_string_matrix_987";

/// The `Authorization` header of a request, as far as it can be read.
#[derive(Clone, Debug)]
pub enum AuthHeader {
    /// The request has no such header.
    Missing,
    /// The header's value is not visible ASCII text.
    Unreadable,
    /// The header's text.
    Text(String),
}

/// A deposit's amount, by its sign.
#[derive(Clone, Copy, Debug, PartialEq, Eq, Structural)]
pub enum AmountSign {
    Negative,
    Zero,
    Positive,
}

/// The body of a deposit: the amount (by its sign; the caller keeps the
/// number for the database) and the asset.
#[derive(Clone, Debug)]
pub struct OnRampPayload {
    pub amount_sign: AmountSign,
    pub asset: String,
}

/// A user's balances, as decimal text.
#[derive(Clone, Debug)]
pub struct BalanceResponse {
    pub user_id: u128,
    pub available_balance: String,
    pub locked_balance: String,
}

/// The token a header carries, or why it carries none: the header must be
/// present, readable, and start with `Bearer `; the token is what follows.
pub open spec fn bearer_token_of(h: AuthHeader) -> Result<Seq<char>, Seq<char>> {
    match h {
        AuthHeader::Missing => Err(MISSING_HEADER@),
        AuthHeader::Unreadable => Err(BAD_HEADER@),
        AuthHeader::Text(t) => if t@.len() >= 7 && t@.subrange(0, 7) == "Bearer "@ {
            Ok(t@.subrange(7, t@.len() as int))
        } else {
            Err(NOT_BEARER@)
        },
    }
}

/// The token of an `Authorization` header: see `bearer_token_of`.
pub fn bearer_token(h: &AuthHeader) -> (r: Result<String, &'static str>)
    ensures
        match r {
            Ok(t) => bearer_token_of(*h) == Ok::<Seq<char>, Seq<char>>(t@),
            Err(e) => bearer_token_of(*h) == Err::<Seq<char>, Seq<char>>(e@),
        },
{
    proof {
        reveal_strlit("Bearer ");
    }
    match h {
        AuthHeader::Missing => Err(MISSING_HEADER),
        AuthHeader::Unreadable => Err(BAD_HEADER),
        AuthHeader::Text(t) => {
            let s = t.as_str();
            if starts_with(s, "Bearer ") {
                let n = s.unicode_len();
                let token = s.substring_char(7, n);
                Ok(token.to_owned())
            } else {
                Err(NOT_BEARER)
            }
        },
    }
}

/// The user a verified token names: the token's subject must be a UUID. A
/// token that did not verify (`None`) names nobody.
pub open spec fn user_of_subject(subject: Option<Seq<char>>) -> Result<u128, Seq<char>> {
    match subject {
        None => Err(BAD_TOKEN@),
        Some(s) => match uuid_parsed(s) {
            None => Err(BAD_SUBJECT@),
            Some(id) => Ok(id),
        },
    }
}

/// The user named by the subject of a token, `None` where the token did not
/// verify: see `user_of_subject`.
pub fn user_id_from_subject(subject: Option<&str>) -> (r: Result<u128, &'static str>)
    ensures
        match r {
            Ok(id) => user_of_subject(
                match subject {
                    Some(s) => Some(s@),
                    None => None,
                },
            ) == Ok::<u128, Seq<char>>(id),
            Err(e) => user_of_subject(
                match subject {
                    Some(s) => Some(s@),
                    None => None,
                },
            ) == Err::<u128, Seq<char>>(e@),
        },
{
    match subject {
        None => Err(BAD_TOKEN),
        Some(s) => match parse_uuid(s) {
            Some(id) => Ok(id),
            None => Err(BAD_SUBJECT),
        },
    }
}

/// The subject of a token whose HS256 signature is valid under the secret
/// and whose `sub` claim is a string (what decoding gives apart from its
/// checks against the clock), or `None`.
pub uninterp spec fn jwt_subject(token: Seq<char>, secret: Seq<char>) -> Option<Seq<char>>;

/// Calls `jsonwebtoken::decode` with the default validation (HS256, a
/// signature made with the secret, and an `exp` claim not yet past by the
/// clock) and gives the token's `sub` claim where it is a string; `None`
/// where decoding fails or the claim is missing. Whether it succeeds depends
/// on the clock; claimed: a subject that comes back is the token's subject
/// under the secret (named `jwt_subject`).
#[verifier::external_body]
fn decode_subject(token: &str, secret: &str) -> (r: Option<String>)
    ensures
        r matches Some(s) ==> jwt_subject(token@, secret@) == Some(s@),
{
    let key = DecodingKey::from_secret(secret.as_bytes());
    match decode::<serde_json::Value>(token, &key, &Validation::default()) {
        Ok(data) => data.claims.get("sub").and_then(|v| v.as_str()).map(|s| s.to_string()),
        Err(_) => None,
    }
}

/// The user a request's `Authorization` header names: the header's bearer
/// token (see `bearer_token_of`, whose refusals are given as they are) is
/// decoded with the secret. A user that comes back is the token's subject
/// under the secret (`jwt_subject`) read as a UUID; a token that does not
/// decode (as now, by the clock) is refused with `BAD_TOKEN`, and a subject
/// that is no UUID with `BAD_SUBJECT`.
pub fn extract_user_id(h: &AuthHeader, secret: &str) -> (r: Result<u128, &'static str>)
    ensures
        match bearer_token_of(*h) {
            Err(e) => r matches Err(x) && x@ == e,
            Ok(tok) => match r {
                Ok(id) => exists|s: Seq<char>|
                    #![trigger user_of_subject(Some(s))]
                    jwt_subject(tok, secret@) == Some(s) && user_of_subject(Some(s)) == Ok::<
                        u128,
                        Seq<char>,
                    >(id),
                Err(e) => e@ == BAD_TOKEN@ || exists|s: Seq<char>|
                    #![trigger user_of_subject(Some(s))]
                    jwt_subject(tok, secret@) == Some(s) && user_of_subject(Some(s)) == Err::<
                        u128,
                        Seq<char>,
                    >(e@),
            },
        },
{
    let token = match bearer_token(h) {
        Ok(t) => t,
        Err(e) => {
            return Err(e);
        },
    };
    match decode_subject(token.as_str(), secret) {
        Some(s) => {
            let r = user_id_from_subject(Some(s.as_str()));
            proof {
                assert(jwt_subject(token@, secret@) == Some(s@));
                let sv = s@;
                assert(uuid_parsed(sv) == uuid_parsed(sv));
                match r {
                    Ok(id) => {
                        assert(user_of_subject(Some(sv)) == Ok::<u128, Seq<char>>(id));
                    },
                    Err(e) => {
                        assert(user_of_subject(Some(sv)) == Err::<u128, Seq<char>>(e@));
                    },
                }
            }
            r
        },
        None => Err(BAD_TOKEN),
    }
}

/// The token secret: the configured one, or the fallback.
pub fn jwt_secret_or_fallback(configured: Option<String>) -> (r: String)
    ensures
        r@ == match configured {
            Some(s) => s@,
            None => FALLBACK_JWT_SECRET@,
        },
{
    match configured {
        Some(s) => s,
        None => FALLBACK_JWT_SECRET.to_owned(),
    }
}

pub const BAD_AMOUNT: &'static str = "Deposit allocation amount must be greater than zero";

pub const BAD_ASSET: &'static str = "Currently, only USD assets are supported for processing";

/// Whether a deposit is accepted: a positive amount of `USD` (in any case).
pub open spec fn onramp_check(p: OnRampPayload) -> Result<(), Seq<char>> {
    if p.amount_sign != AmountSign::Positive {
        Err(BAD_AMOUNT@)
    } else if str_uppercase(p.asset@) != "USD"@ {
        Err(BAD_ASSET@)
    } else {
        Ok(())
    }
}

/// Checks a deposit: see `onramp_check`. A refusal is answered `400`.
pub fn validate_onramp(p: &OnRampPayload) -> (r: Result<(), Reply>)
    ensures
        match r {
            Ok(()) => onramp_check(*p) == Ok::<(), Seq<char>>(()),
            Err(rep) => rep.status == 400 && onramp_check(*p) == Err::<(), Seq<char>>(
                rep.message@,
            ),
        },
{
    if p.amount_sign != AmountSign::Positive {
        return Err(reply(400, BAD_AMOUNT));
    }
    let upper = to_uppercase(p.asset.as_str());
    if !str_equals(upper.as_str(), "USD") {
        return Err(reply(400, BAD_ASSET));
    }
    Ok(())
}

/// The answer to a deposit once the database was asked to credit it:
/// `Some(n)` rows changed, or `None` on a database failure. One or more rows
/// is a success, whose message names the amount and the asset as given.
pub fn onramp_reply(rows: Option<u64>, amount_text: &str, asset: &str) -> (r: Reply)
    ensures
        match rows {
            Some(n) => if n > 0 {
                r.status == 200 && r.message@ == "Successfully deposited "@ + amount_text@ + " "@
                    + asset@
            } else {
                r.status == 404 && r.message@
                    == "Collateral account entry not found for authenticated profile"@
            },
            None => r.status == 500 && r.message@
                == "Failed to commit onramp transaction change context"@,
        },
{
    match rows {
        Some(n) => if n > 0 {
            let mut m = String::from_str("Successfully deposited ");
            m.append(amount_text);
            m.append(" ");
            m.append(asset);
            Reply { status: 200, message: m }
        } else {
            reply(404, "Collateral account entry not found for authenticated profile")
        },
        None => reply(500, "Failed to commit onramp transaction change context"),
    }
}

/// The answer to a balance query once the database was asked: the user's two
/// balances as text, no record (`404`), or a database failure (`500`).
pub fn equity_reply(user_id: u128, record: Option<Option<(String, String)>>) -> (r: Result<
    BalanceResponse,
    Reply,
>)
    ensures
        match record {
            Some(Some((a, l))) => r matches Ok(b) && b.user_id == user_id && b.available_balance@
                == a@ && b.locked_balance@ == l@,
            Some(None) => r matches Err(rep) && rep.status == 404 && rep.message@
                == "No collateral records open for this account profile identifier"@,
            None => r matches Err(rep) && rep.status == 500 && rep.message@
                == "Database network error fetching balance records"@,
        },
{
    match record {
        Some(Some((a, l))) => Ok(BalanceResponse { user_id, available_balance: a, locked_balance: l }),
        Some(None) => Err(
            reply(404, "No collateral records open for this account profile identifier"),
        ),
        None => Err(reply(500, "Database network error fetching balance records")),
    }
}

/// The answer of the fills endpoint.
pub fn fills_reply() -> (r: Reply)
    ensures
        r.status == 200,
        r.message@ == "Trade fills history"@,
{
    reply(200, "Trade fills history")
}

} // verus!

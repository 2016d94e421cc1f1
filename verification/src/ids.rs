//! Identifiers and clocks from outside: random UUIDs, UUID text, the time.
use chrono::Utc;
use uuid::Uuid;
use vstd::prelude::*;

verus! {

/// Calls `Uuid::new_v4`, a random UUID, as its 128-bit value. Claimed of
/// every outcome: the version nibble is 4 and the variant bits are `10` (the
/// generator masks them in).
#[verifier::external_body]
pub(crate) fn new_v4_id() -> (r: u128)
    ensures
        (r >> 76u128) & 0xfu128 == 4,
        (r >> 62u128) & 0x3u128 == 2,
{
    Uuid::new_v4().as_u128()
}

/// Calls `Utc::now().timestamp_millis()`: the current time in milliseconds
/// since the Unix epoch. Nothing is claimed of it.
#[verifier::external_body]
pub(crate) fn now_millis() -> i64 {
    Utc::now().timestamp_millis()
}

/// Calls `Utc::now().timestamp()`: the current time in seconds since the
/// Unix epoch. Claimed: it lies within 8.4e12 seconds of the epoch, as every
/// `DateTime` of chrono does (its dates span the years 262145 BCE to 262143
/// CE).
#[verifier::external_body]
pub(crate) fn now_seconds() -> (r: i64)
    ensures
        -8_400_000_000_000 < r < 8_400_000_000_000,
{
    Utc::now().timestamp()
}

/// What `Uuid::parse_str` gives for a text, as a 128-bit value.
pub uninterp spec fn uuid_parsed(s: Seq<char>) -> Option<u128>;

/// What `Uuid::to_string` gives for a 128-bit value (the hyphenated,
/// lower-case form).
pub uninterp spec fn uuid_text(id: u128) -> Seq<char>;

/// Calls `Uuid::parse_str`; the result is named `uuid_parsed`.
#[verifier::external_body]
pub(crate) fn parse_uuid(s: &str) -> (r: Option<u128>)
    ensures
        r == uuid_parsed(s@),
{
    match Uuid::parse_str(s) {
        Ok(u) => Some(u.as_u128()),
        Err(_) => None,
    }
}

/// Calls `Uuid::to_string`; the result is named `uuid_text`.
#[verifier::external_body]
pub(crate) fn uuid_to_string(id: u128) -> (r: String)
    ensures
        r@ == uuid_text(id),
{
    Uuid::from_u128(id).to_string()
}

} // verus!

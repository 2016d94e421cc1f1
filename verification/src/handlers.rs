//! The HTTP gateway's decisions: what each endpoint accepts, what it asks of
//! the engine, and what it answers. Reading requests, the database, the token
//! codec and the stream are the caller's.
pub mod account;
pub mod auth;
pub mod orders;
pub mod positions;

use vstd::prelude::*;

verus! {

/// An answer of the gateway: an HTTP status and a JSON string body.
#[derive(Clone, Debug)]
pub struct Reply {
    pub status: u16,
    pub message: String,
}

/// A reply with a fixed message.
pub fn reply(status: u16, message: &str) -> (r: Reply)
    ensures
        r.status == status,
        r.message@ == message@,
{
    Reply { status, message: message.to_owned() }
}

} // verus!

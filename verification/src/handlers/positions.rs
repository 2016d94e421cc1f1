//! The position endpoints, which so far answer with a description of what
//! they will list.
use crate::handlers::Reply;
use vstd::prelude::*;
use vstd::string::*;

verus! {

/// The market named in a request's path.
#[derive(Clone, Debug)]
pub struct MarketPath {
    pub market_id: String,
}

/// The answer to a query of open positions: `200`, naming the market as
/// given.
pub fn open_positions_reply(path: &MarketPath) -> (r: Reply)
    ensures
        r.status == 200,
        r.message@ == "Open positions for market "@ + path.market_id@,
{
    let mut m = String::from_str("Open positions for market ");
    m.append(path.market_id.as_str());
    Reply { status: 200, message: m }
}

/// The answer to a query of closed positions: `200`, naming the market as
/// given.
pub fn closed_positions_reply(path: &MarketPath) -> (r: Reply)
    ensures
        r.status == 200,
        r.message@ == "Closed positions history for market "@ + path.market_id@,
{
    let mut m = String::from_str("Closed positions history for market ");
    m.append(path.market_id.as_str());
    Reply { status: 200, message: m }
}

} // verus!

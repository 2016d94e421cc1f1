//! The exchange's shared vocabulary: markets, sides, orders, fills, requests.
//!
//! Identifiers (users, orders, subscriptions) are UUIDs held as their 128-bit
//! value; prices, quantities and balances are `Dec`.
use crate::decimal::Dec;
use crate::text::{str_equals, to_uppercase, str_uppercase};
use vstd::prelude::*;

verus! {

/// A perpetual market.
#[allow(non_camel_case_types)]
#[derive(Clone, Copy, Debug, PartialEq, Eq, Structural, Hash)]
pub enum Market {
    SOL_PERP,
    BTC_PERP,
    ETH_PERP,
}

/// The message given for a market name that is not recognised.
pub const UNKNOWN_MARKET: &'static str = "Unsupported or unmapped market asset indicator";

/// The market an upper-cased name denotes: the market's full name or its
/// base asset.
pub open spec fn market_named(upper: Seq<char>) -> Option<Market> {
    if upper == "SOL_PERP"@ || upper == "SOL"@ {
        Some(Market::SOL_PERP)
    } else if upper == "BTC_PERP"@ || upper == "BTC"@ {
        Some(Market::BTC_PERP)
    } else if upper == "ETH_PERP"@ || upper == "ETH"@ {
        Some(Market::ETH_PERP)
    } else {
        None
    }
}

impl Market {
    /// Reads a market name, case-insensitively: `SOL_PERP` or `SOL`, and so on.
    pub fn from_str(market_str: &str) -> (r: Result<Market, &'static str>)
        ensures
            match r {
                Ok(m) => market_named(str_uppercase(market_str@)) == Some(m),
                Err(e) => market_named(str_uppercase(market_str@)) is None && e@
                    == UNKNOWN_MARKET@,
            },
    {
        let upper = to_uppercase(market_str);
        let u = upper.as_str();
        if str_equals(u, "SOL_PERP") || str_equals(u, "SOL") {
            Ok(Market::SOL_PERP)
        } else if str_equals(u, "BTC_PERP") || str_equals(u, "BTC") {
            Ok(Market::BTC_PERP)
        } else if str_equals(u, "ETH_PERP") || str_equals(u, "ETH") {
            Ok(Market::ETH_PERP)
        } else {
            Err(UNKNOWN_MARKET)
        }
    }

    /// The market's name as the channel names spell it.
    pub fn name(&self) -> (r: &'static str)
        ensures
            r@ == market_name(*self),
    {
        match self {
            Market::SOL_PERP => "SOL_PERP",
            Market::BTC_PERP => "BTC_PERP",
            Market::ETH_PERP => "ETH_PERP",
        }
    }

    /// A position of the market in `all_markets()`.
    pub fn index(&self) -> (r: usize)
        ensures
            r < 3,
            r == market_index(*self),
    {
        match self {
            Market::SOL_PERP => 0,
            Market::BTC_PERP => 1,
            Market::ETH_PERP => 2,
        }
    }
}

pub open spec fn market_name(m: Market) -> Seq<char> {
    match m {
        Market::SOL_PERP => "SOL_PERP"@,
        Market::BTC_PERP => "BTC_PERP"@,
        Market::ETH_PERP => "ETH_PERP"@,
    }
}

pub open spec fn market_index(m: Market) -> nat {
    match m {
        Market::SOL_PERP => 0,
        Market::BTC_PERP => 1,
        Market::ETH_PERP => 2,
    }
}

/// The markets, in the order in which the engine visits them.
pub open spec fn spec_all_markets() -> Seq<Market> {
    seq![Market::SOL_PERP, Market::BTC_PERP, Market::ETH_PERP]
}

pub fn all_markets() -> (r: [Market; 3])
    ensures
        r@ == spec_all_markets(),
{
    [Market::SOL_PERP, Market::BTC_PERP, Market::ETH_PERP]
}

pub proof fn lemma_market_index(m: Market)
    ensures
        spec_all_markets()[market_index(m) as int] == m,
{
}

#[derive(Clone, Copy, Debug, PartialEq, Eq, Structural)]
pub enum OrderSide {
    BUY,
    SELL,
}

#[derive(Clone, Copy, Debug, PartialEq, Eq, Structural)]
pub enum OrderType {
    LIMIT,
    MARKET,
}

#[derive(Clone, Copy, Debug, PartialEq, Eq, Structural)]
pub enum OrderStatus {
    Pending,
    Filled,
    PartiallyFilled,
    Cancelled,
}

#[derive(Clone, Copy, Debug)]
pub struct UserBalance {
    pub available_balance: Dec,
    pub locked_balance: Dec,
}

#[derive(Clone, Copy, Debug)]
pub struct Order {
    pub user_id: u128,
    pub order_id: u128,
    pub price: Dec,
    pub quantity: Dec,
}

#[derive(Clone, Copy, Debug)]
pub struct OrderPayload {
    pub market: Market,
    pub order: Order,
    pub order_side: OrderSide,
    pub order_type: OrderType,
    pub timestamp: i64,
}

#[derive(Clone, Copy, Debug)]
pub struct Fill {
    pub price: Dec,
    pub quantity: Dec,
    pub taker_user_id: u128,
    pub taker_order_id: u128,
    pub maker_user_id: u128,
    pub maker_order_id: u128,
    pub market: Market,
}

#[derive(Clone, Debug)]
pub struct ProcessOrderResult {
    pub fills: Vec<Fill>,
    pub executed_quantity: Dec,
}

#[derive(Clone, Debug)]
pub struct OrderBookDepth {
    pub bids: Vec<(Dec, Dec)>,
    pub asks: Vec<(Dec, Dec)>,
}

#[derive(Clone, Copy, Debug)]
pub struct CreateOrderArgs {
    pub order_id: u128,
    pub market: Market,
    pub price: Dec,
    pub quantity: Dec,
    pub side: OrderSide,
    pub order_type: OrderType,
    pub user_id: u128,
    pub pubsub_id: Option<u128>,
    pub leverage: Dec,
}

#[derive(Clone, Copy, Debug)]
pub struct CancelOrderArgs {
    pub order_id: u128,
    pub user_id: u128,
    pub price: Dec,
    pub side: OrderSide,
    pub market: Market,
    pub pubsub_id: Option<u128>,
}

#[derive(Clone, Copy, Debug)]
pub struct GetOpenOrders {
    pub user_id: u128,
    pub market: Market,
    pub pubsub_id: Option<u128>,
}

#[derive(Clone, Copy, Debug)]
pub struct IndexPriceUpdate {
    pub market: Market,
    pub price: Dec,
}

/// A request on the engine's ingestion stream.
#[derive(Clone, Copy, Debug)]
pub enum OrderRequests {
    CreateOrder(CreateOrderArgs),
    CancelOrder(CancelOrderArgs),
    GetOpenOrders(GetOpenOrders),
    MarkTick,
    ExternalMarkUpdate { market: Market, price: Dec },
    IndexUpdate(IndexPriceUpdate),
}

/// A position removed by liquidation: its user and market, the isolated
/// margin it held, and the mark at which it was removed.
#[derive(Clone, Copy, Debug)]
pub struct LiquidationNotice {
    pub user_id: u128,
    pub market: Market,
    pub wiped_margin: Dec,
    pub execution_mark: Dec,
}

/// The direction of a user's isolated-margin position.
#[derive(Clone, Copy, Debug, PartialEq, Eq, Structural)]
pub enum PositionSide {
    Long,
    Short,
    Flat,
}

/// A user's net position in one market: positive size is long. A limit
/// order with a positive leverage sets the position's isolated margin, its
/// leverage, its side and its liquidation price.
#[derive(Clone, Copy, Debug)]
pub struct Position {
    pub market: Market,
    pub size: Dec,
    pub avg_entry_price: Dec,
    pub unrealized_pnl: Dec,
    pub margin: Dec,
    pub leverage: Dec,
    pub side: PositionSide,
    pub liquidation_price: Dec,
}

#[derive(Clone, Copy, Debug)]
pub struct MarkPriceTelemetry {
    pub market: Market,
    pub market_price: Dec,
    pub c1_smoothed: Dec,
    pub c2_local: Dec,
    pub c3_external: Dec,
}

#[derive(Clone, Copy, Debug)]
pub struct FundingTelemetry {
    pub market: Market,
    pub index_price: Dec,
    pub premium_index: Dec,
    pub current_hourly_rate: Dec,
}

} // verus!

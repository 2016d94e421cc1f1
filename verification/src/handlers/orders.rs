//! The order endpoints: a new order, a cancellation and a query of open
//! orders each become one request on the engine's ingestion stream.
use crate::decimal::{Dec, spec_zero};
use crate::handlers::{Reply, reply};
use crate::ids::{new_v4_id, parse_uuid, uuid_parsed};
use crate::text::{str_equals, str_uppercase, to_uppercase};
use crate::types::{
    CancelOrderArgs,
    CreateOrderArgs,
    GetOpenOrders,
    Market,
    OrderRequests,
    OrderSide,
    OrderType,
    market_named,
    UNKNOWN_MARKET,
};
use vstd::prelude::*;

verus! {

pub const BAD_SIDE: &'static str = "Execution side mapping must be BUY or SELL";

pub const BAD_ORDER_TYPE: &'static str = "Unsupported order type specification";

pub const BAD_SIZE: &'static str = "Order allocation quantity must be greater than zero";

pub const BAD_LIMIT_PRICE: &'static str = "Limit orders require a valid price threshold above zero";

pub const BAD_CANCEL_SIDE: &'static str = "Invalid execution side parameter";

pub const BAD_ORDER_ID: &'static str = "Malformed Order UUID string parameter";

/// The body of a new order.
#[derive(Clone, Debug)]
pub struct OrderInputPayload {
    pub order_id: u128,
    pub market_id: String,
    pub side: String,
    pub order_type: String,
    pub price: Dec,
    pub size: Dec,
    pub leverage: Dec,
}

/// The body of a cancellation.
#[derive(Clone, Debug)]
pub struct CancelOrderPayload {
    pub market_id: String,
    pub side: String,
    pub price: Dec,
}

/// The market named in a request's path.
#[derive(Clone, Debug)]
pub struct MarketPath {
    pub market_id: String,
}

/// The side an upper-cased word names.
pub open spec fn side_named(upper: Seq<char>) -> Option<OrderSide> {
    if upper == "BUY"@ {
        Some(OrderSide::BUY)
    } else if upper == "SELL"@ {
        Some(OrderSide::SELL)
    } else {
        None
    }
}

/// The order type an upper-cased word names.
pub open spec fn type_named(upper: Seq<char>) -> Option<OrderType> {
    if upper == "LIMIT"@ {
        Some(OrderType::LIMIT)
    } else if upper == "MARKET"@ {
        Some(OrderType::MARKET)
    } else {
        None
    }
}

/// The request a new order becomes, or the reason it is refused: the market,
/// the side and the type are read case-insensitively (in that order), the
/// size must be positive, and a limit order needs a positive price. A market
/// order carries the price zero.
pub open spec fn create_request_for(user_id: u128, p: OrderInputPayload, pubsub_id: u128) -> Result<
    OrderRequests,
    Seq<char>,
> {
    match market_named(str_uppercase(p.market_id@)) {
        None => Err(UNKNOWN_MARKET@),
        Some(market) => match side_named(str_uppercase(p.side@)) {
            None => Err(BAD_SIDE@),
            Some(side) => match type_named(str_uppercase(p.order_type@)) {
                None => Err(BAD_ORDER_TYPE@),
                Some(order_type) => if p.size.val() <= 0 {
                    Err(BAD_SIZE@)
                } else if order_type == OrderType::LIMIT && p.price.val() <= 0 {
                    Err(BAD_LIMIT_PRICE@)
                } else {
                    Ok(
                        OrderRequests::CreateOrder(
                            CreateOrderArgs {
                                order_id: p.order_id,
                                market,
                                price: if order_type == OrderType::LIMIT {
                                    p.price
                                } else {
                                    spec_zero()
                                },
                                quantity: p.size,
                                side,
                                order_type,
                                user_id,
                                pubsub_id: Some(pubsub_id),
                                leverage: p.leverage,
                            },
                        ),
                    )
                },
            },
        },
    }
}

/// The request a cancellation becomes, or the reason it is refused: the
/// order id in the path must be a UUID, then the market and the side are
/// read case-insensitively.
pub open spec fn cancel_request_for(
    user_id: u128,
    order_id: Seq<char>,
    p: CancelOrderPayload,
    pubsub_id: u128,
) -> Result<OrderRequests, Seq<char>> {
    match uuid_parsed(order_id) {
        None => Err(BAD_ORDER_ID@),
        Some(id) => match market_named(str_uppercase(p.market_id@)) {
            None => Err(UNKNOWN_MARKET@),
            Some(market) => match side_named(str_uppercase(p.side@)) {
                None => Err(BAD_CANCEL_SIDE@),
                Some(side) => Ok(
                    OrderRequests::CancelOrder(
                        CancelOrderArgs {
                            order_id: id,
                            user_id,
                            price: p.price,
                            side,
                            market,
                            pubsub_id: Some(pubsub_id),
                        },
                    ),
                ),
            },
        },
    }
}

/// The request a query of open orders becomes, or the reason it is refused.
pub open spec fn open_orders_request_for(user_id: u128, path: MarketPath, pubsub_id: u128) -> Result<
    OrderRequests,
    Seq<char>,
> {
    match market_named(str_uppercase(path.market_id@)) {
        None => Err(UNKNOWN_MARKET@),
        Some(market) => Ok(
            OrderRequests::GetOpenOrders(
                GetOpenOrders { user_id, market, pubsub_id: Some(pubsub_id) },
            ),
        ),
    }
}

/// Reads a side case-insensitively.
fn read_side(s: &str) -> (r: Option<OrderSide>)
    ensures
        r == side_named(str_uppercase(s@)),
{
    let upper = to_uppercase(s);
    let u = upper.as_str();
    if str_equals(u, "BUY") {
        Some(OrderSide::BUY)
    } else if str_equals(u, "SELL") {
        Some(OrderSide::SELL)
    } else {
        None
    }
}

/// Reads an order type case-insensitively.
fn read_order_type(s: &str) -> (r: Option<OrderType>)
    ensures
        r == type_named(str_uppercase(s@)),
{
    let upper = to_uppercase(s);
    let u = upper.as_str();
    if str_equals(u, "LIMIT") {
        Some(OrderType::LIMIT)
    } else if str_equals(u, "MARKET") {
        Some(OrderType::MARKET)
    } else {
        None
    }
}

/// The request for a new order with subscription id `pubsub_id`: see
/// `create_request_for`.
pub fn build_create_request(user_id: u128, payload: &OrderInputPayload, pubsub_id: u128) -> (r: Result<
    OrderRequests,
    &'static str,
>)
    ensures
        match r {
            Ok(req) => create_request_for(user_id, *payload, pubsub_id) == Ok::<
                OrderRequests,
                Seq<char>,
            >(req),
            Err(e) => create_request_for(user_id, *payload, pubsub_id) == Err::<
                OrderRequests,
                Seq<char>,
            >(e@),
        },
{
    let market = match Market::from_str(payload.market_id.as_str()) {
        Ok(m) => m,
        Err(e) => {
            return Err(e);
        },
    };
    let side = match read_side(payload.side.as_str()) {
        Some(s) => s,
        None => {
            return Err(BAD_SIDE);
        },
    };
    let order_type = match read_order_type(payload.order_type.as_str()) {
        Some(t) => t,
        None => {
            return Err(BAD_ORDER_TYPE);
        },
    };
    let zero = Dec::zero();
    if payload.size.le(&zero) {
        return Err(BAD_SIZE);
    }
    let execution_price = match order_type {
        OrderType::LIMIT => {
            if payload.price.le(&zero) {
                return Err(BAD_LIMIT_PRICE);
            }
            payload.price
        },
        OrderType::MARKET => zero,
    };
    Ok(
        OrderRequests::CreateOrder(
            CreateOrderArgs {
                order_id: payload.order_id,
                market,
                price: execution_price,
                quantity: payload.size,
                side,
                order_type,
                user_id,
                pubsub_id: Some(pubsub_id),
                leverage: payload.leverage,
            },
        ),
    )
}

/// The request for a new order, with a fresh random subscription id: whatever
/// id came back, the result is `create_request_for` with it, and a refusal
/// does not depend on it.
pub fn create_order_request(user_id: u128, payload: &OrderInputPayload) -> (r: Result<
    OrderRequests,
    &'static str,
>)
    ensures
        match r {
            Ok(req) => exists|pubsub_id: u128|
                create_request_for(user_id, *payload, pubsub_id) == Ok::<OrderRequests, Seq<char>>(
                    req,
                ),
            Err(e) => forall|pubsub_id: u128|
                create_request_for(user_id, *payload, pubsub_id) == Err::<OrderRequests, Seq<char>>(
                    e@,
                ),
        },
{
    let pubsub_id = new_v4_id();
    build_create_request(user_id, payload, pubsub_id)
}

/// The request cancelling the order named by `order_id` (the path's text):
/// see `cancel_request_for`.
pub fn build_cancel_request(
    user_id: u128,
    order_id: &str,
    payload: &CancelOrderPayload,
    pubsub_id: u128,
) -> (r: Result<OrderRequests, &'static str>)
    ensures
        match r {
            Ok(req) => cancel_request_for(user_id, order_id@, *payload, pubsub_id) == Ok::<
                OrderRequests,
                Seq<char>,
            >(req),
            Err(e) => cancel_request_for(user_id, order_id@, *payload, pubsub_id) == Err::<
                OrderRequests,
                Seq<char>,
            >(e@),
        },
{
    let id = match parse_uuid(order_id) {
        Some(id) => id,
        None => {
            return Err(BAD_ORDER_ID);
        },
    };
    let market = match Market::from_str(payload.market_id.as_str()) {
        Ok(m) => m,
        Err(e) => {
            return Err(e);
        },
    };
    let side = match read_side(payload.side.as_str()) {
        Some(s) => s,
        None => {
            return Err(BAD_CANCEL_SIDE);
        },
    };
    Ok(
        OrderRequests::CancelOrder(
            CancelOrderArgs {
                order_id: id,
                user_id,
                price: payload.price,
                side,
                market,
                pubsub_id: Some(pubsub_id),
            },
        ),
    )
}

/// The cancellation request, with a fresh random subscription id.
pub fn cancel_order_request(user_id: u128, order_id: &str, payload: &CancelOrderPayload) -> (r: Result<
    OrderRequests,
    &'static str,
>)
    ensures
        match r {
            Ok(req) => exists|pubsub_id: u128|
                cancel_request_for(user_id, order_id@, *payload, pubsub_id) == Ok::<
                    OrderRequests,
                    Seq<char>,
                >(req),
            Err(e) => forall|pubsub_id: u128|
                cancel_request_for(user_id, order_id@, *payload, pubsub_id) == Err::<
                    OrderRequests,
                    Seq<char>,
                >(e@),
        },
{
    let pubsub_id = new_v4_id();
    build_cancel_request(user_id, order_id, payload, pubsub_id)
}

/// The query of a user's open orders in the path's market: see
/// `open_orders_request_for`.
pub fn build_open_orders_request(user_id: u128, path: &MarketPath, pubsub_id: u128) -> (r: Result<
    OrderRequests,
    &'static str,
>)
    ensures
        match r {
            Ok(req) => open_orders_request_for(user_id, *path, pubsub_id) == Ok::<
                OrderRequests,
                Seq<char>,
            >(req),
            Err(e) => open_orders_request_for(user_id, *path, pubsub_id) == Err::<
                OrderRequests,
                Seq<char>,
            >(e@),
        },
{
    match Market::from_str(path.market_id.as_str()) {
        Ok(market) => Ok(
            OrderRequests::GetOpenOrders(
                GetOpenOrders { user_id, market, pubsub_id: Some(pubsub_id) },
            ),
        ),
        Err(e) => Err(e),
    }
}

/// The query of open orders, with a fresh random subscription id.
pub fn open_orders_request(user_id: u128, path: &MarketPath) -> (r: Result<OrderRequests, &'static str>)
    ensures
        match r {
            Ok(req) => exists|pubsub_id: u128|
                open_orders_request_for(user_id, *path, pubsub_id) == Ok::<
                    OrderRequests,
                    Seq<char>,
                >(req),
            Err(e) => forall|pubsub_id: u128|
                open_orders_request_for(user_id, *path, pubsub_id) == Err::<
                    OrderRequests,
                    Seq<char>,
                >(e@),
        },
{
    let pubsub_id = new_v4_id();
    build_open_orders_request(user_id, path, pubsub_id)
}

/// Which of the three order endpoints forwarded a request.
#[derive(Clone, Copy, Debug, PartialEq, Eq, Structural)]
pub enum Forwarded {
    NewOrder,
    Cancellation,
    OpenOrders,
}

/// The answer once a request was (or was not) appended to the stream:
/// `202 Accepted` or `500`, with the endpoint's message.
pub fn forwarded_reply(kind: Forwarded, enqueued: bool) -> (r: Reply)
    ensures
        r.status == if enqueued {
            202u16
        } else {
            500u16
        },
        r.message@ == forwarded_message(kind, enqueued),
{
    match (kind, enqueued) {
        (Forwarded::NewOrder, true) => reply(202, "Order logged cleanly to processing log stream"),
        (Forwarded::NewOrder, false) => reply(
            500,
            "Spine connection interface communication exception",
        ),
        (Forwarded::Cancellation, true) => reply(
            202,
            "Cancellation request dispatched to matcher core",
        ),
        (Forwarded::Cancellation, false) => reply(
            500,
            "Failed to forward transaction down to the engine spine",
        ),
        (Forwarded::OpenOrders, true) => reply(
            202,
            "Fetch open orders transaction logged into stream context",
        ),
        (Forwarded::OpenOrders, false) => reply(500, "Processing pipeline query drop exception"),
    }
}

pub open spec fn forwarded_message(kind: Forwarded, enqueued: bool) -> Seq<char> {
    match (kind, enqueued) {
        (Forwarded::NewOrder, true) => "Order logged cleanly to processing log stream"@,
        (Forwarded::NewOrder, false) => "Spine connection interface communication exception"@,
        (Forwarded::Cancellation, true) => "Cancellation request dispatched to matcher core"@,
        (Forwarded::Cancellation, false) => "Failed to forward transaction down to the engine spine"@,
        (Forwarded::OpenOrders, true) => "Fetch open orders transaction logged into stream context"@,
        (Forwarded::OpenOrders, false) => "Processing pipeline query drop exception"@,
    }
}

/// The answer when reading the order history failed.
pub fn history_failed_reply() -> (r: Reply)
    ensures
        r.status == 500,
        r.message@ == "Failed to extract analytical account order logs"@,
{
    reply(500, "Failed to extract analytical account order logs")
}

} // verus!

//! The engine's side of its message spine: stream and channel names, reading
//! a delivery out of a stream reply, where each engine message goes, and the
//! polling loop's decisions.
use crate::handler::EngineEffect;
use crate::ids::{uuid_text, uuid_to_string};
use crate::types::{IndexPriceUpdate, Market, OrderRequests, market_name};
use crate::decimal::{Dec, spec_zero};
use vstd::prelude::*;
use vstd::string::*;

verus! {

/// The stream on which the engine reads its requests.
pub const INGESTION_STREAM: &'static str = "exchange:ingestion:stream";

/// The stream on which the engine logs its executions.
pub const PERSISTENCE_STREAM: &'static str = "exchange:persistence:stream";

/// The consumer group the engine reads the ingestion stream in.
pub const CONSUMER_GROUP: &'static str = "engine:matching:group";

/// The engine's name within its consumer group.
pub const ENGINE_IDENTITY: &'static str = "matching_engine_primary_node";

/// How often the premium sampling tick is sent, in seconds.
pub const PREMIUM_TICK_SECONDS: u64 = 5;

/// How long the loop waits after an empty read, in milliseconds.
pub const IDLE_WAIT_MILLIS: u64 = 1;

/// How long the loop waits after a failed read, in milliseconds.
pub const FAILURE_WAIT_MILLIS: u64 = 1000;

/// The channel of a market's feed: `market:<MARKET>:<feed>`.
pub open spec fn market_channel_of(m: Market, feed: Seq<char>) -> Seq<char> {
    "market:"@ + market_name(m) + ":"@ + feed
}

/// The channel of a user's updates: `user:<id>:updates`.
pub open spec fn user_channel_of(user: Seq<char>) -> Seq<char> {
    "user:"@ + user + ":updates"@
}

/// The channel of a market's feed.
pub fn market_channel(m: Market, feed: &str) -> (r: String)
    ensures
        r@ == market_channel_of(m, feed@),
{
    let mut c = String::from_str("market:");
    c.append(m.name());
    c.append(":");
    c.append(feed);
    c
}

/// The channel of a user's updates, the user given as text.
pub fn user_channel(user: &str) -> (r: String)
    ensures
        r@ == user_channel_of(user@),
{
    let mut c = String::from_str("user:");
    c.append(user);
    c.append(":updates");
    c
}

/// A value of a stream reply, as far as the engine reads it.
#[derive(Debug)]
pub enum StreamValue {
    /// No value.
    Null,
    /// A list of values.
    Array(Vec<StreamValue>),
    /// A scalar, by its text.
    Text(String),
    /// Any other value (a map, say), which has no text.
    Other,
}

/// The `i`-th item of a list value that is itself a list.
pub open spec fn nested_list(v: StreamValue, i: int) -> Option<StreamValue> {
    match v {
        StreamValue::Array(items) => if 0 <= i < items@.len() && items@[i] is Array {
            Some(items@[i])
        } else {
            None
        },
        _ => None,
    }
}

/// The text of the `i`-th item of a list value, if it has one.
pub open spec fn item_text(v: StreamValue, i: int) -> Option<Seq<char>> {
    match v {
        StreamValue::Array(items) => if 0 <= i < items@.len() {
            match items@[i] {
                StreamValue::Text(s) => Some(s@),
                _ => None,
            }
        } else {
            None
        },
        _ => None,
    }
}

/// The delivery a reply to a group read holds: the first entry of the first
/// stream, as its id (empty where it has no text) and the value of its first
/// field.
pub open spec fn delivery_of(v: StreamValue) -> Option<(Seq<char>, Seq<char>)> {
    match nested_list(v, 0) {
        None => None,
        Some(stream_entry) => match nested_list(stream_entry, 1) {
            None => None,
            Some(entries) => match nested_list(entries, 0) {
                None => None,
                Some(entry) => match nested_list(entry, 1) {
                    None => None,
                    Some(fields) => match item_text(fields, 1) {
                        None => None,
                        Some(raw) => Some(
                            (
                                match item_text(entry, 0) {
                                    Some(id) => id,
                                    None => Seq::empty(),
                                },
                                raw,
                            ),
                        ),
                    },
                },
            },
        },
    }
}

fn nested_list_exec(v: &StreamValue, i: usize) -> (r: Option<&StreamValue>)
    ensures
        match r {
            Some(x) => nested_list(*v, i as int) == Some(*x),
            None => nested_list(*v, i as int) is None,
        },
{
    match v {
        StreamValue::Array(items) => {
            if i < items.len() {
                match &items[i] {
                    StreamValue::Array(_) => Some(&items[i]),
                    _ => None,
                }
            } else {
                None
            }
        },
        _ => None,
    }
}

fn item_text_exec(v: &StreamValue, i: usize) -> (r: Option<String>)
    ensures
        match r {
            Some(s) => item_text(*v, i as int) == Some(s@),
            None => item_text(*v, i as int) is None,
        },
{
    match v {
        StreamValue::Array(items) => {
            if i < items.len() {
                match &items[i] {
                    StreamValue::Text(s) => Some(s.clone()),
                    _ => None,
                }
            } else {
                None
            }
        },
        _ => None,
    }
}

/// The delivery in a reply to a group read: see `delivery_of`.
pub fn read_delivery(v: &StreamValue) -> (r: Option<(String, String)>)
    ensures
        match r {
            Some((id, raw)) => delivery_of(*v) == Some((id@, raw@)),
            None => delivery_of(*v) is None,
        },
{
    let stream_entry = match nested_list_exec(v, 0) {
        Some(x) => x,
        None => {
            return None;
        },
    };
    let entries = match nested_list_exec(stream_entry, 1) {
        Some(x) => x,
        None => {
            return None;
        },
    };
    let entry = match nested_list_exec(entries, 0) {
        Some(x) => x,
        None => {
            return None;
        },
    };
    let fields = match nested_list_exec(entry, 1) {
        Some(x) => x,
        None => {
            return None;
        },
    };
    let raw = match item_text_exec(fields, 1) {
        Some(x) => x,
        None => {
            return None;
        },
    };
    let id = match item_text_exec(entry, 0) {
        Some(x) => x,
        None => String::new(),
    };
    Some((id, raw))
}

/// What one read of the ingestion stream gave.
#[derive(Clone, Debug)]
pub enum PollOutcome {
    /// A delivery: its id and its text.
    Delivery(String, String),
    /// Nothing new.
    Empty,
    /// The read failed.
    Failed,
}

/// What the polling loop does next.
#[derive(Clone, Debug)]
pub enum PollAction {
    /// Decode the text as a request and handle it if it decodes, then
    /// acknowledge the delivery either way.
    Process { delivery_id: String, raw_json: String },
    /// Wait this many milliseconds before reading again.
    Wait(u64),
}

/// The polling loop's decision: a delivery is processed and acknowledged; an
/// empty read waits briefly, a failed one a second.
pub fn next_poll_action(outcome: PollOutcome) -> (r: PollAction)
    ensures
        match outcome {
            PollOutcome::Delivery(id, raw) => r matches PollAction::Process {
                delivery_id,
                raw_json,
            } && delivery_id@ == id@ && raw_json@ == raw@,
            PollOutcome::Empty => r == PollAction::Wait(IDLE_WAIT_MILLIS),
            PollOutcome::Failed => r == PollAction::Wait(FAILURE_WAIT_MILLIS),
        },
{
    match outcome {
        PollOutcome::Delivery(id, raw) => PollAction::Process { delivery_id: id, raw_json: raw },
        PollOutcome::Empty => PollAction::Wait(IDLE_WAIT_MILLIS),
        PollOutcome::Failed => PollAction::Wait(FAILURE_WAIT_MILLIS),
    }
}

/// The request the premium sampling tick sends: an index update of
/// `SOL_PERP` with the price zero, which the engine reads as "sample every
/// market's premium".
pub fn premium_tick_request() -> (r: OrderRequests)
    ensures
        r == OrderRequests::IndexUpdate(
            IndexPriceUpdate { market: Market::SOL_PERP, price: spec_zero() },
        ),
{
    OrderRequests::IndexUpdate(IndexPriceUpdate { market: Market::SOL_PERP, price: Dec::zero() })
}

/// Where an engine message goes.
#[derive(Clone, Debug)]
pub enum Destination {
    /// Appended to the persistence stream.
    PersistenceStream,
    /// Published on a channel.
    Channel(String),
    /// Shown on the engine's console.
    Console,
}

pub open spec fn destination_of(e: EngineEffect) -> Option<Seq<char>> {
    match e {
        EngineEffect::PersistExecution(_) => None,
        EngineEffect::PublishDepth { market, .. } => Some(market_channel_of(market, "depth"@)),
        EngineEffect::PublishFill { user_id, .. } => Some(user_channel_of(uuid_text(user_id))),
        EngineEffect::PublishOpenOrders { user_id, .. } => Some(
            user_channel_of(uuid_text(user_id)),
        ),
        EngineEffect::PublishMarkPrice(t) => Some(market_channel_of(t.market, "mark_price"@)),
        EngineEffect::PublishFunding(t) => Some(market_channel_of(t.market, "funding"@)),
        EngineEffect::PublishLiquidation(n) => Some(market_channel_of(n.market, "liquidations"@)),
        EngineEffect::ShowBook(_) => None,
    }
}

/// Where an engine message goes: executions to the persistence stream, a
/// book's depth to the market's `depth` feed, fills and open orders to the
/// user's update channel, mark prices, funding figures and liquidations to the
/// market's `mark_price`, `funding` and `liquidations` feeds, and a book to
/// the console.
pub fn destination(e: &EngineEffect) -> (r: Destination)
    ensures
        match destination_of(*e) {
            Some(c) => r matches Destination::Channel(ch) && ch@ == c,
            None => if e is ShowBook {
                r is Console
            } else {
                r is PersistenceStream
            },
        },
{
    match e {
        EngineEffect::PersistExecution(_) => Destination::PersistenceStream,
        EngineEffect::PublishDepth { market, .. } => Destination::Channel(
            market_channel(*market, "depth"),
        ),
        EngineEffect::PublishFill { user_id, .. } => {
            let u = uuid_to_string(*user_id);
            Destination::Channel(user_channel(u.as_str()))
        },
        EngineEffect::PublishOpenOrders { user_id, .. } => {
            let u = uuid_to_string(*user_id);
            Destination::Channel(user_channel(u.as_str()))
        },
        EngineEffect::PublishMarkPrice(t) => Destination::Channel(
            market_channel(t.market, "mark_price"),
        ),
        EngineEffect::PublishFunding(t) => Destination::Channel(market_channel(t.market, "funding")),
        EngineEffect::PublishLiquidation(n) => Destination::Channel(
            market_channel(n.market, "liquidations"),
        ),
        EngineEffect::ShowBook(_) => Destination::Console,
    }
}

} // verus!

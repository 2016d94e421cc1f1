use perp_clob::decimal::Dec;
use perp_clob::handler::EngineEffect;
use perp_clob::stream::{
    destination, market_channel, next_poll_action, premium_tick_request, read_delivery,
    user_channel, Destination, PollAction, PollOutcome, StreamValue, FAILURE_WAIT_MILLIS,
    IDLE_WAIT_MILLIS,
};
use perp_clob::types::{Fill, Market, OrderRequests};

fn text(s: &str) -> StreamValue {
    StreamValue::Text(s.to_string())
}

fn group_reply(id: StreamValue, fields: Vec<StreamValue>) -> StreamValue {
    StreamValue::Array(vec![StreamValue::Array(vec![
        text("exchange:ingestion:stream"),
        StreamValue::Array(vec![StreamValue::Array(vec![
            id,
            StreamValue::Array(fields),
        ])]),
    ])])
}

#[test]
fn channel_names() {
    assert_eq!(market_channel(Market::BTC_PERP, "depth"), "market:BTC_PERP:depth");
    assert_eq!(market_channel(Market::SOL_PERP, "funding"), "market:SOL_PERP:funding");
    assert_eq!(user_channel("abc"), "user:abc:updates");
}

#[test]
fn delivery_is_read_from_a_group_reply() {
    let reply = group_reply(text("1700000000000-0"), vec![text("data"), text("{\"MarkTick\":null}")]);
    assert_eq!(
        read_delivery(&reply),
        Some(("1700000000000-0".to_string(), "{\"MarkTick\":null}".to_string()))
    );
}

#[test]
fn delivery_without_an_id_text_gets_an_empty_id() {
    let reply = group_reply(StreamValue::Other, vec![text("data"), text("x")]);
    assert_eq!(read_delivery(&reply), Some((String::new(), "x".to_string())));
}

#[test]
fn malformed_replies_hold_no_delivery() {
    assert_eq!(read_delivery(&StreamValue::Null), None);
    assert_eq!(read_delivery(&text("OK")), None);
    assert_eq!(read_delivery(&StreamValue::Array(vec![])), None);
    let no_value = group_reply(text("1-0"), vec![text("data")]);
    assert_eq!(read_delivery(&no_value), None);
    let value_not_text = group_reply(text("1-0"), vec![text("data"), StreamValue::Null]);
    assert_eq!(read_delivery(&value_not_text), None);
}

#[test]
fn polling_decisions() {
    match next_poll_action(PollOutcome::Delivery("1-0".to_string(), "{}".to_string())) {
        PollAction::Process {
            delivery_id,
            raw_json,
        } => {
            assert_eq!(delivery_id, "1-0");
            assert_eq!(raw_json, "{}");
        }
        other => panic!("unexpected action {:?}", other),
    }
    assert!(matches!(
        next_poll_action(PollOutcome::Empty),
        PollAction::Wait(IDLE_WAIT_MILLIS)
    ));
    assert!(matches!(
        next_poll_action(PollOutcome::Failed),
        PollAction::Wait(FAILURE_WAIT_MILLIS)
    ));
    assert_eq!(IDLE_WAIT_MILLIS, 1);
    assert_eq!(FAILURE_WAIT_MILLIS, 1000);
}

#[test]
fn premium_tick_is_a_zero_index_update() {
    match premium_tick_request() {
        OrderRequests::IndexUpdate(u) => {
            assert_eq!(u.market, Market::SOL_PERP);
            assert!(u.price.is_zero());
        }
        other => panic!("unexpected request {:?}", other),
    }
}

#[test]
fn fills_go_to_the_users_channel() {
    let fill = Fill {
        price: Dec::new(145, 0),
        quantity: Dec::new(1, 0),
        taker_user_id: 0x11111111111111111111111111111111,
        taker_order_id: 1,
        maker_user_id: 2,
        maker_order_id: 3,
        market: Market::SOL_PERP,
    };
    let e = EngineEffect::PublishFill {
        user_id: 0x11111111111111111111111111111111,
        fill,
    };
    match destination(&e) {
        Destination::Channel(c) => {
            assert_eq!(c, "user:11111111-1111-1111-1111-111111111111:updates")
        }
        other => panic!("unexpected destination {:?}", other),
    }
    assert!(matches!(
        destination(&EngineEffect::ShowBook(Market::ETH_PERP)),
        Destination::Console
    ));
}

#[test]
fn decimal_arithmetic() {
    let a = Dec::new(15, 1);
    let b = Dec::new(25, 2);
    assert!(a.add(b).unwrap().eq_value(&Dec::new(175, 2)));
    assert!(a.sub(b).unwrap().eq_value(&Dec::new(125, 2)));
    assert!(a.mul(b).unwrap().eq_value(&Dec::new(375, 3)));
    assert!(a.div(b).unwrap().eq_value(&Dec::new(6, 0)));
    assert!(a.div(Dec::zero()).is_none());
    assert!(Dec::new(2, 0).div(Dec::new(3, 0)).unwrap().round_dp(4).eq_value(&Dec::new(6667, 4)));
    assert!(a.neg().eq_value(&Dec::new(-15, 1)));
    assert!(a.neg().abs().eq_value(&a));
    assert!(b.lt(&a) && a.gt(&b) && a.ge(&a) && a.le(&a));
    assert!(Dec::new(10, 1).eq_value(&Dec::new(1, 0)));
    assert!(a.clamp(Dec::zero(), Dec::new(1, 0)).eq_value(&Dec::new(1, 0)));
    assert!(a.min(b).eq_value(&b) && a.max(b).eq_value(&a));
    assert!(Dec::from_parts(1, 29).is_none());
    // Mixed scales add and subtract exactly at the larger scale.
    let d = Dec::new(100000, 2).sub(Dec::new(1000000, 3)).unwrap();
    assert!(d.is_zero() && d.scale() == 3);
    let e = Dec::new(15, 1).add(Dec::new(25, 2)).unwrap();
    assert_eq!((e.mantissa(), e.scale()), (175, 2));
    let big = Dec::from_parts(79228162514264337593543950335, 0).unwrap();
    assert!(big.add(big).is_none());
}

use perp_clob::decimal::Dec;
use perp_clob::orderbook::Orderbook;
use perp_clob::types::{Market, Order, OrderSide, OrderType};

fn new_v4_id() -> u128 {
    uuid::Uuid::new_v4().as_u128()
}

fn dec(mantissa: i64, scale: u32) -> Dec {
    Dec::new(mantissa, scale)
}

fn assert_dec(actual: Dec, expected: Dec) {
    assert!(
        actual.eq_value(&expected),
        "expected {:?}, got {:?}",
        expected,
        actual
    );
}

fn assert_level(actual: (Dec, Dec), expected: (Dec, Dec)) {
    assert_dec(actual.0, expected.0);
    assert_dec(actual.1, expected.1);
}

fn fifo_execution_and_partial_fills() {
    let mut book = Orderbook::new(Market::SOL_PERP);
    let maker_1 = new_v4_id();
    let maker_2 = new_v4_id();
    let taker = new_v4_id();

    let client_order_1 = new_v4_id();
    let client_order_2 = new_v4_id();

    let sell_1 = Order {
        user_id: maker_1,
        order_id: client_order_1,
        price: dec(14500, 2),
        quantity: dec(100, 1),
    };
    let sell_2 = Order {
        user_id: maker_2,
        order_id: client_order_2,
        price: dec(14500, 2),
        quantity: dec(50, 1),
    };

    book.process_order(sell_1, OrderSide::SELL, OrderType::LIMIT)
        .unwrap();
    book.process_order(sell_2, OrderSide::SELL, OrderType::LIMIT)
        .unwrap();

    let initial_depth = book.get_depth().unwrap();
    assert_level(initial_depth.asks[0], (dec(14500, 2), dec(150, 1)));

    let taker_order = Order {
        user_id: taker,
        order_id: new_v4_id(),
        price: dec(0, 1),
        quantity: dec(125, 1),
    };
    let match_summary = book
        .process_order(taker_order, OrderSide::BUY, OrderType::MARKET)
        .unwrap();

    assert_dec(match_summary.executed_quantity, dec(125, 1));
    assert_eq!(match_summary.fills.len(), 2);

    assert_eq!(match_summary.fills[0].maker_order_id, client_order_1);
    assert_dec(match_summary.fills[0].quantity, dec(100, 1));

    assert_eq!(match_summary.fills[1].maker_order_id, client_order_2);
    assert_dec(match_summary.fills[1].quantity, dec(25, 1));

    let post_match_depth = book.get_depth().unwrap();
    assert_level(post_match_depth.asks[0], (dec(14500, 2), dec(25, 1)));
}

#[test]
fn lib_test_clob_core_fifo_execution_and_partial_fills() {
    fifo_execution_and_partial_fills();
}

#[test]
fn orderbook_test_clob_core_fifo_execution_and_partial_fills() {
    fifo_execution_and_partial_fills();
}

fn side_total(levels: &[(Dec, Dec)]) -> Dec {
    let mut total = Dec::zero();
    for (_, q) in levels {
        total = total.add(*q).unwrap();
    }
    total
}

#[test]
fn matching_takes_the_executed_quantity_from_the_opposite_side() {
    let mut book = Orderbook::new(Market::SOL_PERP);
    let maker_1 = new_v4_id();
    let maker_2 = new_v4_id();
    let taker = new_v4_id();
    let ask_1 = Order {
        user_id: maker_1,
        order_id: new_v4_id(),
        price: dec(14500, 2),
        quantity: dec(100, 1),
    };
    let ask_2 = Order {
        user_id: maker_2,
        order_id: new_v4_id(),
        price: dec(14600, 2),
        quantity: dec(50, 1),
    };
    book.process_order(ask_1, OrderSide::SELL, OrderType::LIMIT).unwrap();
    book.process_order(ask_2, OrderSide::SELL, OrderType::LIMIT).unwrap();
    let before = side_total(&book.get_depth().unwrap().asks);
    assert_dec(before, dec(150, 1));

    let bid = Order {
        user_id: taker,
        order_id: new_v4_id(),
        price: dec(14550, 2),
        quantity: dec(120, 1),
    };
    let result = book.process_order(bid, OrderSide::BUY, OrderType::LIMIT).unwrap();
    assert_dec(result.executed_quantity, dec(100, 1));

    let depth = book.get_depth().unwrap();
    let after = side_total(&depth.asks);
    assert_dec(before.sub(after).unwrap(), result.executed_quantity);
    assert_eq!(depth.bids.len(), 1);
    assert_level(depth.bids[0], (dec(14550, 2), dec(20, 1)));

    // The filled maker leaves the indexes; the others stay in them.
    assert!(book.get_open_orders_for_user(maker_1).is_empty());
    let still = book.get_open_orders_for_user(maker_2);
    assert_eq!(still.len(), 1);
    assert_eq!(still[0].order_id, ask_2.order_id);
    let rested = book.get_open_orders_for_user(taker);
    assert_eq!(rested.len(), 1);
    assert_eq!(rested[0].order_id, bid.order_id);
    assert_dec(rested[0].quantity, dec(20, 1));
}

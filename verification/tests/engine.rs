use perp_clob::decimal::Dec;
use perp_clob::engine::{median_of_three, next_position, ExecuteEngine, SANDBOX_USER_1, SANDBOX_USER_2};
use perp_clob::handler::EngineEffect;
use perp_clob::market_map::MarketMap;
use perp_clob::stream::{destination, Destination};
use perp_clob::types::{
    CancelOrderArgs, CreateOrderArgs, GetOpenOrders, IndexPriceUpdate, Market, OrderRequests,
    OrderSide, OrderType, Position, PositionSide, UserBalance,
};

fn new_v4_id() -> u128 {
    uuid::Uuid::new_v4().as_u128()
}

fn dec(mantissa: i64, scale: u32) -> Dec {
    Dec::new(mantissa, scale)
}

fn assert_dec(actual: Dec, expected: Dec) {
    assert!(
        actual.eq_value(&expected),
        "expected {:?}, got {:?}",
        expected,
        actual
    );
}

fn wallet(engine: &ExecuteEngine, user: u128) -> UserBalance {
    *engine.user_wallets.get(&user).unwrap()
}

fn position(engine: &ExecuteEngine, user: u128, market: Market) -> Position {
    engine
        .user_positions
        .get(&user)
        .unwrap()
        .get(market)
        .unwrap()
}

fn flat(market: Market) -> Position {
    Position {
        market,
        size: Dec::zero(),
        avg_entry_price: Dec::zero(),
        unrealized_pnl: Dec::zero(),
        margin: Dec::zero(),
        leverage: Dec::zero(),
        side: PositionSide::Flat,
        liquidation_price: Dec::zero(),
    }
}

fn limit(user: u128, side: OrderSide, price: Dec, quantity: Dec) -> CreateOrderArgs {
    CreateOrderArgs {
        order_id: new_v4_id(),
        market: Market::SOL_PERP,
        price,
        quantity,
        side,
        order_type: OrderType::LIMIT,
        user_id: user,
        pubsub_id: None,
        leverage: dec(1, 0),
    }
}

fn engine_with_funding_samples(sample: Dec) -> (ExecuteEngine, u128, u128) {
    let mut engine = ExecuteEngine::new();
    let market = Market::SOL_PERP;
    let user_long = new_v4_id();
    let user_short = new_v4_id();
    for user in [user_long, user_short] {
        engine.user_wallets.insert(
            user,
            UserBalance {
                available_balance: dec(100000, 2),
                locked_balance: Dec::zero(),
            },
        );
    }
    let mut long_map = MarketMap::empty();
    long_map.insert(
        market,
        Position {
            size: dec(500, 1),
            ..flat(market)
        },
    );
    engine.user_positions.insert(user_long, long_map);
    let mut short_map = MarketMap::empty();
    short_map.insert(
        market,
        Position {
            size: dec(-500, 1),
            ..flat(market)
        },
    );
    engine.user_positions.insert(user_short, short_map);
    engine.index_prices.insert(market, dec(14500, 2));
    for _ in 0..12 {
        engine.premium_samples[market.index()].push(sample);
    }
    (engine, user_long, user_short)
}

#[test]
fn test_funding_payment_settlement() {
    let market = Market::SOL_PERP;
    let (mut engine, user_long, user_short) = engine_with_funding_samples(dec(2, 2));

    engine.settle_hourly_funding_window(market).unwrap();

    let final_rate = engine.current_funding_rates.get(market).unwrap();
    assert_dec(final_rate, dec(24375, 7));

    let expected_payment = dec(17671875, 6);
    let long_wallet = wallet(&engine, user_long);
    let short_wallet = wallet(&engine, user_short);
    assert_dec(
        long_wallet.available_balance,
        dec(100000, 2).sub(expected_payment).unwrap(),
    );
    assert_dec(
        short_wallet.available_balance,
        dec(100000, 2).add(expected_payment).unwrap(),
    );
    assert!(engine.premium_samples[market.index()].is_empty());
}

#[test]
fn funding_moves_money_between_longs_and_shorts() {
    let market = Market::SOL_PERP;
    let (mut engine, user_long, user_short) = engine_with_funding_samples(dec(2, 2));
    let before = wallet(&engine, user_long)
        .available_balance
        .add(wallet(&engine, user_short).available_balance)
        .unwrap();
    engine.settle_hourly_funding_window(market).unwrap();
    let long_wallet = wallet(&engine, user_long);
    let short_wallet = wallet(&engine, user_short);
    let after = long_wallet
        .available_balance
        .add(short_wallet.available_balance)
        .unwrap();
    assert_dec(after, before);
    assert_dec(long_wallet.locked_balance, Dec::zero());
    assert_dec(short_wallet.locked_balance, Dec::zero());
}

#[test]
fn funding_rate_is_capped_above() {
    let market = Market::SOL_PERP;
    let (mut engine, _, _) = engine_with_funding_samples(dec(5, 1));
    engine.settle_hourly_funding_window(market).unwrap();
    assert_dec(engine.current_funding_rates.get(market).unwrap(), dec(4, 2));
}

#[test]
fn funding_rate_is_capped_below() {
    let market = Market::SOL_PERP;
    let (mut engine, user_long, user_short) = engine_with_funding_samples(dec(-5, 1));
    engine.settle_hourly_funding_window(market).unwrap();
    assert_dec(engine.current_funding_rates.get(market).unwrap(), dec(-4, 2));
    // 50 * -0.04 * 145 = -290: the long receives, the short pays.
    assert_dec(wallet(&engine, user_long).available_balance, dec(1290, 0));
    assert_dec(wallet(&engine, user_short).available_balance, dec(710, 0));
}

#[test]
fn funding_window_without_samples_changes_nothing() {
    let mut engine = ExecuteEngine::new();
    engine.settle_hourly_funding_window(Market::BTC_PERP).unwrap();
    assert_dec(
        engine.current_funding_rates.get(Market::BTC_PERP).unwrap(),
        Dec::zero(),
    );
    assert_dec(
        wallet(&engine, SANDBOX_USER_1).available_balance,
        dec(100000, 0),
    );
}

#[test]
fn new_engine_seeds_sandbox_balances_and_prices() {
    let engine = ExecuteEngine::new();
    assert_dec(wallet(&engine, SANDBOX_USER_1).available_balance, dec(100000, 0));
    assert_dec(wallet(&engine, SANDBOX_USER_2).available_balance, dec(50000, 0));
    assert_dec(wallet(&engine, SANDBOX_USER_2).locked_balance, Dec::zero());
    assert_dec(engine.index_prices.get(Market::ETH_PERP).unwrap(), dec(14500, 2));
    assert_eq!(engine.orderbooks.len(), 3);
}

#[test]
fn pipeline_market_order_settles_both_sides() {
    let mut engine = ExecuteEngine::new();
    let maker = SANDBOX_USER_1;
    let taker = SANDBOX_USER_2;

    engine
        .handle_order_request(OrderRequests::CreateOrder(limit(
            maker,
            OrderSide::SELL,
            dec(14500, 2),
            dec(100, 1),
        )))
        .unwrap();
    engine
        .handle_order_request(OrderRequests::CreateOrder(limit(
            maker,
            OrderSide::SELL,
            dec(14600, 2),
            dec(50, 1),
        )))
        .unwrap();
    assert_dec(wallet(&engine, maker).locked_balance, dec(2180, 0));

    let taker_order = CreateOrderArgs {
        order_type: OrderType::MARKET,
        ..limit(taker, OrderSide::BUY, Dec::zero(), dec(125, 1))
    };
    let effects = engine
        .handle_order_request(OrderRequests::CreateOrder(taker_order))
        .unwrap();

    let mut saw_depth = false;
    for e in &effects {
        if let EngineEffect::PublishDepth { market, depth } = e {
            saw_depth = true;
            assert_eq!(*market, Market::SOL_PERP);
            assert_eq!(depth.asks.len(), 1);
            assert_dec(depth.asks[0].0, dec(14600, 2));
            assert_dec(depth.asks[0].1, dec(25, 1));
            match destination(e) {
                Destination::Channel(c) => assert_eq!(c, "market:SOL_PERP:depth"),
                other => panic!("unexpected destination {:?}", other),
            }
        }
    }
    assert!(saw_depth, "the depth of the book was not published");
    // Execution, depth, two notices per fill, and the book.
    assert_eq!(effects.len(), 2 + 2 * 2 + 1);

    assert_dec(wallet(&engine, maker).locked_balance, dec(365, 0));
    assert_dec(wallet(&engine, maker).available_balance, dec(99635, 0));
    assert_dec(wallet(&engine, taker).available_balance, dec(48185, 0));

    let long = position(&engine, taker, Market::SOL_PERP);
    assert_dec(long.size, dec(125, 1));
    assert_dec(long.avg_entry_price, dec(1452, 1));
    let short = position(&engine, maker, Market::SOL_PERP);
    assert_dec(short.size, dec(-125, 1));
    assert_dec(short.avg_entry_price, dec(1452, 1));
    assert_dec(engine.last_trade_prices.get(Market::SOL_PERP).unwrap(), dec(14600, 2));
}

#[test]
fn refused_order_changes_nothing_and_sends_nothing() {
    let mut engine = ExecuteEngine::new();
    let broke = new_v4_id();
    let effects = engine
        .handle_order_request(OrderRequests::CreateOrder(limit(
            broke,
            OrderSide::BUY,
            dec(100, 0),
            dec(1, 0),
        )))
        .unwrap();
    assert!(effects.is_empty());
    assert!(engine.orderbooks[0].get_bids().is_empty());
    assert_dec(wallet(&engine, broke).available_balance, Dec::zero());
    assert_dec(wallet(&engine, broke).locked_balance, Dec::zero());
}

#[test]
fn cancel_returns_locked_collateral() {
    let mut engine = ExecuteEngine::new();
    let user = SANDBOX_USER_2;
    let order = limit(user, OrderSide::BUY, dec(14000, 2), dec(20, 1));
    engine
        .handle_order_request(OrderRequests::CreateOrder(order))
        .unwrap();
    assert_dec(wallet(&engine, user).available_balance, dec(49720, 0));
    assert_dec(wallet(&engine, user).locked_balance, dec(280, 0));

    let effects = engine
        .handle_order_request(OrderRequests::CancelOrder(CancelOrderArgs {
            order_id: order.order_id,
            user_id: user,
            price: order.price,
            side: OrderSide::BUY,
            market: Market::SOL_PERP,
            pubsub_id: None,
        }))
        .unwrap();
    assert_eq!(effects.len(), 1);
    assert_dec(wallet(&engine, user).available_balance, dec(50000, 0));
    assert_dec(wallet(&engine, user).locked_balance, Dec::zero());
    assert!(engine.orderbooks[0].get_bids().is_empty());
}

#[test]
fn open_orders_query_lists_the_users_orders() {
    let mut engine = ExecuteEngine::new();
    let user = SANDBOX_USER_1;
    let order = limit(user, OrderSide::SELL, dec(150, 0), dec(1, 0));
    engine
        .handle_order_request(OrderRequests::CreateOrder(order))
        .unwrap();
    let effects = engine
        .handle_order_request(OrderRequests::GetOpenOrders(GetOpenOrders {
            user_id: user,
            market: Market::SOL_PERP,
            pubsub_id: None,
        }))
        .unwrap();
    assert_eq!(effects.len(), 1);
    match &effects[0] {
        EngineEffect::PublishOpenOrders { user_id, orders } => {
            assert_eq!(*user_id, user);
            assert_eq!(orders.len(), 1);
            assert_eq!(orders[0].order_id, order.order_id);
        }
        other => panic!("unexpected effect {:?}", other),
    }
}

#[test]
fn crossing_limit_order_keeps_book_uncrossed() {
    let mut engine = ExecuteEngine::new();
    engine
        .handle_order_request(OrderRequests::CreateOrder(limit(
            SANDBOX_USER_1,
            OrderSide::SELL,
            dec(145, 0),
            dec(1, 0),
        )))
        .unwrap();
    engine
        .handle_order_request(OrderRequests::CreateOrder(limit(
            SANDBOX_USER_2,
            OrderSide::BUY,
            dec(150, 0),
            dec(3, 0),
        )))
        .unwrap();
    let book = &engine.orderbooks[0];
    assert!(book.peek_best_ask().is_none());
    assert_dec(book.peek_best_bid().unwrap(), dec(150, 0));
    let matrix = engine.book_matrix(Market::SOL_PERP).unwrap();
    assert!(matrix.0.is_empty());
    assert_dec(matrix.1[0].1, dec(2, 0));
}

#[test]
fn index_updates_and_external_marks_are_recorded() {
    let mut engine = ExecuteEngine::new();
    let effects = engine
        .handle_order_request(OrderRequests::IndexUpdate(IndexPriceUpdate {
            market: Market::BTC_PERP,
            price: dec(65000, 0),
        }))
        .unwrap();
    assert!(effects.is_empty());
    assert_dec(engine.index_prices.get(Market::BTC_PERP).unwrap(), dec(65000, 0));
    engine
        .execute_valuation_routines(OrderRequests::ExternalMarkUpdate {
            market: Market::ETH_PERP,
            price: dec(3000, 0),
        })
        .unwrap();
    assert_dec(engine.external_marks.get(Market::ETH_PERP).unwrap(), dec(3000, 0));
}

#[test]
fn mark_tick_publishes_one_mark_per_market() {
    let mut engine = ExecuteEngine::new();
    let effects = engine.handle_order_request(OrderRequests::MarkTick).unwrap();
    assert_eq!(effects.len(), 3);
    // With an empty book every candidate is the index price, 145.
    for e in &effects {
        match e {
            EngineEffect::PublishMarkPrice(t) => assert_dec(t.market_price, dec(145, 0)),
            other => panic!("unexpected effect {:?}", other),
        }
    }
    assert_dec(engine.mark_prices.get(Market::SOL_PERP).unwrap(), dec(145, 0));
}

#[test]
fn premium_tick_samples_every_market() {
    let mut engine = ExecuteEngine::new();
    let effects = engine
        .handle_order_request(perp_clob::stream::premium_tick_request())
        .unwrap();
    assert_eq!(effects.len(), 3);
    for i in 0..3 {
        assert_eq!(engine.premium_samples[i].len(), 1);
        // An empty book's impact prices are the index price: no premium.
        assert_dec(engine.premium_samples[i][0], Dec::zero());
    }
}

#[test]
fn opposite_trade_closes_a_position() {
    let m = Market::ETH_PERP;
    let opened = next_position(flat(m), dec(3, 0), dec(100, 0)).unwrap();
    assert_dec(opened.size, dec(3, 0));
    assert_dec(opened.avg_entry_price, dec(100, 0));
    let closed = next_position(opened, dec(-3, 0), dec(100, 0)).unwrap();
    assert_dec(closed.size, Dec::zero());
    assert_dec(closed.avg_entry_price, Dec::zero());
}

#[test]
fn larger_opposite_trade_flips_a_position() {
    let m = Market::ETH_PERP;
    let opened = next_position(flat(m), dec(3, 0), dec(100, 0)).unwrap();
    let flipped = next_position(opened, dec(-5, 0), dec(110, 0)).unwrap();
    assert_dec(flipped.size, dec(-2, 0));
    assert_dec(flipped.avg_entry_price, dec(110, 0));
    let reduced = next_position(flipped, dec(1, 0), dec(90, 0)).unwrap();
    assert_dec(reduced.size, dec(-1, 0));
    assert_dec(reduced.avg_entry_price, dec(110, 0));
}

#[test]
fn adding_to_a_position_averages_the_entry_price() {
    let m = Market::BTC_PERP;
    let p = next_position(flat(m), dec(1, 0), dec(100, 0)).unwrap();
    let q = next_position(p, dec(3, 0), dec(200, 0)).unwrap();
    assert_dec(q.size, dec(4, 0));
    assert_dec(q.avg_entry_price, dec(175, 0));
}

#[test]
fn median_of_three_takes_the_middle_value() {
    assert_dec(median_of_three(dec(3, 0), dec(1, 0), dec(2, 0)), dec(2, 0));
    assert_dec(median_of_three(dec(1, 0), dec(2, 0), dec(3, 0)), dec(2, 0));
    assert_dec(median_of_three(dec(5, 0), dec(5, 0), dec(1, 0)), dec(5, 0));
    assert_dec(median_of_three(dec(-1, 0), dec(7, 0), dec(0, 0)), dec(0, 0));
}

#[test]
fn unrealized_pnl_follows_the_mark() {
    let mut engine = ExecuteEngine::new();
    let user = new_v4_id();
    let mut map = MarketMap::empty();
    map.insert(
        Market::SOL_PERP,
        Position {
            size: dec(2, 0),
            avg_entry_price: dec(100, 0),
            ..flat(Market::SOL_PERP)
        },
    );
    engine.user_positions.insert(user, map);
    engine.mark_prices.insert(Market::SOL_PERP, dec(110, 0));
    engine.recalibrate_unrealized_pnl_matrix(Market::SOL_PERP).unwrap();
    assert_dec(
        position(&engine, user, Market::SOL_PERP).unrealized_pnl,
        dec(20, 0),
    );
}

fn leveraged(user: u128, side: OrderSide, price: Dec, quantity: Dec, leverage: Dec) -> CreateOrderArgs {
    CreateOrderArgs {
        leverage,
        ..limit(user, side, price, quantity)
    }
}

#[test]
fn test_leverage_margin_and_liquidation_scaling() {
    let mut engine = ExecuteEngine::new();
    let market = Market::SOL_PERP;
    let trader = new_v4_id();
    engine.user_wallets.insert(
        trader,
        UserBalance {
            available_balance: dec(100000, 2),
            locked_balance: Dec::zero(),
        },
    );
    engine.index_prices.insert(market, dec(10000, 2));

    engine
        .handle_order_request(OrderRequests::CreateOrder(leveraged(
            trader,
            OrderSide::BUY,
            dec(10000, 2),
            dec(100, 1),
            dec(100, 1),
        )))
        .unwrap();

    let p = position(&engine, trader, market);
    assert_dec(p.margin, dec(10000, 2));
    assert_dec(p.leverage, dec(100, 1));
    assert_eq!(p.side, PositionSide::Long);
    assert_dec(p.liquidation_price.round_dp(4), dec(909091, 4));
}

#[test]
fn test_perpetual_full_lifecycle_flow() {
    let mut engine = ExecuteEngine::new();
    let market = Market::SOL_PERP;
    let user_maker = new_v4_id();
    let user_trader = new_v4_id();
    engine.user_wallets.insert(
        user_maker,
        UserBalance {
            available_balance: dec(200000, 2),
            locked_balance: Dec::zero(),
        },
    );
    engine.user_wallets.insert(
        user_trader,
        UserBalance {
            available_balance: dec(100000, 2),
            locked_balance: Dec::zero(),
        },
    );
    engine.index_prices.insert(market, dec(10000, 2));

    engine
        .handle_order_request(OrderRequests::CreateOrder(leveraged(
            user_maker,
            OrderSide::SELL,
            dec(10000, 2),
            dec(100, 1),
            dec(10, 1),
        )))
        .unwrap();
    engine
        .handle_order_request(OrderRequests::CreateOrder(leveraged(
            user_trader,
            OrderSide::BUY,
            dec(10000, 2),
            dec(100, 1),
            dec(200, 1),
        )))
        .unwrap();

    let initial_pos = position(&engine, user_trader, market);
    assert_dec(initial_pos.margin, dec(5000, 2));
    assert_dec(initial_pos.liquidation_price.round_dp(4), dec(959596, 4));

    for _ in 0..12 {
        engine.premium_samples[market.index()].push(dec(15, 2));
    }
    engine.settle_hourly_funding_window(market).unwrap();

    let post_funding_pos = position(&engine, user_trader, market);
    assert!(post_funding_pos.margin.lt(&dec(5000, 2)));
    assert_dec(post_funding_pos.margin, dec(313125, 4));

    engine.index_prices.insert(market, dec(9500, 2));
    engine.external_marks.insert(market, dec(9500, 2));
    engine.calculate_all_market_mark_prices().unwrap();

    let final_positions_map = engine.user_positions.get(&user_trader).unwrap();
    assert!(final_positions_map.get(market).is_none());
    // The maker's short gained from the drop and stays open.
    assert!(engine
        .user_positions
        .get(&user_maker)
        .unwrap()
        .get(market)
        .is_some());
}

#[test]
fn order_without_leverage_stores_no_position() {
    let mut engine = ExecuteEngine::new();
    let user = SANDBOX_USER_1;
    engine
        .handle_order_request(OrderRequests::CreateOrder(leveraged(
            user,
            OrderSide::SELL,
            dec(150, 0),
            dec(1, 0),
            Dec::zero(),
        )))
        .unwrap();
    assert!(engine.user_positions.get(&user).is_none());
}

#[test]
fn resting_buy_locks_the_notional_and_opens_no_position() {
    let mut engine = ExecuteEngine::new();
    let user = SANDBOX_USER_2;
    let order_id = new_v4_id();
    let args = CreateOrderArgs {
        order_id,
        market: Market::SOL_PERP,
        price: dec(100, 0),
        quantity: dec(500, 0),
        side: OrderSide::BUY,
        order_type: OrderType::LIMIT,
        user_id: user,
        pubsub_id: None,
        leverage: Dec::zero(),
    };
    engine
        .handle_order_request(OrderRequests::CreateOrder(args))
        .unwrap();

    let w = wallet(&engine, user);
    assert_dec(w.available_balance, Dec::zero());
    assert_dec(w.locked_balance, dec(50000, 0));

    let book = &engine.orderbooks[Market::SOL_PERP.index()];
    let depth = book.get_depth().unwrap();
    assert_eq!(depth.bids.len(), 1);
    assert_dec(depth.bids[0].0, dec(100, 0));
    assert_dec(depth.bids[0].1, dec(500, 0));
    assert!(depth.asks.is_empty());

    let open = book.get_open_orders_for_user(user);
    assert_eq!(open.len(), 1);
    assert_eq!(open[0].user_id, user);
    assert_eq!(open[0].order_id, order_id);
    assert_dec(open[0].price, dec(100, 0));
    assert_dec(open[0].quantity, dec(500, 0));

    assert!(engine.user_positions.get(&user).is_none());
}

#[test]
fn mark_tick_announces_each_liquidation_before_the_mark() {
    let mut engine = ExecuteEngine::new();
    let market = Market::SOL_PERP;
    let user_maker = new_v4_id();
    let user_trader = new_v4_id();
    engine.user_wallets.insert(
        user_maker,
        UserBalance {
            available_balance: dec(200000, 2),
            locked_balance: Dec::zero(),
        },
    );
    engine.user_wallets.insert(
        user_trader,
        UserBalance {
            available_balance: dec(100000, 2),
            locked_balance: Dec::zero(),
        },
    );
    engine.index_prices.insert(market, dec(10000, 2));
    engine
        .handle_order_request(OrderRequests::CreateOrder(leveraged(
            user_maker,
            OrderSide::SELL,
            dec(10000, 2),
            dec(100, 1),
            dec(10, 1),
        )))
        .unwrap();
    engine
        .handle_order_request(OrderRequests::CreateOrder(leveraged(
            user_trader,
            OrderSide::BUY,
            dec(10000, 2),
            dec(100, 1),
            dec(200, 1),
        )))
        .unwrap();
    for _ in 0..12 {
        engine.premium_samples[market.index()].push(dec(15, 2));
    }
    engine.settle_hourly_funding_window(market).unwrap();
    engine.index_prices.insert(market, dec(9500, 2));
    engine.external_marks.insert(market, dec(9500, 2));

    let effects = engine.handle_order_request(OrderRequests::MarkTick).unwrap();
    assert_eq!(effects.len(), 4);
    match &effects[0] {
        EngineEffect::PublishLiquidation(n) => {
            assert_eq!(n.user_id, user_trader);
            assert_eq!(n.market, market);
            assert_dec(n.wiped_margin, dec(313125, 4));
            assert_dec(n.execution_mark, dec(95, 0));
        }
        other => panic!("unexpected effect {:?}", other),
    }
    match destination(&effects[0]) {
        Destination::Channel(c) => assert_eq!(c, "market:SOL_PERP:liquidations"),
        other => panic!("unexpected destination {:?}", other),
    }
    match &effects[1] {
        EngineEffect::PublishMarkPrice(t) => {
            assert_eq!(t.market, market);
            assert_dec(t.market_price, dec(95, 0));
        }
        other => panic!("unexpected effect {:?}", other),
    }
    assert!(engine
        .user_positions
        .get(&user_trader)
        .unwrap()
        .get(market)
        .is_none());
}

#[test]
fn fills_keep_the_net_size_of_the_market() {
    let mut engine = ExecuteEngine::new();
    let market = Market::SOL_PERP;
    let seller_1 = SANDBOX_USER_1;
    let seller_2 = SANDBOX_USER_2;
    let buyer = new_v4_id();
    engine.user_wallets.insert(
        buyer,
        UserBalance {
            available_balance: dec(100000, 0),
            locked_balance: Dec::zero(),
        },
    );
    engine
        .handle_order_request(OrderRequests::CreateOrder(limit(seller_1, OrderSide::SELL, dec(150, 0), dec(2, 0))))
        .unwrap();
    engine
        .handle_order_request(OrderRequests::CreateOrder(limit(seller_2, OrderSide::SELL, dec(151, 0), dec(3, 0))))
        .unwrap();
    engine
        .handle_order_request(OrderRequests::CreateOrder(limit(buyer, OrderSide::BUY, dec(151, 0), dec(4, 0))))
        .unwrap();
    let net = position(&engine, buyer, market)
        .size
        .add(position(&engine, seller_1, market).size)
        .unwrap()
        .add(position(&engine, seller_2, market).size)
        .unwrap();
    assert_dec(net, Dec::zero());
    assert_dec(position(&engine, buyer, market).size, dec(4, 0));
    assert_dec(position(&engine, seller_1, market).size, dec(-2, 0));
    assert_dec(position(&engine, seller_2, market).size, dec(-2, 0));
}

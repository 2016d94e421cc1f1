//! Properties of the order book that hold across its operations.
use crate::decimal::{
    spec_min,
    dec_sub,
    dec_add,
    exact_difference,
    exact_sum,
    lemma_add_exact,
    lemma_add_representable,
    lemma_sub_exact,
    lemma_sub_representable,
    spec_zero,
    Dec,
};
use crate::orderbook::{BookView, LevelView, MatchRun, drop_filled_prices, drop_filled_users, drop_user_order, remove_order_at, lemma_level_at_unique, lemma_order_at_unique, better, crosses, side_wf, run_match, total_orders, lemma_total_orders_cons, lemma_side_wf_tail, lemma_side_wf_front, lemma_run_match_wf, insert_order, level_index, is_level_at, insert_pos, is_insert_pos, process_spec, fill_of, cancel_spec, order_index, is_order_at};
use crate::types::{Fill, Market, Order, OrderSide, OrderType};
use crate::valuation::sum_decs;
use vstd::prelude::*;

verus! {

broadcast use crate::decimal::lemma_zero_scaled;

/// The best bid is below the best ask (or a side is empty).
pub open spec fn uncrossed(b: BookView) -> bool {
    b.bids.len() == 0 || b.asks.len() == 0 || b.bids[0].price.val() < b.asks[0].price.val()
}

/// The resting orders of a side in priority order: best level first, oldest
/// first within a level.
pub open spec fn flatten(levels: Seq<LevelView>) -> Seq<Order>
    decreases levels.len(),
{
    if levels.len() == 0 {
        seq![]
    } else {
        levels[0].orders + flatten(levels.drop_first())
    }
}

proof fn lemma_flatten_cons(x: LevelView, rest: Seq<LevelView>)
    ensures
        flatten(seq![x] + rest) == x.orders + flatten(rest),
{
    assert((seq![x] + rest).drop_first() =~= rest);
}

/// What a run of matching keeps: the taker's identity and price; the best
/// level never improves; a run that ends with taker quantity left and a
/// non-empty side ends because the best level does not cross the limit.
proof fn lemma_run_front(
    levels: Seq<LevelView>,
    is_bids: bool,
    market: Market,
    taker: Order,
    executed: Dec,
    fills: Seq<Fill>,
    consumed: Seq<Order>,
)
    requires
        side_wf(levels, is_bids),
    ensures
        ({
            let run = run_match(levels, is_bids, market, taker, executed, fills, consumed);
            &&& run.taker.price == taker.price
            &&& run.taker.order_id == taker.order_id
            &&& run.taker.user_id == taker.user_id
            &&& run.levels.len() > 0 ==> levels.len() > 0 && !better(
                is_bids,
                run.levels[0].price,
                levels[0].price,
            )
            &&& !run.overflow && run.taker.quantity.val() > 0 && run.levels.len() > 0 ==> !crosses(
                is_bids,
                taker.price,
                run.levels[0].price,
            )
        }),
    decreases total_orders(levels), levels.len(),
{
    if taker.quantity.val() <= 0 || levels.len() == 0 || !crosses(
        is_bids,
        taker.price,
        levels[0].price,
    ) {
    } else if levels[0].orders.len() == 0 {
        assert(levels[0].orders.len() > 0);
    } else {
        let level = levels[0];
        let maker = level.orders[0];
        let q = spec_min(taker.quantity, maker.quantity);
        let tq = dec_sub(taker.quantity, q);
        let mq = dec_sub(maker.quantity, q);
        let ex = dec_add(executed, q);
        if tq is None || mq is None || ex is None {
        } else {
            let taker2 = Order { quantity: tq->0, ..taker };
            let maker2 = Order { quantity: mq->0, ..maker };
            let fill = fill_of(level.price, q, taker, maker, market);
            if mq->0.val() > 0 {
                assert(q == taker.quantity);
                assert(tq->0.val() == 0);
            } else {
                let rest = level.orders.drop_first();
                lemma_side_wf_tail(levels, is_bids);
                lemma_total_orders_cons(LevelView { price: level.price, orders: rest }, levels.drop_first());
                if rest.len() == 0 {
                    lemma_run_front(
                        levels.drop_first(),
                        is_bids,
                        market,
                        taker2,
                        ex->0,
                        fills.push(fill),
                        consumed.push(maker),
                    );
                    if levels.len() > 1 {
                        assert(better(is_bids, levels[0].price, levels[1].price));
                    }
                } else {
                    let x = LevelView { price: level.price, orders: rest };
                    assert forall|k: int| 0 <= k < x.orders.len() implies (#[trigger] x.orders[k]).price.val()
                        == x.price.val() && x.orders[k].quantity.val() > 0 by {
                        assert(levels[0].orders[k + 1].price.val() == levels[0].price.val());
                    }
                    lemma_side_wf_front(levels, is_bids, x);
                    lemma_run_front(
                        seq![x] + levels.drop_first(),
                        is_bids,
                        market,
                        taker2,
                        ex->0,
                        fills.push(fill),
                        consumed.push(maker),
                    );
                }
            }
        }
    }
}

/// The front level after resting an order is the old front level or the
/// order's own price.
proof fn lemma_insert_front(levels: Seq<LevelView>, is_bids: bool, o: Order)
    requires
        side_wf(levels, is_bids),
        o.quantity.val() > 0,
    ensures
        ({
            let s = insert_order(levels, is_bids, o);
            &&& s.len() > 0
            &&& s[0].price.val() == o.price.val() || (levels.len() > 0 && s[0].price
                == levels[0].price)
        }),
{
    let li = level_index(levels, o.price);
    if li >= 0 {
        assert(is_level_at(levels, o.price, li));
    } else {
        let s = insert_order(levels, is_bids, o);
        let i = insert_pos(levels, is_bids, o.price);
        lemma_insert_pos_exists(levels, is_bids, o.price, 0);
        assert(is_insert_pos(levels, is_bids, o.price, i));
        if i == 0 {
            assert(s[0].price == o.price);
        } else {
            assert(s[0] == levels[0]);
        }
    }
}

/// A position at which a level for `p` belongs exists.
proof fn lemma_insert_pos_exists(levels: Seq<LevelView>, is_bids: bool, p: Dec, i: int)
    requires
        0 <= i <= levels.len(),
        forall|j: int| 0 <= j < i ==> #[trigger] better(is_bids, levels[j].price, p),
    ensures
        exists|k: int| is_insert_pos(levels, is_bids, p, k),
    decreases levels.len() - i,
{
    if i == levels.len() || !better(is_bids, levels[i].price, p) {
        assert(is_insert_pos(levels, is_bids, p, i));
    } else {
        lemma_insert_pos_exists(levels, is_bids, p, i + 1);
    }
}

/// Processing an order never leaves the book crossed: after any order, the
/// best bid is still below the best ask.
pub proof fn law_process_keeps_book_uncrossed(
    b: BookView,
    order: Order,
    side: OrderSide,
    order_type: OrderType,
)
    requires
        b.wf(),
        uncrossed(b),
    ensures
        uncrossed(process_spec(b, order, side, order_type).0),
{
    let is_buy = side == OrderSide::BUY;
    let run = b.run(!is_buy, order);
    lemma_run_front(b.side(!is_buy), !is_buy, b.market, order, crate::decimal::spec_zero(), seq![], seq![]);
    lemma_run_match_wf(b.side(!is_buy), !is_buy, b.market, order, crate::decimal::spec_zero(), seq![], seq![]);
    let b1 = b.after_run(!is_buy, run);
    if !run.overflow && order_type == OrderType::LIMIT && run.taker.quantity.val() > 0 {
        lemma_insert_front(b1.side(is_buy), is_buy, run.taker);
    }
}

/// Price-time priority: a run of matching trades against the resting orders
/// in the side's priority order (best level first, oldest first within a
/// level), each at most once, at the maker's price, for the taker.
proof fn lemma_run_priority(
    levels: Seq<LevelView>,
    is_bids: bool,
    market: Market,
    taker: Order,
    executed: Dec,
    fills: Seq<Fill>,
    consumed: Seq<Order>,
)
    requires
        side_wf(levels, is_bids),
    ensures
        ({
            let run = run_match(levels, is_bids, market, taker, executed, fills, consumed);
            let flat = flatten(levels);
            &&& fills.len() <= run.fills.len() <= fills.len() + flat.len()
            &&& run.fills.subrange(0, fills.len() as int) == fills
            &&& forall|i: int|
                0 <= i < run.fills.len() - fills.len() ==> {
                    let f = #[trigger] run.fills[fills.len() + i];
                    &&& f.maker_order_id == flat[i].order_id
                    &&& f.maker_user_id == flat[i].user_id
                    &&& f.price.val() == flat[i].price.val()
                    &&& f.taker_order_id == taker.order_id
                    &&& f.taker_user_id == taker.user_id
                    &&& f.market == market
                }
        }),
    decreases total_orders(levels), levels.len(),
{
    let run = run_match(levels, is_bids, market, taker, executed, fills, consumed);
    if taker.quantity.val() <= 0 || levels.len() == 0 || !crosses(
        is_bids,
        taker.price,
        levels[0].price,
    ) {
        assert(run.fills.subrange(0, fills.len() as int) =~= fills);
    } else if levels[0].orders.len() == 0 {
        assert(levels[0].orders.len() > 0);
    } else {
        let level = levels[0];
        let maker = level.orders[0];
        let q = spec_min(taker.quantity, maker.quantity);
        let tq = dec_sub(taker.quantity, q);
        let mq = dec_sub(maker.quantity, q);
        let ex = dec_add(executed, q);
        let flat = flatten(levels);
        assert(flat == level.orders + flatten(levels.drop_first()));
        assert(flat[0] == maker);
        if tq is None || mq is None || ex is None {
            assert(run.fills.subrange(0, fills.len() as int) =~= fills);
        } else {
            let taker2 = Order { quantity: tq->0, ..taker };
            let maker2 = Order { quantity: mq->0, ..maker };
            let fill = fill_of(level.price, q, taker, maker, market);
            if mq->0.val() > 0 {
                assert(run.fills == fills.push(fill));
                assert(run.fills.subrange(0, fills.len() as int) =~= fills);
            } else {
                let rest = level.orders.drop_first();
                let f2 = fills.push(fill);
                lemma_side_wf_tail(levels, is_bids);
                lemma_total_orders_cons(LevelView { price: level.price, orders: rest }, levels.drop_first());
                let levels2 = if rest.len() == 0 {
                    levels.drop_first()
                } else {
                    seq![LevelView { price: level.price, orders: rest }] + levels.drop_first()
                };
                if rest.len() == 0 {
                    assert(flatten(levels2) =~= flat.drop_first());
                } else {
                    let x = LevelView { price: level.price, orders: rest };
                    assert forall|k: int| 0 <= k < x.orders.len() implies (#[trigger] x.orders[k]).price.val()
                        == x.price.val() && x.orders[k].quantity.val() > 0 by {
                        assert(levels[0].orders[k + 1].price.val() == levels[0].price.val());
                    }
                    lemma_side_wf_front(levels, is_bids, x);
                    lemma_flatten_cons(x, levels.drop_first());
                    assert(flatten(levels2) =~= flat.drop_first());
                }
                lemma_run_priority(levels2, is_bids, market, taker2, ex->0, f2, consumed.push(maker));
                let run2 = run_match(levels2, is_bids, market, taker2, ex->0, f2, consumed.push(maker));
                assert(run == run2);
                assert(run.fills.subrange(0, f2.len() as int) == f2);
                assert(run.fills.subrange(0, fills.len() as int) =~= f2.subrange(0, fills.len() as int));
                assert forall|i: int| 0 <= i < run.fills.len() - fills.len() implies {
                    let f = #[trigger] run.fills[fills.len() + i];
                    &&& f.maker_order_id == flat[i].order_id
                    &&& f.maker_user_id == flat[i].user_id
                    &&& f.price.val() == flat[i].price.val()
                    &&& f.taker_order_id == taker.order_id
                    &&& f.taker_user_id == taker.user_id
                    &&& f.market == market
                } by {
                    if i == 0 {
                        assert(run.fills[fills.len() as int] == f2[fills.len() as int]);
                        assert(level.orders[0].price.val() == level.price.val());
                    } else {
                        assert(run.fills[fills.len() + i] == run.fills[f2.len() + (i - 1)]);
                        assert(flatten(levels2)[i - 1] == flat[i]);
                    }
                }
            }
        }
    }
}

/// Price-time priority of an incoming order: its fills, in order, are against
/// the resting orders of the opposite side in priority order (best price
/// first, oldest first at a price), each at most once, each at its maker's
/// price.
pub proof fn law_fills_follow_price_time_priority(b: BookView, order: Order, side: OrderSide, order_type: OrderType)
    requires
        b.wf(),
    ensures
        ({
            let is_buy = side == OrderSide::BUY;
            let flat = flatten(b.side(!is_buy));
            let out = process_spec(b, order, side, order_type).1;
            out matches Some((fills, _)) ==> {
                &&& fills.len() <= flat.len()
                &&& forall|i: int|
                    0 <= i < fills.len() ==> {
                        &&& (#[trigger] fills[i]).maker_order_id == flat[i].order_id
                        &&& fills[i].maker_user_id == flat[i].user_id
                        &&& fills[i].price.val() == flat[i].price.val()
                        &&& fills[i].taker_order_id == order.order_id
                    }
            }
        }),
{
    let is_buy = side == OrderSide::BUY;
    lemma_run_priority(b.side(!is_buy), !is_buy, b.market, order, crate::decimal::spec_zero(), seq![], seq![]);
    let run = b.run(!is_buy, order);
    let flat = flatten(b.side(!is_buy));
    assert forall|i: int| 0 <= i < run.fills.len() implies {
        &&& (#[trigger] run.fills[i]).maker_order_id == flat[i].order_id
        &&& run.fills[i].maker_user_id == flat[i].user_id
        &&& run.fills[i].price.val() == flat[i].price.val()
        &&& run.fills[i].taker_order_id == order.order_id
    } by {
        assert(run.fills[i] == run.fills[0 + i]);
    }
}

/// A cancellation returns only the order it was asked for.
pub proof fn law_cancel_returns_requested_order(b: BookView, id: u128)
    ensures
        cancel_spec(b, id).1 matches Some(o) ==> o.order_id == id,
{
    if b.prices.contains_key(id) {
        let p = b.prices[id];
        let la = level_index(b.asks, p);
        let lb = level_index(b.bids, p);
        if la >= 0 && order_index(b.asks[la].orders, id) >= 0 {
            let k = order_index(b.asks[la].orders, id);
            assert(is_order_at(b.asks[la].orders, id, k));
        } else if lb >= 0 && order_index(b.bids[lb].orders, id) >= 0 {
            let k = order_index(b.bids[lb].orders, id);
            assert(is_order_at(b.bids[lb].orders, id, k));
        }
    }
}

/// No resting order, price entry or user entry of the book carries `id`.
pub open spec fn holds_no_order(b: BookView, id: u128) -> bool {
    &&& forall|i: int, k: int|
        0 <= i < b.bids.len() && 0 <= k < b.bids[i].orders.len() ==> (
        #[trigger] b.bids[i].orders[k]).order_id != id
    &&& forall|i: int, k: int|
        0 <= i < b.asks.len() && 0 <= k < b.asks[i].orders.len() ==> (
        #[trigger] b.asks[i].orders[k]).order_id != id
    &&& !b.prices.contains_key(id)
    &&& forall|u: u128| #[trigger] b.users.contains_key(u) ==> !b.users[u].contains(id)
}

/// An order of `side` at its limit meets no resting order: the other side is
/// empty or its best price is strictly worse than the limit for the taker.
pub open spec fn meets_no_order(b: BookView, order: Order, side: OrderSide) -> bool {
    let opp = b.side(side != OrderSide::BUY);
    opp.len() == 0 || !crosses(side != OrderSide::BUY, order.price, opp[0].price)
}

/// The ids of a user's orders in a user index (none without an entry).
pub open spec fn orders_of(users: Map<u128, Set<u128>>, u: u128) -> Set<u128> {
    if users.contains_key(u) {
        users[u]
    } else {
        Set::empty()
    }
}

/// Resting an order on a side and removing it again gives the side back.
proof fn lemma_insert_then_remove(levels: Seq<LevelView>, is_bids: bool, o: Order)
    requires
        side_wf(levels, is_bids),
        o.quantity.val() > 0,
        forall|i: int, k: int|
            0 <= i < levels.len() && 0 <= k < levels[i].orders.len() ==> (
            #[trigger] levels[i].orders[k]).order_id != o.order_id,
    ensures
        ({
            let s = insert_order(levels, is_bids, o);
            let li = level_index(s, o.price);
            &&& li >= 0
            &&& order_index(s[li].orders, o.order_id) >= 0
            &&& s[li].orders[order_index(s[li].orders, o.order_id)] == o
            &&& remove_order_at(s, li, order_index(s[li].orders, o.order_id)) == levels
        }),
{
    let p = o.price;
    let li = level_index(levels, p);
    let s = insert_order(levels, is_bids, o);
    if li >= 0 {
        assert(is_level_at(levels, p, li));
        let orders = levels[li].orders;
        let k = orders.len() as int;
        assert(is_level_at(s, p, li));
        lemma_level_at_unique(s, p, li);
        assert(s[li].orders == orders.push(o));
        assert(is_order_at(s[li].orders, o.order_id, k)) by {
            assert forall|j: int| 0 <= j < k implies (#[trigger] s[li].orders[j]).order_id
                != o.order_id by {
                assert(s[li].orders[j] == levels[li].orders[j]);
            }
        }
        lemma_order_at_unique(s[li].orders, o.order_id, k);
        assert(s[li].orders.remove(k) =~= orders);
        assert(levels[li].orders.len() > 0);
        assert(remove_order_at(s, li, k) =~= levels);
    } else {
        assert(!exists|i: int| is_level_at(levels, p, i));
        lemma_insert_pos_exists(levels, is_bids, p, 0);
        let pos = insert_pos(levels, is_bids, p);
        assert(is_insert_pos(levels, is_bids, p, pos));
        assert(s == levels.insert(pos, LevelView { price: p, orders: seq![o] }));
        assert forall|j: int| 0 <= j < pos implies (#[trigger] s[j].price).val() != p.val() by {
            assert(better(is_bids, levels[j].price, p));
        }
        assert(is_level_at(s, p, pos));
        lemma_level_at_unique(s, p, pos);
        assert(is_order_at(s[pos].orders, o.order_id, 0));
        lemma_order_at_unique(s[pos].orders, o.order_id, 0);
        assert(s[pos].orders.remove(0) =~= Seq::<Order>::empty());
        assert(remove_order_at(s, pos, 0) =~= levels);
    }
}

/// No order of a side carries `id`, so looking `id` up in any level of it
/// finds nothing.
proof fn lemma_absent_id(levels: Seq<LevelView>, p: Dec, id: u128)
    requires
        forall|i: int, k: int|
            0 <= i < levels.len() && 0 <= k < levels[i].orders.len() ==> (
            #[trigger] levels[i].orders[k]).order_id != id,
    ensures
        level_index(levels, p) >= 0 ==> order_index(levels[level_index(levels, p)].orders, id) < 0,
{
    let li = level_index(levels, p);
    if li >= 0 {
        assert(is_level_at(levels, p, li));
        let orders = levels[li].orders;
        if order_index(orders, id) >= 0 {
            let k = order_index(orders, id);
            assert(is_order_at(orders, id, k));
            assert(levels[li].orders[k].order_id != id);
        }
    }
}

/// Cancelling a limit order that rested without trading gives the book back:
/// the order is returned, both sides and the price index are as before, and
/// every user has the same orders.
pub proof fn law_cancel_undoes_resting_order(b: BookView, order: Order, side: OrderSide)
    requires
        b.wf(),
        holds_no_order(b, order.order_id),
        meets_no_order(b, order, side),
        order.quantity.val() > 0,
    ensures
        ({
            let (b2, out) = process_spec(b, order, side, OrderType::LIMIT);
            let (b3, cancelled) = cancel_spec(b2, order.order_id);
            &&& out == Some((Seq::<Fill>::empty(), crate::decimal::spec_zero()))
            &&& cancelled == Some(order)
            &&& b3.bids == b.bids
            &&& b3.asks == b.asks
            &&& b3.prices == b.prices
            &&& b3.market == b.market
            &&& forall|u: u128| #[trigger] orders_of(b3.users, u) == orders_of(b.users, u)
        }),
{
    let is_buy = side == OrderSide::BUY;
    let id = order.order_id;
    let run = b.run(!is_buy, order);
    assert(run == MatchRun {
        levels: b.side(!is_buy),
        taker: order,
        executed: crate::decimal::spec_zero(),
        fills: seq![],
        consumed: seq![],
        overflow: false,
    });
    let b1 = b.after_run(!is_buy, run);
    assert(b1.prices == b.prices);
    assert(b1.users == b.users);
    assert(b1 == b);
    let b2 = b.rest(is_buy, order);
    assert(process_spec(b, order, side, OrderType::LIMIT).0 == b2);
    lemma_insert_then_remove(b.side(is_buy), is_buy, order);
    let p = order.price;
    assert(b2.prices.contains_key(id) && b2.prices[id] == p);
    let (b3, cancelled) = cancel_spec(b2, id);
    if is_buy {
        assert(b2.asks == b.asks);
        lemma_absent_id(b.asks, p, id);
    }
    let set = orders_of(b.users, order.user_id);
    assert(!set.contains(id));
    assert(set.insert(id).remove(id) =~= set);
    assert(b3.prices =~= b.prices);
    assert forall|u: u128| #[trigger] orders_of(b3.users, u) == orders_of(b.users, u) by {
        if u == order.user_id {
            if set.is_empty() {
                assert(set =~= Set::<u128>::empty());
            }
        }
    }
}

/// The quantities of fills, in order.
pub open spec fn fill_quantities(fills: Seq<Fill>) -> Seq<Dec> {
    fills.map_values(|f: Fill| f.quantity)
}

proof fn lemma_fill_quantities_push(fills: Seq<Fill>, f: Fill)
    ensures
        fill_quantities(fills.push(f)).drop_last() == fill_quantities(fills),
        fill_quantities(fills.push(f)).last() == f.quantity,
        fill_quantities(fills.push(f)).len() > 0,
{
    assert(fill_quantities(fills.push(f)).drop_last() =~= fill_quantities(fills));
}

/// A run of matching keeps its executed quantity equal to the running sum of
/// its fills' quantities.
proof fn lemma_run_executed(
    levels: Seq<LevelView>,
    is_bids: bool,
    market: Market,
    taker: Order,
    executed: Dec,
    fills: Seq<Fill>,
    consumed: Seq<Order>,
)
    requires
        sum_decs(fill_quantities(fills)) == Some(executed),
    ensures
        ({
            let run = run_match(levels, is_bids, market, taker, executed, fills, consumed);
            !run.overflow ==> sum_decs(fill_quantities(run.fills)) == Some(run.executed)
        }),
    decreases total_orders(levels), levels.len(),
{
    if taker.quantity.val() <= 0 || levels.len() == 0 || !crosses(
        is_bids,
        taker.price,
        levels[0].price,
    ) {
    } else if levels[0].orders.len() == 0 {
        lemma_run_executed(levels.drop_first(), is_bids, market, taker, executed, fills, consumed);
    } else {
        let level = levels[0];
        let maker = level.orders[0];
        let q = spec_min(taker.quantity, maker.quantity);
        let tq = dec_sub(taker.quantity, q);
        let mq = dec_sub(maker.quantity, q);
        let ex = dec_add(executed, q);
        if tq is None || mq is None || ex is None {
        } else {
            let taker2 = Order { quantity: tq->0, ..taker };
            let fill = fill_of(level.price, q, taker, maker, market);
            lemma_fill_quantities_push(fills, fill);
            assert(sum_decs(fill_quantities(fills.push(fill))) == Some(ex->0));
            if mq->0.val() > 0 {
            } else {
                let rest = level.orders.drop_first();
                let levels2 = if rest.len() == 0 {
                    levels.drop_first()
                } else {
                    seq![LevelView { price: level.price, orders: rest }] + levels.drop_first()
                };
                lemma_total_orders_cons(LevelView { price: level.price, orders: rest }, levels.drop_first());
                lemma_run_executed(
                    levels2,
                    is_bids,
                    market,
                    taker2,
                    ex->0,
                    fills.push(fill),
                    consumed.push(maker),
                );
            }
        }
    }
}

/// The executed quantity an order reports is the sum, in order, of its
/// fills' quantities.
pub proof fn law_executed_is_sum_of_fills(b: BookView, order: Order, side: OrderSide, order_type: OrderType)
    ensures
        process_spec(b, order, side, order_type).1 matches Some((fills, executed)) ==> sum_decs(
            fill_quantities(fills),
        ) == Some(executed),
{
    let is_buy = side == OrderSide::BUY;
    assert(fill_quantities(Seq::<Fill>::empty()) =~= Seq::<Dec>::empty());
    lemma_run_executed(
        b.side(!is_buy),
        !is_buy,
        b.market,
        order,
        crate::decimal::spec_zero(),
        seq![],
        seq![],
    );
}

/// The quantity resting in a level's orders, summed in units of `10^-28`.
pub open spec fn level_quantity(orders: Seq<Order>) -> int
    decreases orders.len(),
{
    if orders.len() == 0 {
        0
    } else {
        orders[0].quantity.val() + level_quantity(orders.drop_first())
    }
}

/// The quantity resting on a side, summed in units of `10^-28`.
pub open spec fn side_quantity(levels: Seq<LevelView>) -> int
    decreases levels.len(),
{
    if levels.len() == 0 {
        0
    } else {
        level_quantity(levels[0].orders) + side_quantity(levels.drop_first())
    }
}

/// Every resting quantity on the side is a representable decimal.
pub open spec fn quantities_ok(levels: Seq<LevelView>) -> bool {
    forall|i: int, k: int|
        0 <= i < levels.len() && 0 <= k < levels[i].orders.len() ==> (
        #[trigger] levels[i].orders[k]).quantity.parts_ok()
}

/// Each step of matching `taker` against `levels` computes the maker's
/// remaining quantity and the running executed quantity without rounding:
/// the maker's quantity less the traded one is an exact difference (or the
/// maker is filled completely), and the executed quantity so far plus the
/// traded one an exact sum (or the executed quantity is zero).
pub open spec fn match_exact(levels: Seq<LevelView>, is_bids: bool, taker: Order, executed: Dec) -> bool
    decreases total_orders(levels), levels.len(),
{
    if taker.quantity.val() <= 0 || levels.len() == 0 || !crosses(
        is_bids,
        taker.price,
        levels[0].price,
    ) {
        true
    } else if levels[0].orders.len() == 0 {
        match_exact(levels.drop_first(), is_bids, taker, executed)
    } else {
        let level = levels[0];
        let maker = level.orders[0];
        let q = spec_min(taker.quantity, maker.quantity);
        &&& q == maker.quantity || exact_difference(maker.quantity, q)
        &&& executed.man() == 0 || exact_sum(executed, q)
        &&& match (dec_sub(taker.quantity, q), dec_sub(maker.quantity, q), dec_add(executed, q)) {
            (Some(tq), Some(mq), Some(ex)) => if mq.val() > 0 {
                true
            } else {
                let rest = level.orders.drop_first();
                let levels2 = if rest.len() == 0 {
                    levels.drop_first()
                } else {
                    seq![LevelView { price: level.price, orders: rest }] + levels.drop_first()
                };
                proof {
                    crate::orderbook::lemma_total_orders_cons(
                        LevelView { price: level.price, orders: rest },
                        levels.drop_first(),
                    );
                }
                match_exact(levels2, is_bids, Order { quantity: tq, ..taker }, ex)
            },
            _ => true,
        }
    }
}

proof fn lemma_side_quantity_front(levels: Seq<LevelView>, x: LevelView)
    requires
        levels.len() > 0,
    ensures
        side_quantity(seq![x] + levels.drop_first()) == level_quantity(x.orders) + side_quantity(
            levels.drop_first(),
        ),
{
    assert((seq![x] + levels.drop_first()).drop_first() =~= levels.drop_first());
}

/// A run of matching takes from the side exactly what it adds to the
/// executed quantity.
proof fn lemma_run_quantity(
    levels: Seq<LevelView>,
    is_bids: bool,
    market: Market,
    taker: Order,
    executed: Dec,
    fills: Seq<Fill>,
    consumed: Seq<Order>,
)
    requires
        side_wf(levels, is_bids),
        quantities_ok(levels),
        taker.quantity.parts_ok(),
        executed.parts_ok(),
        match_exact(levels, is_bids, taker, executed),
    ensures
        ({
            let run = run_match(levels, is_bids, market, taker, executed, fills, consumed);
            !run.overflow ==> side_quantity(levels) - side_quantity(run.levels) == run.executed.val()
                - executed.val()
        }),
    decreases total_orders(levels), levels.len(),
{
    if taker.quantity.val() <= 0 || levels.len() == 0 || !crosses(
        is_bids,
        taker.price,
        levels[0].price,
    ) {
    } else {
        let level = levels[0];
        assert(level.orders.len() > 0);
        let maker = level.orders[0];
        assert(maker.quantity.parts_ok());
        assert(maker.quantity.val() > 0);
        let q = spec_min(taker.quantity, maker.quantity);
        let tq = dec_sub(taker.quantity, q);
        let mq = dec_sub(maker.quantity, q);
        let ex = dec_add(executed, q);
        if tq is None || mq is None || ex is None {
        } else {
            taker.quantity.lemma_val_zero();
            maker.quantity.lemma_val_zero();
            q.lemma_val_zero();
            executed.lemma_val_zero();
            if q == maker.quantity {
                crate::decimal::lemma_zero_scaled(maker.quantity.sc());
            } else {
                lemma_sub_exact(maker.quantity, q);
            }
            assert(mq->0.val() == maker.quantity.val() - q.val());
            if executed.man() != 0 {
                lemma_add_exact(executed, q);
            }
            assert(ex->0.val() == executed.val() + q.val());
            lemma_add_representable(executed, q);
            lemma_sub_representable(taker.quantity, q);
            let taker2 = Order { quantity: tq->0, ..taker };
            let maker2 = Order { quantity: mq->0, ..maker };
            let fill = fill_of(level.price, q, taker, maker, market);
            assert(side_quantity(levels) == level_quantity(level.orders) + side_quantity(levels.drop_first()));
            assert(level_quantity(level.orders) == maker.quantity.val() + level_quantity(level.orders.drop_first()));
            if mq->0.val() > 0 {
                let x = LevelView { price: level.price, orders: level.orders.update(0, maker2) };
                lemma_side_quantity_front(levels, x);
                assert(x.orders.drop_first() =~= level.orders.drop_first());
                assert(level_quantity(x.orders) == mq->0.val() + level_quantity(level.orders.drop_first()));
            } else {
                let rest = level.orders.drop_first();
                lemma_side_wf_tail(levels, is_bids);
                lemma_total_orders_cons(LevelView { price: level.price, orders: rest }, levels.drop_first());
                let levels2 = if rest.len() == 0 {
                    levels.drop_first()
                } else {
                    seq![LevelView { price: level.price, orders: rest }] + levels.drop_first()
                };
                if rest.len() == 0 {
                    assert(level_quantity(rest) == 0);
                } else {
                    let x = LevelView { price: level.price, orders: rest };
                    assert forall|k: int| 0 <= k < x.orders.len() implies (#[trigger] x.orders[k]).price.val()
                        == x.price.val() && x.orders[k].quantity.val() > 0 by {
                        assert(levels[0].orders[k + 1].price.val() == levels[0].price.val());
                    }
                    crate::orderbook::lemma_side_wf_front(levels, is_bids, x);
                    lemma_side_quantity_front(levels, x);
                }
                assert(side_quantity(levels2) == level_quantity(rest) + side_quantity(levels.drop_first()));
                assert(quantities_ok(levels2)) by {
                    assert forall|i: int, k: int|
                        0 <= i < levels2.len() && 0 <= k < levels2[i].orders.len() implies (
                        #[trigger] levels2[i].orders[k]).quantity.parts_ok() by {
                        if rest.len() == 0 {
                            assert(levels2[i] == levels[i + 1]);
                        } else if i == 0 {
                            assert(levels2[0].orders[k] == levels[0].orders[k + 1]);
                        } else {
                            assert(levels2[i] == levels[i]);
                        }
                    }
                }
                lemma_run_quantity(levels2, is_bids, market, taker2, ex->0, fills.push(fill), consumed.push(maker));
            }
        }
    }
}

/// Processing an order takes from the opposite side of the book exactly the
/// quantity it reports as executed: the total quantity resting there falls
/// by the executed quantity. Stated where each step of the matching is
/// exact (`match_exact`).
pub proof fn law_process_takes_executed_from_opposite_side(
    b: BookView,
    order: Order,
    side: OrderSide,
    order_type: OrderType,
)
    requires
        b.wf(),
        quantities_ok(b.side(side != OrderSide::BUY)),
        order.quantity.parts_ok(),
        match_exact(b.side(side != OrderSide::BUY), side != OrderSide::BUY, order, spec_zero()),
    ensures
        process_spec(b, order, side, order_type).1 matches Some((_, executed)) ==> side_quantity(
            b.side(side != OrderSide::BUY),
        ) - side_quantity(process_spec(b, order, side, order_type).0.side(side != OrderSide::BUY))
            == executed.val(),
{
    let is_buy = side == OrderSide::BUY;
    crate::decimal::lemma_zero();
    lemma_run_quantity(b.side(!is_buy), !is_buy, b.market, order, spec_zero(), seq![], seq![]);
}

/// No two orders of `os` share an id.
pub open spec fn unique_ids(os: Seq<Order>) -> bool {
    forall|i: int, j: int| 0 <= i < j < os.len() ==> #[trigger] os[i].order_id != #[trigger] os[j].order_id
}

/// No order of `x` shares an id with an order of `y`.
pub open spec fn disjoint_ids(x: Seq<Order>, y: Seq<Order>) -> bool {
    forall|i: int, j: int|
        0 <= i < x.len() && 0 <= j < y.len() ==> #[trigger] x[i].order_id != #[trigger] y[j].order_id
}

/// Some order of `os` has id `id`.
pub open spec fn has_id(os: Seq<Order>, id: u128) -> bool {
    exists|j: int| 0 <= j < os.len() && #[trigger] os[j].order_id == id
}

/// Every order of `os` is entered in the indexes: its price under its id,
/// and its id in its user's set.
pub open spec fn entered(os: Seq<Order>, prices: Map<u128, Dec>, users: Map<u128, Set<u128>>) -> bool {
    forall|j: int|
        0 <= j < os.len() ==> {
            &&& prices.contains_key(#[trigger] os[j].order_id)
            &&& prices[os[j].order_id] == os[j].price
            &&& users.contains_key(os[j].user_id)
            &&& users[os[j].user_id].contains(os[j].order_id)
        }
}

/// The two sides `x` and `y` and the indexes agree: every id rests once, each
/// resting order is entered, and the price index holds no other id.
pub open spec fn sides_agree(
    x: Seq<Order>,
    y: Seq<Order>,
    prices: Map<u128, Dec>,
    users: Map<u128, Set<u128>>,
) -> bool {
    &&& unique_ids(x)
    &&& unique_ids(y)
    &&& disjoint_ids(x, y)
    &&& entered(x, prices, users)
    &&& entered(y, prices, users)
    &&& forall|id: u128| #[trigger] prices.contains_key(id) ==> has_id(x, id) || has_id(y, id)
}

/// The book's indexes are in step with its sides: no order id rests twice;
/// each resting order's price is in the price index under its id and its id
/// in its user's set; the price index holds no other id.
pub open spec fn indexes_agree(b: BookView) -> bool {
    sides_agree(flatten(b.bids), flatten(b.asks), b.prices, b.users)
}

/// `a` and `b` list the same orders, up to their quantities.
pub open spec fn same_orders(a: Seq<Order>, b: Seq<Order>) -> bool {
    &&& a.len() == b.len()
    &&& forall|j: int|
        0 <= j < a.len() ==> {
            &&& (#[trigger] a[j]).order_id == b[j].order_id
            &&& a[j].user_id == b[j].user_id
            &&& a[j].price == b[j].price
        }
}

proof fn lemma_sides_agree_swap(x: Seq<Order>, y: Seq<Order>, prices: Map<u128, Dec>, users: Map<u128, Set<u128>>)
    requires
        sides_agree(x, y, prices, users),
    ensures
        sides_agree(y, x, prices, users),
{
    assert forall|i: int, j: int| 0 <= i < y.len() && 0 <= j < x.len() implies #[trigger] y[i].order_id
        != #[trigger] x[j].order_id by {
        assert(x[j].order_id != y[i].order_id);
    }
}

proof fn lemma_flatten_append(a: Seq<LevelView>, b: Seq<LevelView>)
    ensures
        flatten(a + b) == flatten(a) + flatten(b),
    decreases a.len(),
{
    if a.len() == 0 {
        assert(a + b =~= b);
    } else {
        lemma_flatten_append(a.drop_first(), b);
        assert((a + b).drop_first() =~= a.drop_first() + b);
        assert(flatten(a + b) =~= flatten(a) + flatten(b));
    }
}

/// The price index after the consumed orders leave it: the consumed ids are
/// gone, every other entry stays.
proof fn lemma_drop_filled_prices(m: Map<u128, Dec>, c: Seq<Order>)
    ensures
        forall|id: u128|
            #[trigger] drop_filled_prices(m, c).contains_key(id) <==> m.contains_key(id) && !has_id(c, id),
        forall|id: u128|
            #[trigger] drop_filled_prices(m, c).contains_key(id) ==> drop_filled_prices(m, c)[id] == m[id],
    decreases c.len(),
{
    if c.len() > 0 {
        let r = c.drop_last();
        lemma_drop_filled_prices(m, r);
        assert forall|id: u128| has_id(c, id) <==> has_id(r, id) || c.last().order_id == id by {
            if has_id(c, id) {
                let j = choose|j: int| 0 <= j < c.len() && #[trigger] c[j].order_id == id;
                if j < r.len() {
                    assert(r[j].order_id == id);
                }
            }
            if has_id(r, id) {
                let j = choose|j: int| 0 <= j < r.len() && #[trigger] r[j].order_id == id;
                assert(c[j].order_id == id);
            }
            if c.last().order_id == id {
                assert(c[c.len() - 1].order_id == id);
            }
        }
        let d = drop_filled_prices(m, r);
        assert(drop_filled_prices(m, c) == d.remove(c.last().order_id));
        assert forall|id: u128| #[trigger] drop_filled_prices(m, c).contains_key(id) <==> m.contains_key(id)
            && !has_id(c, id) by {
            assert(d.contains_key(id) <==> m.contains_key(id) && !has_id(r, id));
        }
        assert forall|id: u128| #[trigger] drop_filled_prices(m, c).contains_key(id) implies drop_filled_prices(m, c)[id]
            == m[id] by {
            assert(d.contains_key(id));
        }
    }
}

/// The user index after the consumed orders leave it: every user keeps an
/// entry, and an id no consumed order carries stays in or out of each set.
proof fn lemma_drop_filled_users(m: Map<u128, Set<u128>>, c: Seq<Order>)
    ensures
        forall|u: u128| #[trigger] m.contains_key(u) ==> drop_filled_users(m, c).contains_key(u),
        forall|u: u128, id: u128|
            #![trigger drop_filled_users(m, c)[u].contains(id)]
            m.contains_key(u) && !has_id(c, id) ==> (drop_filled_users(m, c)[u].contains(id)
                <==> m[u].contains(id)),
    decreases c.len(),
{
    if c.len() > 0 {
        let r = c.drop_last();
        lemma_drop_filled_users(m, r);
        assert forall|id: u128| !has_id(c, id) implies !has_id(r, id) && c.last().order_id != id by {
            if has_id(r, id) {
                let j = choose|j: int| 0 <= j < r.len() && #[trigger] r[j].order_id == id;
                assert(c[j].order_id == id);
            }
            assert(c[c.len() - 1].order_id == c.last().order_id);
        }
    }
}

/// A run of matching leaves the side's orders as they were, but for the
/// ones it filled completely, which leave from the front in the order filled,
/// and the quantity of the order it stopped in.
proof fn lemma_run_orders(
    levels: Seq<LevelView>,
    is_bids: bool,
    market: Market,
    taker: Order,
    executed: Dec,
    fills: Seq<Fill>,
    consumed: Seq<Order>,
)
    requires
        side_wf(levels, is_bids),
    ensures
        ({
            let run = run_match(levels, is_bids, market, taker, executed, fills, consumed);
            &&& run.consumed.len() >= consumed.len()
            &&& run.consumed.take(consumed.len() as int) == consumed
            &&& same_orders(
                flatten(levels),
                run.consumed.skip(consumed.len() as int) + flatten(run.levels),
            )
        }),
    decreases total_orders(levels), levels.len(),
{
    let run = run_match(levels, is_bids, market, taker, executed, fills, consumed);
    if taker.quantity.val() <= 0 || levels.len() == 0 || !crosses(
        is_bids,
        taker.price,
        levels[0].price,
    ) {
        assert(consumed.skip(consumed.len() as int) + flatten(levels) =~= flatten(levels));
        assert(consumed.take(consumed.len() as int) =~= consumed);
    } else {
        let level = levels[0];
        assert(level.orders.len() > 0);
        let maker = level.orders[0];
        let q = spec_min(taker.quantity, maker.quantity);
        let tq = dec_sub(taker.quantity, q);
        let mq = dec_sub(maker.quantity, q);
        let ex = dec_add(executed, q);
        assert(flatten(levels) == level.orders + flatten(levels.drop_first()));
        if tq is None || mq is None || ex is None {
            assert(consumed.skip(consumed.len() as int) + flatten(levels) =~= flatten(levels));
            assert(consumed.take(consumed.len() as int) =~= consumed);
        } else {
            let taker2 = Order { quantity: tq->0, ..taker };
            let maker2 = Order { quantity: mq->0, ..maker };
            let fill = fill_of(level.price, q, taker, maker, market);
            if mq->0.val() > 0 {
                let x = LevelView { price: level.price, orders: level.orders.update(0, maker2) };
                lemma_flatten_cons(x, levels.drop_first());
                let z = flatten(run.levels);
                assert(z == x.orders + flatten(levels.drop_first()));
                assert(consumed.skip(consumed.len() as int) + z =~= z);
                assert(consumed.take(consumed.len() as int) =~= consumed);
                let f = flatten(levels);
                assert forall|j: int| 0 <= j < f.len() implies {
                    &&& (#[trigger] f[j]).order_id == z[j].order_id
                    &&& f[j].user_id == z[j].user_id
                    &&& f[j].price == z[j].price
                } by {
                    if j >= level.orders.len() {
                        assert(f[j] == flatten(levels.drop_first())[j - level.orders.len()]);
                        assert(z[j] == flatten(levels.drop_first())[j - level.orders.len()]);
                    } else if j > 0 {
                        assert(f[j] == level.orders[j]);
                        assert(z[j] == x.orders[j]);
                    }
                }
            } else {
                let rest = level.orders.drop_first();
                lemma_side_wf_tail(levels, is_bids);
                lemma_total_orders_cons(LevelView { price: level.price, orders: rest }, levels.drop_first());
                let levels2 = if rest.len() == 0 {
                    levels.drop_first()
                } else {
                    seq![LevelView { price: level.price, orders: rest }] + levels.drop_first()
                };
                if rest.len() == 0 {
                    assert(rest + flatten(levels.drop_first()) =~= flatten(levels.drop_first()));
                } else {
                    let x = LevelView { price: level.price, orders: rest };
                    assert forall|k: int| 0 <= k < x.orders.len() implies (#[trigger] x.orders[k]).price.val()
                        == x.price.val() && x.orders[k].quantity.val() > 0 by {
                        assert(levels[0].orders[k + 1].price.val() == levels[0].price.val());
                    }
                    crate::orderbook::lemma_side_wf_front(levels, is_bids, x);
                    lemma_flatten_cons(x, levels.drop_first());
                }
                assert(flatten(levels2) == rest + flatten(levels.drop_first()));
                assert(flatten(levels) =~= seq![maker] + flatten(levels2));
                let c2 = consumed.push(maker);
                lemma_run_orders(levels2, is_bids, market, taker2, ex->0, fills.push(fill), c2);
                assert(run == run_match(levels2, is_bids, market, taker2, ex->0, fills.push(fill), c2));
                let n = consumed.len() as int;
                assert(run.consumed.take(n) =~= run.consumed.take(n + 1).take(n));
                assert(run.consumed.take(n + 1)[n] == maker);
                assert(run.consumed.skip(n) =~= seq![maker] + run.consumed.skip(n + 1));
                let f = flatten(levels);
                let g = run.consumed.skip(n) + flatten(run.levels);
                let g2 = run.consumed.skip(n + 1) + flatten(run.levels);
                assert(g =~= seq![maker] + g2);
                assert forall|j: int| 0 <= j < f.len() implies {
                    &&& (#[trigger] f[j]).order_id == g[j].order_id
                    &&& f[j].user_id == g[j].user_id
                    &&& f[j].price == g[j].price
                } by {
                    if j > 0 {
                        assert(f[j] == flatten(levels2)[j - 1]);
                        assert(g[j] == g2[j - 1]);
                    }
                }
            }
        }
    }
}

/// After a run, the side that was matched against and the indexes, with the
/// filled orders dropped from both, still agree with the other side.
proof fn lemma_after_run_agree(
    x: Seq<Order>,
    y: Seq<Order>,
    z: Seq<Order>,
    d: Seq<Order>,
    prices: Map<u128, Dec>,
    users: Map<u128, Set<u128>>,
)
    requires
        sides_agree(x, y, prices, users),
        same_orders(y, d + z),
    ensures
        sides_agree(x, z, drop_filled_prices(prices, d), drop_filled_users(users, d)),
{
    let n = d.len() as int;
    let p1 = drop_filled_prices(prices, d);
    let u1 = drop_filled_users(users, d);
    lemma_drop_filled_prices(prices, d);
    lemma_drop_filled_users(users, d);
    let dz = d + z;
    assert forall|j: int| 0 <= j < z.len() implies {
        &&& (#[trigger] z[j]).order_id == y[n + j].order_id
        &&& z[j].user_id == y[n + j].user_id
        &&& z[j].price == y[n + j].price
    } by {
        assert(dz[n + j] == z[j]);
    }
    assert forall|i: int| 0 <= i < n implies (#[trigger] d[i]).order_id == y[i].order_id by {
        assert(dz[i] == d[i]);
    }
    assert forall|j: int| 0 <= j < z.len() implies !has_id(d, #[trigger] z[j].order_id) by {
        if has_id(d, z[j].order_id) {
            let i = choose|i: int| 0 <= i < d.len() && #[trigger] d[i].order_id == z[j].order_id;
            assert(y[i].order_id != y[n + j].order_id);
        }
    }
    assert forall|i: int| 0 <= i < x.len() implies !has_id(d, #[trigger] x[i].order_id) by {
        if has_id(d, x[i].order_id) {
            let k = choose|k: int| 0 <= k < d.len() && #[trigger] d[k].order_id == x[i].order_id;
            assert(x[i].order_id != y[k].order_id);
        }
    }
    assert forall|i: int, j: int| 0 <= i < j < z.len() implies #[trigger] z[i].order_id
        != #[trigger] z[j].order_id by {
        assert(y[n + i].order_id != y[n + j].order_id);
    }
    assert forall|i: int, j: int| 0 <= i < x.len() && 0 <= j < z.len() implies #[trigger] x[i].order_id
        != #[trigger] z[j].order_id by {
        assert(x[i].order_id != y[n + j].order_id);
    }
    assert forall|i: int| 0 <= i < x.len() implies {
        &&& p1.contains_key(#[trigger] x[i].order_id)
        &&& p1[x[i].order_id] == x[i].price
        &&& u1.contains_key(x[i].user_id)
        &&& u1[x[i].user_id].contains(x[i].order_id)
    } by {
        assert(!has_id(d, x[i].order_id));
        assert(u1[x[i].user_id].contains(x[i].order_id) <==> users[x[i].user_id].contains(x[i].order_id));
    }
    assert forall|j: int| 0 <= j < z.len() implies {
        &&& p1.contains_key(#[trigger] z[j].order_id)
        &&& p1[z[j].order_id] == z[j].price
        &&& u1.contains_key(z[j].user_id)
        &&& u1[z[j].user_id].contains(z[j].order_id)
    } by {
        assert(!has_id(d, z[j].order_id));
        assert(y[n + j].order_id == z[j].order_id);
        assert(u1[z[j].user_id].contains(z[j].order_id) <==> users[z[j].user_id].contains(z[j].order_id));
    }
    assert forall|id: u128| #[trigger] p1.contains_key(id) implies has_id(x, id) || has_id(z, id) by {
        if !has_id(x, id) {
            assert(has_id(y, id));
            let j = choose|j: int| 0 <= j < y.len() && #[trigger] y[j].order_id == id;
            if j < n {
                assert(d[j].order_id == id);
            } else {
                assert(z[j - n].order_id == id);
            }
        }
    }
}

/// Resting an order puts it somewhere among the side's orders, which keep
/// their order.
proof fn lemma_insert_order_flatten(levels: Seq<LevelView>, is_bids: bool, o: Order) -> (k: int)
    ensures
        0 <= k <= flatten(levels).len(),
        flatten(insert_order(levels, is_bids, o)) == flatten(levels).take(k).push(o) + flatten(
            levels,
        ).skip(k),
{
    let f = flatten(levels);
    let li = level_index(levels, o.price);
    if li >= 0 {
        assert(is_level_at(levels, o.price, li));
        let before = levels.take(li);
        let after = levels.skip(li + 1);
        let old_level = levels[li];
        let new_level = LevelView { price: old_level.price, orders: old_level.orders.push(o) };
        assert(levels =~= before + (seq![old_level] + after));
        assert(insert_order(levels, is_bids, o) =~= before + (seq![new_level] + after));
        lemma_flatten_append(before, seq![old_level] + after);
        lemma_flatten_append(before, seq![new_level] + after);
        lemma_flatten_cons(old_level, after);
        lemma_flatten_cons(new_level, after);
        assert((seq![old_level] + after).drop_first() =~= after);
        let k = (flatten(before).len() + old_level.orders.len()) as int;
        assert(flatten(insert_order(levels, is_bids, o)) =~= f.take(k).push(o) + f.skip(k));
        k
    } else {
        lemma_insert_pos_exists(levels, is_bids, o.price, 0);
        let pos = insert_pos(levels, is_bids, o.price);
        assert(is_insert_pos(levels, is_bids, o.price, pos));
        let before = levels.take(pos);
        let after = levels.skip(pos);
        let new_level = LevelView { price: o.price, orders: seq![o] };
        assert(levels =~= before + after);
        assert(insert_order(levels, is_bids, o) =~= before + (seq![new_level] + after));
        lemma_flatten_append(before, after);
        lemma_flatten_append(before, seq![new_level] + after);
        lemma_flatten_cons(new_level, after);
        let k = flatten(before).len() as int;
        assert(flatten(insert_order(levels, is_bids, o)) =~= f.take(k).push(o) + f.skip(k));
        k
    }
}

/// Entering a new order in both indexes as it rests keeps them in step.
proof fn lemma_rest_agree(
    x: Seq<Order>,
    y: Seq<Order>,
    k: int,
    o: Order,
    prices: Map<u128, Dec>,
    users: Map<u128, Set<u128>>,
)
    requires
        sides_agree(x, y, prices, users),
        0 <= k <= x.len(),
        !has_id(x, o.order_id),
        !has_id(y, o.order_id),
    ensures
        ({
            let set = if users.contains_key(o.user_id) {
                users[o.user_id]
            } else {
                Set::empty()
            };
            sides_agree(
                x.take(k).push(o) + x.skip(k),
                y,
                prices.insert(o.order_id, o.price),
                users.insert(o.user_id, set.insert(o.order_id)),
            )
        }),
{
    let set = if users.contains_key(o.user_id) {
        users[o.user_id]
    } else {
        Set::empty()
    };
    let x2 = x.take(k).push(o) + x.skip(k);
    let p2 = prices.insert(o.order_id, o.price);
    let u2 = users.insert(o.user_id, set.insert(o.order_id));
    assert(x2.len() == x.len() + 1);
    assert forall|j: int| 0 <= j < x2.len() implies #[trigger] x2[j] == (if j < k {
        x[j]
    } else if j == k {
        o
    } else {
        x[j - 1]
    }) by {
        if j < k {
            assert(x2[j] == x.take(k)[j]);
        } else if j > k {
            assert(x2[j] == x.skip(k)[j - k - 1]);
        }
    }
    assert forall|i: int| 0 <= i < x.len() implies (#[trigger] x[i]).order_id != o.order_id by {
        if x[i].order_id == o.order_id {
            assert(has_id(x, o.order_id));
        }
    }
    assert forall|i: int| 0 <= i < y.len() implies (#[trigger] y[i]).order_id != o.order_id by {
        if y[i].order_id == o.order_id {
            assert(has_id(y, o.order_id));
        }
    }
    assert forall|i: int, j: int| 0 <= i < j < x2.len() implies #[trigger] x2[i].order_id
        != #[trigger] x2[j].order_id by {
        if i < k && j > k {
            assert(x[i].order_id != x[j - 1].order_id);
        } else if i > k {
            assert(x[i - 1].order_id != x[j - 1].order_id);
        } else if i < k && j < k {
            assert(x[i].order_id != x[j].order_id);
        }
    }
    assert forall|i: int, j: int| 0 <= i < x2.len() && 0 <= j < y.len() implies #[trigger] x2[i].order_id
        != #[trigger] y[j].order_id by {
        if i < k {
            assert(x[i].order_id != y[j].order_id);
        } else if i > k {
            assert(x[i - 1].order_id != y[j].order_id);
        }
    }
    assert forall|i: int| 0 <= i < x.len() implies {
        &&& p2.contains_key(#[trigger] x[i].order_id)
        &&& p2[x[i].order_id] == x[i].price
        &&& u2.contains_key(x[i].user_id)
        &&& u2[x[i].user_id].contains(x[i].order_id)
    } by {
        assert(prices.contains_key(x[i].order_id));
        assert(users.contains_key(x[i].user_id));
    }
    assert forall|j: int| 0 <= j < x2.len() implies {
        &&& p2.contains_key(#[trigger] x2[j].order_id)
        &&& p2[x2[j].order_id] == x2[j].price
        &&& u2.contains_key(x2[j].user_id)
        &&& u2[x2[j].user_id].contains(x2[j].order_id)
    } by {
        if j < k {
            assert(x2[j] == x[j]);
        } else if j > k {
            assert(x2[j] == x[j - 1]);
        }
    }
    assert forall|j: int| 0 <= j < y.len() implies {
        &&& p2.contains_key(#[trigger] y[j].order_id)
        &&& p2[y[j].order_id] == y[j].price
        &&& u2.contains_key(y[j].user_id)
        &&& u2[y[j].user_id].contains(y[j].order_id)
    } by {
        assert(prices.contains_key(y[j].order_id));
        assert(users.contains_key(y[j].user_id));
    }
    assert forall|id: u128| #[trigger] p2.contains_key(id) implies has_id(x2, id) || has_id(y, id) by {
        if id == o.order_id {
            assert(x2[k].order_id == id);
        } else {
            assert(prices.contains_key(id));
            if has_id(x, id) {
                let i = choose|i: int| 0 <= i < x.len() && #[trigger] x[i].order_id == id;
                if i < k {
                    assert(x2[i].order_id == id);
                } else {
                    assert(x2[i + 1].order_id == id);
                }
            }
        }
    }
}

/// Processing an order keeps the book's indexes in step with its sides
/// (`indexes_agree`): the orders it fills completely leave both indexes, the
/// others stay entered as they were, and what rests of a limit order is
/// entered under its id and its user. Stated for an order whose id no
/// resting order carries.
pub proof fn law_process_keeps_indexes_in_step(
    b: BookView,
    order: Order,
    side: OrderSide,
    order_type: OrderType,
)
    requires
        b.wf(),
        indexes_agree(b),
        !has_id(flatten(b.bids), order.order_id),
        !has_id(flatten(b.asks), order.order_id),
    ensures
        indexes_agree(process_spec(b, order, side, order_type).0),
{
    let is_buy = side == OrderSide::BUY;
    let opp = b.side(!is_buy);
    let own = b.side(is_buy);
    let run = b.run(!is_buy, order);
    lemma_run_orders(opp, !is_buy, b.market, order, crate::decimal::spec_zero(), seq![], seq![]);
    lemma_run_front(opp, !is_buy, b.market, order, crate::decimal::spec_zero(), seq![], seq![]);
    let x = flatten(own);
    let y = flatten(opp);
    let z = flatten(run.levels);
    let d = run.consumed;
    assert(d.skip(0) =~= d);
    if is_buy {
        assert(sides_agree(x, y, b.prices, b.users));
    } else {
        lemma_sides_agree_swap(y, x, b.prices, b.users);
    }
    lemma_after_run_agree(x, y, z, d, b.prices, b.users);
    let b1 = b.after_run(!is_buy, run);
    let p1 = b1.prices;
    let u1 = b1.users;
    assert(b1.side(is_buy) == own);
    assert(b1.side(!is_buy) == run.levels);
    let rests = !run.overflow && order_type == OrderType::LIMIT && run.taker.quantity.val() > 0;
    if rests {
        let t = run.taker;
        let k = lemma_insert_order_flatten(own, is_buy, t);
        assert(!has_id(x, t.order_id));
        assert(!has_id(z, t.order_id)) by {
            if has_id(z, t.order_id) {
                let j = choose|j: int| 0 <= j < z.len() && #[trigger] z[j].order_id == t.order_id;
                let n = d.len() as int;
                assert((d + z)[n + j] == z[j]);
                assert(y[n + j].order_id == t.order_id);
            }
        }
        lemma_rest_agree(x, z, k, t, p1, u1);
        let b2 = b1.rest(is_buy, t);
        assert(process_spec(b, order, side, order_type).0 == b2);
        assert(b2.side(is_buy) == insert_order(own, is_buy, t));
        assert(b2.side(!is_buy) == run.levels);
        if !is_buy {
            lemma_sides_agree_swap(flatten(insert_order(own, is_buy, t)), z, b2.prices, b2.users);
        }
    } else {
        assert(process_spec(b, order, side, order_type).0 == b1);
        if !is_buy {
            lemma_sides_agree_swap(x, z, p1, u1);
        }
    }
}

} // verus!

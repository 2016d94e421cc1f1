//! A central limit order book with price-time priority.
//!
//! Each side is a list of price levels, best price first (highest bid,
//! lowest ask); a level holds its resting orders oldest first. Two indexes
//! follow the resting orders: the price of each order id, and the order ids of
//! each user.
use crate::decimal::{Dec, DecimalOverflow, spec_min, spec_zero, dec_sub, dec_add, dec_mul, dec_div};
use crate::ids::{new_v4_id, now_millis};
use crate::types::{Fill, Market, Order, OrderBookDepth, OrderPayload, OrderSide, OrderType, ProcessOrderResult};
use std::collections::{HashMap, HashSet};
use vstd::prelude::*;
use vstd::std_specs::hash::{group_hash_axioms, spec_hash_keys_iter};
use vstd::std_specs::iter::IteratorSpec;

verus! {

broadcast use {group_hash_axioms, crate::decimal::lemma_zero_scaled};

/// The resting orders at one price, oldest first.
#[derive(Clone, Debug)]
pub struct PriceLevel {
    pub price: Dec,
    pub orders: Vec<Order>,
}

pub ghost struct LevelView {
    pub price: Dec,
    pub orders: Seq<Order>,
}

impl View for PriceLevel {
    type V = LevelView;

    open spec fn view(&self) -> LevelView {
        LevelView { price: self.price, orders: self.orders@ }
    }
}

pub open spec fn levels_view(v: Seq<PriceLevel>) -> Seq<LevelView> {
    v.map_values(|l: PriceLevel| l@)
}

/// `a` is a strictly better price than `b` on the side: higher for bids,
/// lower for asks.
pub open spec fn better(is_bids: bool, a: Dec, b: Dec) -> bool {
    if is_bids {
        a.val() > b.val()
    } else {
        a.val() < b.val()
    }
}

/// A taker with limit price `limit` trades against a resting level at `best`:
/// a zero limit trades at any price, otherwise the limit must not be better
/// for the taker than the level's price.
pub open spec fn crosses(is_bids: bool, limit: Dec, best: Dec) -> bool {
    limit.val() == 0 || !better(is_bids, limit, best)
}

/// A side is well formed: levels strictly ordered best first, none empty,
/// and every resting order has the level's price and a positive quantity.
pub open spec fn side_wf(levels: Seq<LevelView>, is_bids: bool) -> bool {
    &&& forall|i: int, j: int|
        0 <= i < j < levels.len() ==> #[trigger] better(is_bids, levels[i].price, levels[j].price)
    &&& forall|i: int| 0 <= i < levels.len() ==> #[trigger] levels[i].orders.len() > 0
    &&& forall|i: int, k: int|
        0 <= i < levels.len() && 0 <= k < levels[i].orders.len() ==> {
            &&& (#[trigger] levels[i].orders[k]).price.val() == levels[i].price.val()
            &&& levels[i].orders[k].quantity.val() > 0
        }
}

pub open spec fn total_orders(levels: Seq<LevelView>) -> nat
    decreases levels.len(),
{
    if levels.len() == 0 {
        0
    } else {
        levels[0].orders.len() + total_orders(levels.drop_first())
    }
}

pub proof fn lemma_total_orders_cons(x: LevelView, rest: Seq<LevelView>)
    ensures
        total_orders(seq![x] + rest) == x.orders.len() + total_orders(rest),
{
    let s = seq![x] + rest;
    assert(s.drop_first() =~= rest);
}

/// Where a run of matching has got to.
pub ghost struct MatchRun {
    pub levels: Seq<LevelView>,
    pub taker: Order,
    pub executed: Dec,
    pub fills: Seq<Fill>,
    /// The resting orders filled completely, in the order they were filled.
    pub consumed: Seq<Order>,
    /// Decimal arithmetic overflowed; the run stopped where it was.
    pub overflow: bool,
}

/// The fill of `maker` at `price` by `taker`, for `quantity`.
pub open spec fn fill_of(price: Dec, quantity: Dec, taker: Order, maker: Order, market: Market) -> Fill {
    Fill {
        price,
        quantity,
        taker_user_id: taker.user_id,
        taker_order_id: taker.order_id,
        maker_user_id: maker.user_id,
        maker_order_id: maker.order_id,
        market,
    }
}

/// Matching a taker against one side of the book, best level first and the
/// oldest order of a level first. Each step trades `min(taker, maker)` at the
/// level's price; a maker that is not filled completely stays at the front
/// of its level (the taker is then exhausted), a filled one leaves, and an
/// emptied level leaves the side. Matching stops when the taker is
/// exhausted, the side is empty, or the best level does not cross the
/// taker's limit.
pub open spec fn run_match(
    levels: Seq<LevelView>,
    is_bids: bool,
    market: Market,
    taker: Order,
    executed: Dec,
    fills: Seq<Fill>,
    consumed: Seq<Order>,
) -> MatchRun
    decreases total_orders(levels), levels.len(),
{
    if taker.quantity.val() <= 0 || levels.len() == 0 || !crosses(
        is_bids,
        taker.price,
        levels[0].price,
    ) {
        MatchRun { levels, taker, executed, fills, consumed, overflow: false }
    } else if levels[0].orders.len() == 0 {
        run_match(levels.drop_first(), is_bids, market, taker, executed, fills, consumed)
    } else {
        let level = levels[0];
        let maker = level.orders[0];
        let q = spec_min(taker.quantity, maker.quantity);
        let tq = dec_sub(taker.quantity, q);
        let mq = dec_sub(maker.quantity, q);
        let ex = dec_add(executed, q);
        if tq is None || mq is None || ex is None {
            MatchRun { levels, taker, executed, fills, consumed, overflow: true }
        } else {
            let taker2 = Order { quantity: tq->0, ..taker };
            let maker2 = Order { quantity: mq->0, ..maker };
            let fill = fill_of(level.price, q, taker, maker, market);
            if mq->0.val() > 0 {
                let levels2 = seq![
                    LevelView { price: level.price, orders: level.orders.update(0, maker2) },
                ] + levels.drop_first();
                MatchRun {
                    levels: levels2,
                    taker: taker2,
                    executed: ex->0,
                    fills: fills.push(fill),
                    consumed,
                    overflow: false,
                }
            } else {
                let rest = level.orders.drop_first();
                let levels2 = if rest.len() == 0 {
                    levels.drop_first()
                } else {
                    seq![LevelView { price: level.price, orders: rest }] + levels.drop_first()
                };
                proof {
                    lemma_total_orders_cons(LevelView { price: level.price, orders: rest }, levels.drop_first());
                }
                run_match(
                    levels2,
                    is_bids,
                    market,
                    taker2,
                    ex->0,
                    fills.push(fill),
                    consumed.push(maker),
                )
            }
        }
    }
}

/// The price index after the consumed orders leave it.
pub open spec fn drop_filled_prices(m: Map<u128, Dec>, c: Seq<Order>) -> Map<u128, Dec>
    decreases c.len(),
{
    if c.len() == 0 {
        m
    } else {
        drop_filled_prices(m, c.drop_last()).remove(c.last().order_id)
    }
}

/// The user index after an order leaves its user's set (a user without an
/// entry keeps none).
pub open spec fn drop_user_order(m: Map<u128, Set<u128>>, o: Order) -> Map<u128, Set<u128>> {
    if m.contains_key(o.user_id) {
        m.insert(o.user_id, m[o.user_id].remove(o.order_id))
    } else {
        m
    }
}

/// The user index after the consumed orders leave it.
pub open spec fn drop_filled_users(m: Map<u128, Set<u128>>, c: Seq<Order>) -> Map<
    u128,
    Set<u128>,
>
    decreases c.len(),
{
    if c.len() == 0 {
        m
    } else {
        drop_user_order(drop_filled_users(m, c.drop_last()), c.last())
    }
}

pub open spec fn user_sets(m: Map<u128, HashSet<u128>>) -> Map<u128, Set<u128>> {
    m.map_values(|s: HashSet<u128>| s@)
}

/// The abstract book: both sides, both indexes, and the market.
pub ghost struct BookView {
    pub bids: Seq<LevelView>,
    pub asks: Seq<LevelView>,
    pub prices: Map<u128, Dec>,
    pub users: Map<u128, Set<u128>>,
    pub market: Market,
}

pub struct Orderbook {
    pub bids: Vec<PriceLevel>,
    pub asks: Vec<PriceLevel>,
    pub order_price_map: HashMap<u128, Dec>,
    pub user_orders_map: HashMap<u128, HashSet<u128>>,
    pub market: Market,
}

impl View for Orderbook {
    type V = BookView;

    open spec fn view(&self) -> BookView {
        BookView {
            bids: levels_view(self.bids@),
            asks: levels_view(self.asks@),
            prices: self.order_price_map@,
            users: user_sets(self.user_orders_map@),
            market: self.market,
        }
    }
}

impl BookView {
    /// Both sides are well formed.
    pub open spec fn wf(self) -> bool {
        side_wf(self.bids, true) && side_wf(self.asks, false)
    }

    pub open spec fn side(self, is_bids: bool) -> Seq<LevelView> {
        if is_bids {
            self.bids
        } else {
            self.asks
        }
    }

    pub open spec fn with_side(self, is_bids: bool, levels: Seq<LevelView>) -> BookView {
        if is_bids {
            BookView { bids: levels, ..self }
        } else {
            BookView { asks: levels, ..self }
        }
    }

    /// Matching `taker` against the side `is_bids`, from a zero executed
    /// quantity and no fills.
    pub open spec fn run(self, is_bids: bool, taker: Order) -> MatchRun {
        run_match(self.side(is_bids), is_bids, self.market, taker, spec_zero(), seq![], seq![])
    }

    /// The book once a run of matching against the side `is_bids` is done.
    pub open spec fn after_run(self, is_bids: bool, run: MatchRun) -> BookView {
        BookView {
            prices: drop_filled_prices(self.prices, run.consumed),
            users: drop_filled_users(self.users, run.consumed),
            ..self.with_side(is_bids, run.levels)
        }
    }
}


/// `i` is where a level at price `p` belongs: every level before it has a
/// strictly better price, and the level at `i`, if any, does not.
pub open spec fn is_insert_pos(levels: Seq<LevelView>, is_bids: bool, p: Dec, i: int) -> bool {
    &&& 0 <= i <= levels.len()
    &&& forall|j: int| 0 <= j < i ==> #[trigger] better(is_bids, levels[j].price, p)
    &&& i < levels.len() ==> !better(is_bids, levels[i].price, p)
}

pub open spec fn insert_pos(levels: Seq<LevelView>, is_bids: bool, p: Dec) -> int {
    choose|i: int| is_insert_pos(levels, is_bids, p, i)
}

/// `i` is the first level whose price equals `p`.
pub open spec fn is_level_at(levels: Seq<LevelView>, p: Dec, i: int) -> bool {
    &&& 0 <= i < levels.len()
    &&& levels[i].price.val() == p.val()
    &&& forall|j: int| 0 <= j < i ==> (#[trigger] levels[j].price).val() != p.val()
}

/// The first level whose price equals `p`, or -1.
pub open spec fn level_index(levels: Seq<LevelView>, p: Dec) -> int {
    if exists|i: int| is_level_at(levels, p, i) {
        choose|i: int| is_level_at(levels, p, i)
    } else {
        -1
    }
}

pub proof fn lemma_level_at_unique(levels: Seq<LevelView>, p: Dec, i: int)
    requires
        is_level_at(levels, p, i),
    ensures
        level_index(levels, p) == i,
{
    let k = level_index(levels, p);
    assert(is_level_at(levels, p, k));
    if k < i {
        assert(levels[k].price.val() != p.val());
    } else if k > i {
        assert(levels[i].price.val() != p.val());
    }
}

pub proof fn lemma_insert_pos_unique(levels: Seq<LevelView>, is_bids: bool, p: Dec, i: int)
    requires
        is_insert_pos(levels, is_bids, p, i),
    ensures
        insert_pos(levels, is_bids, p) == i,
{
    let k = insert_pos(levels, is_bids, p);
    assert(is_insert_pos(levels, is_bids, p, k));
    if k < i {
        assert(better(is_bids, levels[k].price, p));
    } else if k > i {
        assert(better(is_bids, levels[i].price, p));
    }
}

/// The side with order `o` resting on it: at the back of the level with its
/// price, or alone on a new level in price order.
pub open spec fn insert_order(levels: Seq<LevelView>, is_bids: bool, o: Order) -> Seq<LevelView> {
    let li = level_index(levels, o.price);
    if li >= 0 {
        levels.update(li, LevelView { price: levels[li].price, orders: levels[li].orders.push(o) })
    } else {
        levels.insert(
            insert_pos(levels, is_bids, o.price),
            LevelView { price: o.price, orders: seq![o] },
        )
    }
}

impl BookView {
    /// The book with `o` resting on the side `is_bids` and entered in both
    /// indexes.
    pub open spec fn rest(self, is_bids: bool, o: Order) -> BookView {
        let set = if self.users.contains_key(o.user_id) {
            self.users[o.user_id]
        } else {
            Set::empty()
        };
        BookView {
            prices: self.prices.insert(o.order_id, o.price),
            users: self.users.insert(o.user_id, set.insert(o.order_id)),
            ..self.with_side(is_bids, insert_order(self.side(is_bids), is_bids, o))
        }
    }
}

/// What processing an order does: a buy matches against the asks, a sell
/// against the bids; what is left of a limit order with positive quantity
/// then rests on its own side. Returns the new book and the fills with the
/// executed quantity, or `None` where decimal arithmetic overflowed.
pub open spec fn process_spec(
    book: BookView,
    order: Order,
    side: OrderSide,
    order_type: OrderType,
) -> (BookView, Option<(Seq<Fill>, Dec)>) {
    let is_buy = side == OrderSide::BUY;
    let run = book.run(!is_buy, order);
    let b1 = book.after_run(!is_buy, run);
    if run.overflow {
        (b1, None)
    } else if order_type == OrderType::LIMIT && run.taker.quantity.val() > 0 {
        (b1.rest(is_buy, run.taker), Some((run.fills, run.executed)))
    } else {
        (b1, Some((run.fills, run.executed)))
    }
}

pub proof fn lemma_side_wf_tail(levels: Seq<LevelView>, is_bids: bool)
    requires
        side_wf(levels, is_bids),
        levels.len() > 0,
    ensures
        side_wf(levels.drop_first(), is_bids),
{
    let t = levels.drop_first();
    assert forall|i: int, j: int| 0 <= i < j < t.len() implies #[trigger] better(
        is_bids,
        t[i].price,
        t[j].price,
    ) by {
        assert(better(is_bids, levels[i + 1].price, levels[j + 1].price));
    }
    assert forall|i: int| 0 <= i < t.len() implies #[trigger] t[i].orders.len() > 0 by {
        assert(levels[i + 1].orders.len() > 0);
    }
    assert forall|i: int, k: int| 0 <= i < t.len() && 0 <= k < t[i].orders.len() implies {
        &&& (#[trigger] t[i].orders[k]).price.val() == t[i].price.val()
        &&& t[i].orders[k].quantity.val() > 0
    } by {
        assert(levels[i + 1].orders[k] == t[i].orders[k]);
    }
}

/// Replacing the best level by one with the same price and other well-formed
/// orders keeps the side well formed.
pub proof fn lemma_side_wf_front(levels: Seq<LevelView>, is_bids: bool, x: LevelView)
    requires
        side_wf(levels, is_bids),
        levels.len() > 0,
        x.price == levels[0].price,
        x.orders.len() > 0,
        forall|k: int|
            0 <= k < x.orders.len() ==> (#[trigger] x.orders[k]).price.val() == x.price.val()
                && x.orders[k].quantity.val() > 0,
    ensures
        side_wf(seq![x] + levels.drop_first(), is_bids),
{
    let s = seq![x] + levels.drop_first();
    assert forall|i: int, j: int| 0 <= i < j < s.len() implies #[trigger] better(
        is_bids,
        s[i].price,
        s[j].price,
    ) by {
        assert(s[i].price == levels[i].price);
        assert(s[j].price == levels[j].price);
        assert(better(is_bids, levels[i].price, levels[j].price));
    }
    assert forall|i: int| 0 <= i < s.len() implies #[trigger] s[i].orders.len() > 0 by {
        if i > 0 {
            assert(s[i] == levels[i]);
        }
    }
    assert forall|i: int, k: int| 0 <= i < s.len() && 0 <= k < s[i].orders.len() implies {
        &&& (#[trigger] s[i].orders[k]).price.val() == s[i].price.val()
        &&& s[i].orders[k].quantity.val() > 0
    } by {
        if i > 0 {
            assert(s[i] == levels[i]);
            assert(levels[i].orders[k] == s[i].orders[k]);
        }
    }
}

/// Matching keeps the side well formed.
pub proof fn lemma_run_match_wf(
    levels: Seq<LevelView>,
    is_bids: bool,
    market: Market,
    taker: Order,
    executed: Dec,
    fills: Seq<Fill>,
    consumed: Seq<Order>,
)
    requires
        side_wf(levels, is_bids),
    ensures
        side_wf(run_match(levels, is_bids, market, taker, executed, fills, consumed).levels, is_bids),
    decreases total_orders(levels), levels.len(),
{
    if taker.quantity.val() <= 0 || levels.len() == 0 || !crosses(
        is_bids,
        taker.price,
        levels[0].price,
    ) {
    } else if levels[0].orders.len() == 0 {
    } else {
        let level = levels[0];
        let maker = level.orders[0];
        let q = spec_min(taker.quantity, maker.quantity);
        let tq = dec_sub(taker.quantity, q);
        let mq = dec_sub(maker.quantity, q);
        let ex = dec_add(executed, q);
        if tq is None || mq is None || ex is None {
        } else {
            let taker2 = Order { quantity: tq->0, ..taker };
            let maker2 = Order { quantity: mq->0, ..maker };
            let fill = fill_of(level.price, q, taker, maker, market);
            if mq->0.val() > 0 {
                let x = LevelView { price: level.price, orders: level.orders.update(0, maker2) };
                assert forall|k: int| 0 <= k < x.orders.len() implies (#[trigger] x.orders[k]).price.val()
                    == x.price.val() && x.orders[k].quantity.val() > 0 by {
                    assert(levels[0].orders[k].price.val() == levels[0].price.val());
                }
                lemma_side_wf_front(levels, is_bids, x);
            } else {
                let rest = level.orders.drop_first();
                lemma_side_wf_tail(levels, is_bids);
                lemma_total_orders_cons(LevelView { price: level.price, orders: rest }, levels.drop_first());
                if rest.len() == 0 {
                    lemma_run_match_wf(
                        levels.drop_first(),
                        is_bids,
                        market,
                        taker2,
                        ex->0,
                        fills.push(fill),
                        consumed.push(maker),
                    );
                } else {
                    let x = LevelView { price: level.price, orders: rest };
                    assert forall|k: int| 0 <= k < x.orders.len() implies (#[trigger] x.orders[k]).price.val()
                        == x.price.val() && x.orders[k].quantity.val() > 0 by {
                        assert(levels[0].orders[k + 1].price.val() == levels[0].price.val());
                    }
                    lemma_side_wf_front(levels, is_bids, x);
                    lemma_run_match_wf(
                        seq![x] + levels.drop_first(),
                        is_bids,
                        market,
                        taker2,
                        ex->0,
                        fills.push(fill),
                        consumed.push(maker),
                    );
                }
            }
        }
    }
}

/// Resting an order with a positive quantity keeps the side well formed.
pub proof fn lemma_insert_order_wf(levels: Seq<LevelView>, is_bids: bool, o: Order, i: int)
    requires
        side_wf(levels, is_bids),
        o.quantity.val() > 0,
        is_insert_pos(levels, is_bids, o.price, i),
    ensures
        side_wf(insert_order(levels, is_bids, o), is_bids),
        i < levels.len() && levels[i].price.val() == o.price.val() ==> insert_order(
            levels,
            is_bids,
            o,
        ) == levels.update(
            i,
            LevelView { price: levels[i].price, orders: levels[i].orders.push(o) },
        ),
        !(i < levels.len() && levels[i].price.val() == o.price.val()) ==> insert_order(
            levels,
            is_bids,
            o,
        ) == levels.insert(i, LevelView { price: o.price, orders: seq![o] }),
{
    lemma_insert_pos_unique(levels, is_bids, o.price, i);
    if i < levels.len() && levels[i].price.val() == o.price.val() {
        assert forall|j: int| 0 <= j < i implies (#[trigger] levels[j].price).val() != o.price.val() by {
            assert(better(is_bids, levels[j].price, o.price));
        }
        assert(is_level_at(levels, o.price, i));
        lemma_level_at_unique(levels, o.price, i);
        let s = insert_order(levels, is_bids, o);
        assert(s == levels.update(
            i,
            LevelView { price: levels[i].price, orders: levels[i].orders.push(o) },
        ));
        assert forall|a: int, b: int| 0 <= a < b < s.len() implies #[trigger] better(
            is_bids,
            s[a].price,
            s[b].price,
        ) by {
            assert(s[a].price == levels[a].price);
            assert(s[b].price == levels[b].price);
            assert(better(is_bids, levels[a].price, levels[b].price));
        }
        assert forall|a: int| 0 <= a < s.len() implies #[trigger] s[a].orders.len() > 0 by {
            if a != i {
                assert(s[a] == levels[a]);
                assert(levels[a].orders.len() > 0);
            } else {
                assert(s[a].orders == levels[i].orders.push(o));
            }
        }
        assert forall|a: int, k: int| 0 <= a < s.len() && 0 <= k < s[a].orders.len() implies {
            &&& (#[trigger] s[a].orders[k]).price.val() == s[a].price.val()
            &&& s[a].orders[k].quantity.val() > 0
        } by {
            if a != i || k < levels[i].orders.len() {
                assert(s[a].orders[k] == levels[a].orders[k]);
            }
        }
    } else {
        assert forall|j: int| 0 <= j < levels.len() implies !is_level_at(levels, o.price, j) by {
            if j < i {
                assert(better(is_bids, levels[j].price, o.price));
            } else if j > i {
                assert(better(is_bids, levels[i].price, levels[j].price));
            }
        }
        let s = insert_order(levels, is_bids, o);
        assert(s == levels.insert(i, LevelView { price: o.price, orders: seq![o] }));
        assert forall|a: int, b: int| 0 <= a < b < s.len() implies #[trigger] better(
            is_bids,
            s[a].price,
            s[b].price,
        ) by {
            if a < i && b < i {
                assert(better(is_bids, levels[a].price, levels[b].price));
            } else if a < i && b == i {
                assert(better(is_bids, levels[a].price, o.price));
            } else if a < i && b > i {
                assert(better(is_bids, levels[a].price, levels[b - 1].price));
            } else if a == i {
                assert(better(is_bids, levels[i].price, levels[b - 1].price) || b - 1 == i);
            } else {
                assert(better(is_bids, levels[a - 1].price, levels[b - 1].price));
            }
        }
        assert forall|a: int| 0 <= a < s.len() implies #[trigger] s[a].orders.len() > 0 by {
            if a < i {
                assert(s[a] == levels[a]);
                assert(levels[a].orders.len() > 0);
            } else if a > i {
                assert(s[a] == levels[a - 1]);
                assert(levels[a - 1].orders.len() > 0);
            } else {
                assert(s[a].orders == seq![o]);
            }
        }
        assert forall|a: int, k: int| 0 <= a < s.len() && 0 <= k < s[a].orders.len() implies {
            &&& (#[trigger] s[a].orders[k]).price.val() == s[a].price.val()
            &&& s[a].orders[k].quantity.val() > 0
        } by {
            if a < i {
                assert(s[a] == levels[a]);
                assert(levels[a].orders[k] == s[a].orders[k]);
            } else if a > i {
                assert(s[a] == levels[a - 1]);
                assert(levels[a - 1].orders[k] == s[a].orders[k]);
            }
        }
    }
}

/// Rests `o` on a side: at the back of its price level, or on a new level.
fn rest_on_side(levels: &mut Vec<PriceLevel>, is_bids: bool, o: Order)
    requires
        side_wf(levels_view(old(levels)@), is_bids),
        o.quantity.val() > 0,
    ensures
        levels_view(final(levels)@) == insert_order(levels_view(old(levels)@), is_bids, o),
        side_wf(levels_view(final(levels)@), is_bids),
{
    let ghost lv = levels_view(levels@);
    let mut i: usize = 0;
    while i < levels.len()
        invariant
            lv == levels_view(levels@),
            i <= levels.len(),
            forall|j: int| 0 <= j < i ==> #[trigger] better(is_bids, lv[j].price, o.price),
        ensures
            i <= levels.len(),
            forall|j: int| 0 <= j < i ==> #[trigger] better(is_bids, lv[j].price, o.price),
            i < levels.len() ==> !better(is_bids, lv[i as int].price, o.price),
        decreases levels.len() - i,
    {
        let p = levels[i].price;
        assert(lv[i as int].price == p);
        let ahead = if is_bids {
            p.gt(&o.price)
        } else {
            p.lt(&o.price)
        };
        if !ahead {
            break;
        }
        i = i + 1;
    }
    assert(is_insert_pos(lv, is_bids, o.price, i as int));
    proof {
        lemma_insert_order_wf(lv, is_bids, o, i as int);
    }
    if i < levels.len() && levels[i].price.eq_value(&o.price) {
        assert(lv[i as int].price == levels@[i as int].price);
        let mut level = levels.remove(i);
        level.orders.push(o);
        levels.insert(i, level);
        assert(levels_view(levels@) =~= lv.update(
            i as int,
            LevelView { price: lv[i as int].price, orders: lv[i as int].orders.push(o) },
        ));
    } else {
        proof {
            if i < levels.len() {
                assert(lv[i as int].price == levels@[i as int].price);
            }
        }
        let mut orders: Vec<Order> = Vec::new();
        orders.push(o);
        levels.insert(i, PriceLevel { price: o.price, orders });
        assert(levels_view(levels@) =~= lv.insert(
            i as int,
            LevelView { price: o.price, orders: seq![o] },
        ));
    }
}


/// `k` is the first order in `orders` with id `id`.
pub open spec fn is_order_at(orders: Seq<Order>, id: u128, k: int) -> bool {
    &&& 0 <= k < orders.len()
    &&& orders[k].order_id == id
    &&& forall|j: int| 0 <= j < k ==> (#[trigger] orders[j]).order_id != id
}

/// The first order in `orders` with id `id`, or -1.
pub open spec fn order_index(orders: Seq<Order>, id: u128) -> int {
    if exists|k: int| is_order_at(orders, id, k) {
        choose|k: int| is_order_at(orders, id, k)
    } else {
        -1
    }
}

pub proof fn lemma_order_at_unique(orders: Seq<Order>, id: u128, k: int)
    requires
        is_order_at(orders, id, k),
    ensures
        order_index(orders, id) == k,
{
    let m = order_index(orders, id);
    assert(is_order_at(orders, id, m));
    if m < k {
        assert(orders[m].order_id != id);
    } else if m > k {
        assert(orders[k].order_id != id);
    }
}

/// The resting order with id `id` in the level at price `p`, if any.
pub open spec fn find_order(levels: Seq<LevelView>, p: Dec, id: u128) -> Option<Order> {
    let li = level_index(levels, p);
    if li >= 0 && order_index(levels[li].orders, id) >= 0 {
        Some(levels[li].orders[order_index(levels[li].orders, id)])
    } else {
        None
    }
}

/// The open order with id `id`: looked up at its indexed price among the
/// asks, then among the bids.
pub open spec fn lookup_open(book: BookView, id: u128) -> Option<Order> {
    if book.prices.contains_key(id) {
        let p = book.prices[id];
        match find_order(book.asks, p, id) {
            Some(o) => Some(o),
            None => find_order(book.bids, p, id),
        }
    } else {
        None
    }
}

/// The open orders with the given ids, in that order, skipping ids not found.
pub open spec fn collect_open(book: BookView, ids: Seq<u128>) -> Seq<Order>
    decreases ids.len(),
{
    if ids.len() == 0 {
        seq![]
    } else {
        let prev = collect_open(book, ids.drop_last());
        match lookup_open(book, ids.last()) {
            Some(o) => prev.push(o),
            None => prev,
        }
    }
}

/// The side without the `k`th order of level `li`; a level left empty goes.
pub open spec fn remove_order_at(levels: Seq<LevelView>, li: int, k: int) -> Seq<LevelView> {
    let orders = levels[li].orders.remove(k);
    if orders.len() == 0 {
        levels.remove(li)
    } else {
        levels.update(li, LevelView { price: levels[li].price, orders })
    }
}

/// The user index once order `id` of `o`'s user is cancelled: the id leaves
/// the user's set, and a set left empty goes.
pub open spec fn cancel_user(users: Map<u128, Set<u128>>, o: Order, id: u128) -> Map<u128, Set<u128>> {
    if users.contains_key(o.user_id) {
        let s = users[o.user_id].remove(id);
        if s.is_empty() {
            users.remove(o.user_id)
        } else {
            users.insert(o.user_id, s)
        }
    } else {
        users
    }
}

/// What cancelling order `id` does. An id without an indexed price changes
/// nothing. Otherwise the id leaves the price index, and the order is looked
/// for at that price among the asks, then among the bids; one that is found
/// leaves its level (and an emptied level leaves the side) and its user's set,
/// and is returned.
pub open spec fn cancel_spec(book: BookView, id: u128) -> (BookView, Option<Order>) {
    if !book.prices.contains_key(id) {
        (book, None)
    } else {
        let p = book.prices[id];
        let b0 = BookView { prices: book.prices.remove(id), ..book };
        let la = level_index(book.asks, p);
        let lb = level_index(book.bids, p);
        if la >= 0 && order_index(book.asks[la].orders, id) >= 0 {
            let k = order_index(book.asks[la].orders, id);
            let o = book.asks[la].orders[k];
            (
                BookView {
                    asks: remove_order_at(book.asks, la, k),
                    users: cancel_user(book.users, o, id),
                    ..b0
                },
                Some(o),
            )
        } else if lb >= 0 && order_index(book.bids[lb].orders, id) >= 0 {
            let k = order_index(book.bids[lb].orders, id);
            let o = book.bids[lb].orders[k];
            (
                BookView {
                    bids: remove_order_at(book.bids, lb, k),
                    users: cancel_user(book.users, o, id),
                    ..b0
                },
                Some(o),
            )
        } else {
            (b0, None)
        }
    }
}

/// The total quantity of the orders, summed from zero, oldest first; `None`
/// where a sum overflows.
pub open spec fn sum_quantities(orders: Seq<Order>) -> Option<Dec>
    decreases orders.len(),
{
    if orders.len() == 0 {
        Some(spec_zero())
    } else {
        match sum_quantities(orders.drop_last()) {
            Some(s) => dec_add(s, orders.last().quantity),
            None => None,
        }
    }
}

/// Each level as its price and its total quantity, best level first; `None`
/// where a total overflows.
pub open spec fn depth_of(levels: Seq<LevelView>) -> Option<Seq<(Dec, Dec)>> {
    if forall|i: int| 0 <= i < levels.len() ==> (#[trigger] sum_quantities(levels[i].orders)) is Some {
        Some(Seq::new(levels.len(), |i: int| (levels[i].price, sum_quantities(levels[i].orders)->0)))
    } else {
        None
    }
}

/// Walking one level's orders to fill a notional: each order adds its
/// notional (`price * quantity`, with the level's price for asks and the
/// order's own for bids) while it falls short of what remains; the order
/// that covers the rest adds the fraction `remaining / price` and ends the
/// walk with nothing remaining. Gives the remaining notional and the
/// quantity so far, or `None` on overflow.
pub open spec fn impact_level(
    orders: Seq<Order>,
    key: Dec,
    use_key: bool,
    remaining: Dec,
    total: Dec,
) -> Option<(Dec, Dec)>
    decreases orders.len(),
{
    if orders.len() == 0 {
        Some((remaining, total))
    } else {
        let o = orders[0];
        let price = if use_key {
            key
        } else {
            o.price
        };
        match dec_mul(price, o.quantity) {
            None => None,
            Some(ln) => if ln.val() >= remaining.val() {
                match dec_div(remaining, price) {
                    None => None,
                    Some(frac) => match dec_add(total, frac) {
                        None => None,
                        Some(t2) => Some((spec_zero(), t2)),
                    },
                }
            } else {
                match dec_add(total, o.quantity) {
                    None => None,
                    Some(t2) => match dec_sub(remaining, ln) {
                        None => None,
                        Some(r2) => impact_level(orders.drop_first(), key, use_key, r2, t2),
                    },
                }
            },
        }
    }
}

/// Walking the levels best first, stopping after a level that leaves nothing
/// remaining.
pub open spec fn impact_levels(levels: Seq<LevelView>, use_key: bool, remaining: Dec, total: Dec) -> Option<
    (Dec, Dec),
>
    decreases levels.len(),
{
    if levels.len() == 0 {
        Some((remaining, total))
    } else {
        match impact_level(levels[0].orders, levels[0].price, use_key, remaining, total) {
            None => None,
            Some((r, t)) => if r.val() == 0 {
                Some((r, t))
            } else {
                impact_levels(levels.drop_first(), use_key, r, t)
            },
        }
    }
}

/// The average price of filling `target` notional against the side: the
/// target over the quantity it takes, when the side covers the target with a
/// non-zero quantity; `Ok(None)` when it does not; `Err` on overflow.
pub open spec fn impact_price(levels: Seq<LevelView>, use_key: bool, target: Dec) -> Result<
    Option<Dec>,
    DecimalOverflow,
> {
    match impact_levels(levels, use_key, target, spec_zero()) {
        None => Err(DecimalOverflow),
        Some((r, t)) => if r.val() == 0 && t.val() != 0 {
            match dec_div(target, t) {
                None => Err(DecimalOverflow),
                Some(x) => Ok(Some(x)),
            }
        } else {
            Ok(None)
        },
    }
}

/// Walks the orders of `levels[li]` for `impact_level`.
fn walk_level(levels: &Vec<PriceLevel>, li: usize, use_key: bool, remaining: Dec, total: Dec) -> (r: Option<(Dec, Dec)>)
    requires
        li < levels.len(),
    ensures
        r == impact_level(levels@[li as int].orders@, levels@[li as int].price, use_key, remaining, total),
{
    let ghost os = levels@[li as int].orders@;
    let key = levels[li].price;
    let n = levels[li].orders.len();
    let mut k: usize = 0;
    let mut rem = remaining;
    let mut tot = total;
    assert(os.skip(0) =~= os);
    while k < n
        invariant
            os == levels@[li as int].orders@,
            key == levels@[li as int].price,
            n == os.len(),
            k <= n,
            li < levels.len(),
            impact_level(os.skip(k as int), key, use_key, rem, tot) == impact_level(os, key, use_key, remaining, total),
        decreases n - k,
    {
        let o = levels[li].orders[k];
        assert(os.skip(k as int)[0] == o);
        assert(os.skip(k as int).drop_first() =~= os.skip(k + 1));
        let price = if use_key {
            key
        } else {
            o.price
        };
        let ln = match price.mul(o.quantity) {
            Some(x) => x,
            None => {
                return None;
            },
        };
        if ln.ge(&rem) {
            let frac = match rem.div(price) {
                Some(x) => x,
                None => {
                    return None;
                },
            };
            let t2 = match tot.add(frac) {
                Some(x) => x,
                None => {
                    return None;
                },
            };
            return Some((Dec::zero(), t2));
        } else {
            let t2 = match tot.add(o.quantity) {
                Some(x) => x,
                None => {
                    return None;
                },
            };
            let r2 = match rem.sub(ln) {
                Some(x) => x,
                None => {
                    return None;
                },
            };
            tot = t2;
            rem = r2;
        }
        k = k + 1;
    }
    assert(os.skip(k as int).len() == 0);
    Some((rem, tot))
}

/// The average price of filling `target` against the side, for the two
/// impact prices.
fn impact_of(levels: &Vec<PriceLevel>, use_key: bool, target: Dec) -> (r: Result<Option<Dec>, DecimalOverflow>)
    ensures
        r == impact_price(levels_view(levels@), use_key, target),
{
    let ghost lv = levels_view(levels@);
    let mut remaining = target;
    let mut total = Dec::zero();
    let mut i: usize = 0;
    let n = levels.len();
    let ghost whole = impact_levels(lv, use_key, target, spec_zero());
    assert(lv.skip(0) =~= lv);
    while i < n
        invariant_except_break
            impact_levels(lv.skip(i as int), use_key, remaining, total) == whole,
        invariant
            lv == levels_view(levels@),
            n == levels.len(),
            i <= n,
            whole == impact_levels(lv, use_key, target, spec_zero()),
        ensures
            whole == Some((remaining, total)),
        decreases n - i,
    {
        assert(lv.skip(i as int)[0] == levels@[i as int]@);
        assert(lv.skip(i as int).drop_first() =~= lv.skip(i + 1));
        match walk_level(levels, i, use_key, remaining, total) {
            None => {
                return Err(DecimalOverflow);
            },
            Some((r, t)) => {
                remaining = r;
                total = t;
            },
        }
        if remaining.is_zero() {
            break;
        }
        i = i + 1;
    }
    if remaining.is_zero() && !total.is_zero() {
        match target.div(total) {
            Some(x) => Ok(Some(x)),
            None => Err(DecimalOverflow),
        }
    } else {
        Ok(None)
    }
}

pub proof fn lemma_sum_none_extends(orders: Seq<Order>, k: int)
    requires
        0 <= k <= orders.len(),
        sum_quantities(orders.take(k)) is None,
    ensures
        sum_quantities(orders) is None,
    decreases orders.len() - k,
{
    if k == orders.len() {
        assert(orders.take(k) =~= orders);
    } else {
        assert(orders.take(k + 1).drop_last() =~= orders.take(k));
        lemma_sum_none_extends(orders, k + 1);
    }
}

/// Totals the quantities of a level's orders, oldest first.
fn level_quantity(orders: &Vec<Order>) -> (r: Option<Dec>)
    ensures
        r == sum_quantities(orders@),
{
    let mut sum = Dec::zero();
    let mut k: usize = 0;
    while k < orders.len()
        invariant
            k <= orders.len(),
            sum_quantities(orders@.take(k as int)) == Some(sum),
        decreases orders.len() - k,
    {
        assert(orders@.take(k + 1).drop_last() =~= orders@.take(k as int));
        match sum.add(orders[k].quantity) {
            Some(x) => {
                sum = x;
            },
            None => {
                proof {
                    lemma_sum_none_extends(orders@, k + 1);
                }
                return None;
            },
        }
        k = k + 1;
    }
    assert(orders@.take(k as int) =~= orders@);
    Some(sum)
}

/// Lists each level as its price and total quantity.
fn side_depth(levels: &Vec<PriceLevel>) -> (r: Option<Vec<(Dec, Dec)>>)
    ensures
        match r {
            Some(v) => depth_of(levels_view(levels@)) == Some(v@),
            None => depth_of(levels_view(levels@)) is None,
        },
{
    let ghost lv = levels_view(levels@);
    let mut out: Vec<(Dec, Dec)> = Vec::new();
    let mut i: usize = 0;
    while i < levels.len()
        invariant
            lv == levels_view(levels@),
            i <= levels.len(),
            out@.len() == i,
            forall|j: int| 0 <= j < i ==> (#[trigger] sum_quantities(lv[j].orders)) is Some,
            forall|j: int| 0 <= j < i ==> out@[j] == (lv[j].price, sum_quantities(lv[j].orders)->0),
        decreases levels.len() - i,
    {
        assert(lv[i as int] == levels@[i as int]@);
        match level_quantity(&levels[i].orders) {
            Some(t) => {
                out.push((levels[i].price, t));
            },
            None => {
                assert(lv[i as int].orders == levels@[i as int].orders@);
                assert(sum_quantities(lv[i as int].orders) is None);
                return None;
            },
        }
        i = i + 1;
    }
    assert(out@ =~= Seq::new(lv.len(), |j: int| (lv[j].price, sum_quantities(lv[j].orders)->0)));
    Some(out)
}

/// Finds the first level whose price equals `p`.
fn find_level(levels: &Vec<PriceLevel>, p: Dec) -> (r: Option<usize>)
    ensures
        match r {
            Some(i) => level_index(levels_view(levels@), p) == i,
            None => level_index(levels_view(levels@), p) == -1,
        },
{
    let ghost lv = levels_view(levels@);
    let mut i: usize = 0;
    while i < levels.len()
        invariant
            lv == levels_view(levels@),
            i <= levels.len(),
            forall|j: int| 0 <= j < i ==> (#[trigger] lv[j].price).val() != p.val(),
        decreases levels.len() - i,
    {
        assert(lv[i as int].price == levels@[i as int].price);
        if levels[i].price.eq_value(&p) {
            assert(is_level_at(lv, p, i as int));
            proof {
                lemma_level_at_unique(lv, p, i as int);
            }
            return Some(i);
        }
        i = i + 1;
    }
    assert(!exists|j: int| is_level_at(lv, p, j));
    None
}

/// Finds the first order with id `id`.
fn find_in_level(orders: &Vec<Order>, id: u128) -> (r: Option<usize>)
    ensures
        match r {
            Some(k) => order_index(orders@, id) == k,
            None => order_index(orders@, id) == -1,
        },
{
    let mut k: usize = 0;
    while k < orders.len()
        invariant
            k <= orders.len(),
            forall|j: int| 0 <= j < k ==> (#[trigger] orders@[j]).order_id != id,
        decreases orders.len() - k,
    {
        if orders[k].order_id == id {
            assert(is_order_at(orders@, id, k as int));
            proof {
                lemma_order_at_unique(orders@, id, k as int);
            }
            return Some(k);
        }
        k = k + 1;
    }
    assert(!exists|j: int| is_order_at(orders@, id, j));
    None
}

/// The order with id `id` in the level at price `p`, if any.
fn find_resting(levels: &Vec<PriceLevel>, p: Dec, id: u128) -> (r: Option<Order>)
    ensures
        r == find_order(levels_view(levels@), p, id),
{
    match find_level(levels, p) {
        Some(li) => {
            assert(levels_view(levels@)[li as int] == levels@[li as int]@);
            match find_in_level(&levels[li].orders, id) {
                Some(k) => Some(levels[li].orders[k]),
                None => None,
            }
        },
        None => None,
    }
}


/// Removing one resting order keeps the side well formed.
pub proof fn lemma_remove_order_wf(levels: Seq<LevelView>, is_bids: bool, li: int, k: int)
    requires
        side_wf(levels, is_bids),
        0 <= li < levels.len(),
        0 <= k < levels[li].orders.len(),
    ensures
        side_wf(remove_order_at(levels, li, k), is_bids),
{
    let orders = levels[li].orders.remove(k);
    let s = remove_order_at(levels, li, k);
    if orders.len() == 0 {
        assert(s == levels.remove(li));
        assert forall|a: int, b: int| 0 <= a < b < s.len() implies #[trigger] better(
            is_bids,
            s[a].price,
            s[b].price,
        ) by {
            let a0 = if a < li { a } else { a + 1 };
            let b0 = if b < li { b } else { b + 1 };
            assert(s[a] == levels[a0]);
            assert(s[b] == levels[b0]);
            assert(better(is_bids, levels[a0].price, levels[b0].price));
        }
        assert forall|a: int| 0 <= a < s.len() implies #[trigger] s[a].orders.len() > 0 by {
            let a0 = if a < li { a } else { a + 1 };
            assert(s[a] == levels[a0]);
            assert(levels[a0].orders.len() > 0);
        }
        assert forall|a: int, m: int| 0 <= a < s.len() && 0 <= m < s[a].orders.len() implies {
            &&& (#[trigger] s[a].orders[m]).price.val() == s[a].price.val()
            &&& s[a].orders[m].quantity.val() > 0
        } by {
            let a0 = if a < li { a } else { a + 1 };
            assert(s[a] == levels[a0]);
            assert(levels[a0].orders[m] == s[a].orders[m]);
        }
    } else {
        let x = LevelView { price: levels[li].price, orders };
        assert(s == levels.update(li, x));
        assert forall|a: int, b: int| 0 <= a < b < s.len() implies #[trigger] better(
            is_bids,
            s[a].price,
            s[b].price,
        ) by {
            assert(s[a].price == levels[a].price);
            assert(s[b].price == levels[b].price);
            assert(better(is_bids, levels[a].price, levels[b].price));
        }
        assert forall|a: int| 0 <= a < s.len() implies #[trigger] s[a].orders.len() > 0 by {
            if a != li {
                assert(s[a] == levels[a]);
                assert(levels[a].orders.len() > 0);
            }
        }
        assert forall|a: int, m: int| 0 <= a < s.len() && 0 <= m < s[a].orders.len() implies {
            &&& (#[trigger] s[a].orders[m]).price.val() == s[a].price.val()
            &&& s[a].orders[m].quantity.val() > 0
        } by {
            if a != li {
                assert(s[a] == levels[a]);
                assert(levels[a].orders[m] == s[a].orders[m]);
            } else {
                let m0 = if m < k { m } else { m + 1 };
                assert(s[a].orders[m] == levels[li].orders[m0]);
            }
        }
    }
}

/// Removes order `id` from the level at price `p`, if it is there; a level
/// left empty goes.
fn take_resting(levels: &mut Vec<PriceLevel>, p: Dec, id: u128) -> (r: Option<Order>)
    ensures
        ({
            let lv = levels_view(old(levels)@);
            let li = level_index(lv, p);
            if li >= 0 && order_index(lv[li].orders, id) >= 0 {
                let k = order_index(lv[li].orders, id);
                &&& r == Some(lv[li].orders[k])
                &&& levels_view(final(levels)@) == remove_order_at(lv, li, k)
            } else {
                &&& r is None
                &&& final(levels)@ == old(levels)@
            }
        }),
{
    let ghost lv = levels_view(levels@);
    match find_level(levels, p) {
        Some(li) => {
            assert(lv[li as int] == levels@[li as int]@);
            match find_in_level(&levels[li].orders, id) {
                Some(k) => {
                    let mut level = levels.remove(li);
                    let o = level.orders.remove(k);
                    if level.orders.len() == 0 {
                        assert(levels_view(levels@) =~= lv.remove(li as int));
                    } else {
                        let ghost orders2 = level.orders@;
                        levels.insert(li, level);
                        assert(levels_view(levels@) =~= lv.update(
                            li as int,
                            LevelView { price: lv[li as int].price, orders: orders2 },
                        ));
                    }
                    Some(o)
                },
                None => None,
            }
        },
        None => None,
    }
}

impl OrderPayload {
    /// A payload for a new order with a fresh random id, stamped with the
    /// current time in milliseconds.
    pub fn new(
        user_id: u128,
        market: Market,
        price: Dec,
        quantity: Dec,
        order_side: OrderSide,
        order_type: OrderType,
    ) -> (r: OrderPayload)
        ensures
            r.market == market,
            r.order.user_id == user_id,
            r.order.price == price,
            r.order.quantity == quantity,
            r.order_side == order_side,
            r.order_type == order_type,
            (r.order.order_id >> 76u128) & 0xfu128 == 4,
    {
        let order_id = new_v4_id();
        let timestamp = now_millis();
        OrderPayload::assemble(user_id, order_id, market, price, quantity, order_side, order_type, timestamp)
    }

    /// A payload from its parts.
    pub fn assemble(
        user_id: u128,
        order_id: u128,
        market: Market,
        price: Dec,
        quantity: Dec,
        order_side: OrderSide,
        order_type: OrderType,
        timestamp: i64,
    ) -> (r: OrderPayload)
        ensures
            r == (OrderPayload {
                market,
                order: Order { user_id, order_id, price, quantity },
                order_side,
                order_type,
                timestamp,
            }),
    {
        OrderPayload {
            market,
            order: Order { user_id, order_id, price, quantity },
            order_side,
            order_type,
            timestamp,
        }
    }
}

impl Orderbook {
    /// Matches `taker` against one side (taken out of the book by the caller),
    /// from the executed quantity and fills in `result`. Returns `false` where
    /// decimal arithmetic overflowed.
    fn match_side(
        &mut self,
        levels: &mut Vec<PriceLevel>,
        is_bids: bool,
        taker: &mut Order,
        result: &mut ProcessOrderResult,
    ) -> (ok: bool)
        ensures
            ({
                let run = run_match(
                    levels_view(old(levels)@),
                    is_bids,
                    old(self).market,
                    *old(taker),
                    old(result).executed_quantity,
                    old(result).fills@,
                    seq![],
                );
                &&& levels_view(final(levels)@) == run.levels
                &&& *final(taker) == run.taker
                &&& final(result).executed_quantity == run.executed
                &&& final(result).fills@ == run.fills
                &&& ok == !run.overflow
                &&& final(self).order_price_map@ == drop_filled_prices(
                    old(self).order_price_map@,
                    run.consumed,
                )
                &&& user_sets(final(self).user_orders_map@) == drop_filled_users(
                    user_sets(old(self).user_orders_map@),
                    run.consumed,
                )
                &&& final(self).bids@ == old(self).bids@
                &&& final(self).asks@ == old(self).asks@
                &&& final(self).market == old(self).market
            }),
    {
        let market = self.market;
        let ghost run0 = run_match(
            levels_view(levels@),
            is_bids,
            market,
            *taker,
            result.executed_quantity,
            result.fills@,
            seq![],
        );
        let ghost prices0 = self.order_price_map@;
        let ghost users0 = user_sets(self.user_orders_map@);
        let ghost mut consumed: Seq<Order> = seq![];
        let zero = Dec::zero();
        loop
            invariant
                run_match(
                    levels_view(levels@),
                    is_bids,
                    market,
                    *taker,
                    result.executed_quantity,
                    result.fills@,
                    consumed,
                ) == run0,
                self.order_price_map@ == drop_filled_prices(prices0, consumed),
                user_sets(self.user_orders_map@) == drop_filled_users(users0, consumed),
                self.bids@ == old(self).bids@,
                self.asks@ == old(self).asks@,
                self.market == market,
                zero.val() == 0,
                prices0 == old(self).order_price_map@,
                users0 == user_sets(old(self).user_orders_map@),
                market == old(self).market,
                run0 == run_match(
                    levels_view(old(levels)@),
                    is_bids,
                    old(self).market,
                    *old(taker),
                    old(result).executed_quantity,
                    old(result).fills@,
                    seq![],
                ),
            ensures
                run0 == (MatchRun {
                    levels: levels_view(levels@),
                    taker: *taker,
                    executed: result.executed_quantity,
                    fills: result.fills@,
                    consumed,
                    overflow: false,
                }),
                self.order_price_map@ == drop_filled_prices(prices0, consumed),
                user_sets(self.user_orders_map@) == drop_filled_users(users0, consumed),
                self.bids@ == old(self).bids@,
                self.asks@ == old(self).asks@,
                self.market == market,
            decreases total_orders(levels_view(levels@)), levels.len(),
        {
            let ghost lv = levels_view(levels@);
            assert(lv.len() == levels@.len());
            if !taker.quantity.gt(&zero) || levels.len() == 0 {
                assert(taker.quantity.val() <= 0 || lv.len() == 0);
                assert(run_match(lv, is_bids, market, *taker, result.executed_quantity, result.fills@, consumed)
                    == MatchRun { levels: lv, taker: *taker, executed: result.executed_quantity, fills: result.fills@, consumed, overflow: false });
                break;
            }
            assert(lv[0] == levels@[0]@);
            assert(lv[0].orders.len() == levels@[0].orders@.len());
            let best = levels[0].price;
            let blocked = if is_bids {
                taker.price.gt(&best)
            } else {
                taker.price.lt(&best)
            };
            if blocked && !taker.price.is_zero() {
                break;
            }
            assert(crosses(is_bids, taker.price, lv[0].price));
            if levels[0].orders.len() == 0 {
                let _ = levels.remove(0);
                assert(levels_view(levels@) =~= lv.drop_first());
                continue;
            }
            let maker = levels[0].orders[0];
            assert(lv[0].orders[0] == maker);
            let q = taker.quantity.min(maker.quantity);
            proof {
                let ghost tq0 = dec_sub(taker.quantity, q);
                let ghost mq0 = dec_sub(maker.quantity, q);
                let ghost ex0 = dec_add(result.executed_quantity, q);
                if tq0 is None || mq0 is None || ex0 is None {
                    assert(run_match(lv, is_bids, market, *taker, result.executed_quantity, result.fills@, consumed)
                        == MatchRun { levels: lv, taker: *taker, executed: result.executed_quantity, fills: result.fills@, consumed, overflow: true });
                }
            }
            let tq = match taker.quantity.sub(q) {
                Some(x) => x,
                None => {
                    return false;
                },
            };
            let mq = match maker.quantity.sub(q) {
                Some(x) => x,
                None => {
                    return false;
                },
            };
            let ex = match result.executed_quantity.add(q) {
                Some(x) => x,
                None => {
                    return false;
                },
            };
            let fill = Fill {
                price: best,
                quantity: q,
                taker_user_id: taker.user_id,
                taker_order_id: taker.order_id,
                maker_user_id: maker.user_id,
                maker_order_id: maker.order_id,
                market,
            };
            taker.quantity = tq;
            result.executed_quantity = ex;
            result.fills.push(fill);
            let mut level = levels.remove(0);
            let ghost rest_levels = levels_view(levels@);
            assert(rest_levels =~= lv.drop_first());
            if mq.gt(&zero) {
                let maker2 = Order { quantity: mq, ..maker };
                level.orders.set(0, maker2);
                levels.insert(0, level);
                assert(levels_view(levels@) =~= seq![
                    LevelView { price: lv[0].price, orders: lv[0].orders.update(0, maker2) },
                ] + lv.drop_first());
                break;
            }
            let _ = level.orders.remove(0);
            if level.orders.len() > 0 {
                levels.insert(0, level);
                assert(levels_view(levels@) =~= seq![
                    LevelView { price: lv[0].price, orders: lv[0].orders.drop_first() },
                ] + lv.drop_first());
            }
            proof {
                lemma_total_orders_cons(
                    LevelView { price: lv[0].price, orders: lv[0].orders.drop_first() },
                    lv.drop_first(),
                );
                lemma_total_orders_cons(lv[0], lv.drop_first());
                assert(lv =~= seq![lv[0]] + lv.drop_first());
            }
            let _ = self.order_price_map.remove(&maker.order_id);
            match self.user_orders_map.remove(&maker.user_id) {
                Some(mut set) => {
                    let _ = set.remove(&maker.order_id);
                    self.user_orders_map.insert(maker.user_id, set);
                },
                None => {},
            }
            proof {
                let c2 = consumed.push(maker);
                assert(c2.drop_last() =~= consumed);
                assert(user_sets(self.user_orders_map@) =~= drop_user_order(
                    drop_filled_users(users0, consumed),
                    maker,
                ));
                consumed = c2;
            }
        }
        true
    }



    /// An empty book for the market.
    pub fn new(market: Market) -> (r: Orderbook)
        ensures
            r@.bids == Seq::<LevelView>::empty(),
            r@.asks == Seq::<LevelView>::empty(),
            r@.prices == Map::<u128, Dec>::empty(),
            r@.users == Map::<u128, Set<u128>>::empty(),
            r@.market == market,
            r@.wf(),
    {
        let r = Orderbook {
            bids: Vec::new(),
            asks: Vec::new(),
            order_price_map: HashMap::new(),
            user_orders_map: HashMap::new(),
            market,
        };
        assert(r@.bids =~= Seq::<LevelView>::empty());
        assert(r@.asks =~= Seq::<LevelView>::empty());
        assert(r@.users =~= Map::<u128, Set<u128>>::empty());
        r
    }

    /// The bids, highest price first.
    pub fn get_bids(&self) -> (r: &Vec<PriceLevel>)
        ensures
            levels_view(r@) == self@.bids,
    {
        &self.bids
    }

    /// The asks, lowest price first.
    pub fn get_asks(&self) -> (r: &Vec<PriceLevel>)
        ensures
            levels_view(r@) == self@.asks,
    {
        &self.asks
    }

    /// The highest bid price, if any.
    pub fn peek_best_bid(&self) -> (r: Option<Dec>)
        ensures
            r == (if self@.bids.len() > 0 {
                Some(self@.bids[0].price)
            } else {
                None::<Dec>
            }),
    {
        if self.bids.len() > 0 {
            Some(self.bids[0].price)
        } else {
            None
        }
    }

    /// The lowest ask price, if any.
    pub fn peek_best_ask(&self) -> (r: Option<Dec>)
        ensures
            r == (if self@.asks.len() > 0 {
                Some(self@.asks[0].price)
            } else {
                None::<Dec>
            }),
    {
        if self.asks.len() > 0 {
            Some(self.asks[0].price)
        } else {
            None
        }
    }

    /// The average price at which a sell of `target_notional` would fill
    /// against the bids, each order valued at its own price.
    pub fn calculate_bid_impact(&self, target_notional: Dec) -> (r: Result<Option<Dec>, DecimalOverflow>)
        ensures
            r == impact_price(self@.bids, false, target_notional),
    {
        impact_of(&self.bids, false, target_notional)
    }

    /// The average price at which a buy of `target_notional` would fill
    /// against the asks, each order valued at its level's price.
    pub fn calculate_ask_impact(&self, target_notional: Dec) -> (r: Result<Option<Dec>, DecimalOverflow>)
        ensures
            r == impact_price(self@.asks, true, target_notional),
    {
        impact_of(&self.asks, true, target_notional)
    }

    /// Both sides level by level: price and total resting quantity, best
    /// first; `None` where a total overflows.
    pub fn get_depth(&self) -> (r: Option<OrderBookDepth>)
        ensures
            match r {
                Some(d) => depth_of(self@.bids) == Some(d.bids@) && depth_of(self@.asks) == Some(
                    d.asks@,
                ),
                None => depth_of(self@.bids) is None || depth_of(self@.asks) is None,
            },
    {
        let bids = match side_depth(&self.bids) {
            Some(v) => v,
            None => {
                return None;
            },
        };
        let asks = match side_depth(&self.asks) {
            Some(v) => v,
            None => {
                return None;
            },
        };
        Some(OrderBookDepth { bids, asks })
    }

    /// The open orders of a user, looked up through the user's order ids (in
    /// the order in which the id set yields them).
    pub fn get_open_orders_for_user(&self, user_id: u128) -> (r: Vec<Order>)
        ensures
            self@.users.contains_key(user_id) ==> exists|ids: Seq<u128>|
                {
                    &&& ids.no_duplicates()
                    &&& ids.to_set() == self@.users[user_id]
                    &&& r@ == collect_open(self@, ids)
                },
            !self@.users.contains_key(user_id) ==> r@ == Seq::<Order>::empty(),
    {
        let mut user_orders: Vec<Order> = Vec::new();
        match self.user_orders_map.get(&user_id) {
            Some(order_ids) => {
                let ghost book = self@;
                assert(book.users[user_id] == order_ids@);
                let ghost ids = spec_hash_keys_iter(order_ids).remaining().unref();
                let ghost mut done_ids: Seq<u128> = seq![];
                for id in it: order_ids.iter()
                    invariant
                        book == self@,
                        ids == it.seq().unref(),
                        done_ids == ids.take(it.index()),
                        user_orders@ == collect_open(book, done_ids),
                {
                    let ghost done = it.seq().unref().take(it.index());
                    let ghost next = it.seq().unref().take(it.index() + 1);
                    assert(next.drop_last() =~= done);
                    assert(next.last() == *id);
                    let found = match self.order_price_map.get(id) {
                        Some(price) => {
                            let p = *price;
                            match find_resting(&self.asks, p, *id) {
                                Some(o) => Some(o),
                                None => find_resting(&self.bids, p, *id),
                            }
                        },
                        None => None,
                    };
                    assert(found == lookup_open(book, *id));
                    match found {
                        Some(o) => {
                            user_orders.push(o);
                        },
                        None => {},
                    }
                    proof {
                        assert(done_ids.push(*id).drop_last() =~= done_ids);
                        done_ids = done_ids.push(*id);
                    }
                }
                proof {
                    assert(done_ids =~= ids);
                    assert(ids.to_set() == order_ids@);
                    assert(ids.no_duplicates());
                }
                user_orders
            },
            None => {
                assert(user_orders@ =~= Seq::<Order>::empty());
                user_orders
            },
        }
    }


    /// Cancels a resting order: see `cancel_spec`. Returns the cancelled
    /// order, or `None` when it is not found.
    pub fn cancel_order(&mut self, order_id: u128) -> (r: Result<Option<Order>, String>)
        requires
            old(self)@.wf(),
        ensures
            final(self)@ == cancel_spec(old(self)@, order_id).0,
            r == Ok::<Option<Order>, String>(cancel_spec(old(self)@, order_id).1),
            final(self)@.wf(),
    {
        let ghost b = self@;
        let price_val = match self.order_price_map.remove(&order_id) {
            Some(p) => p,
            None => {
                assert(self.order_price_map@ =~= b.prices);
                return Ok(None);
            },
        };
        assert(self.order_price_map@ == b.prices.remove(order_id));
        let ghost la = level_index(b.asks, price_val);
        let ghost lb = level_index(b.bids, price_val);
        let mut asks: Vec<PriceLevel> = Vec::new();
        std::mem::swap(&mut asks, &mut self.asks);
        let from_asks = take_resting(&mut asks, price_val, order_id);
        self.asks = asks;
        let removed = match from_asks {
            Some(o) => {
                proof {
                    lemma_remove_order_wf(b.asks, false, la, order_index(b.asks[la].orders, order_id));
                }
                Some(o)
            },
            None => {
                let mut bids: Vec<PriceLevel> = Vec::new();
                std::mem::swap(&mut bids, &mut self.bids);
                let from_bids = take_resting(&mut bids, price_val, order_id);
                self.bids = bids;
                proof {
                    if from_bids is Some {
                        lemma_remove_order_wf(b.bids, true, lb, order_index(b.bids[lb].orders, order_id));
                    }
                }
                from_bids
            },
        };
        match removed {
            Some(order) => {
                let ghost users0 = user_sets(self.user_orders_map@);
                match self.user_orders_map.remove(&order.user_id) {
                    Some(mut set) => {
                        let _ = set.remove(&order_id);
                        if !set.is_empty() {
                            self.user_orders_map.insert(order.user_id, set);
                            assert(user_sets(self.user_orders_map@) =~= users0.insert(
                                order.user_id,
                                users0[order.user_id].remove(order_id),
                            ));
                        } else {
                            assert(user_sets(self.user_orders_map@) =~= users0.remove(order.user_id));
                        }
                    },
                    None => {
                        assert(user_sets(self.user_orders_map@) =~= users0);
                    },
                }
                proof {
                    let spec = cancel_spec(b, order_id);
                    assert(users0 == b.users);
                    assert(user_sets(self.user_orders_map@) == cancel_user(b.users, order, order_id));
                    assert(self@.users == spec.0.users);
                    assert(self@.asks == spec.0.asks);
                    assert(self@.bids == spec.0.bids);
                    assert(self@.prices == spec.0.prices);
                    assert(self@ =~= spec.0);
                }
                Ok(Some(order))
            },
            None => {
                assert(self@ =~= cancel_spec(b, order_id).0);
                Ok(None)
            },
        }
    }

    /// Rests `o` on the side `is_bids` and enters it in both indexes.
    fn rest_order(&mut self, is_bids: bool, o: Order)
        requires
            old(self)@.wf(),
            o.quantity.val() > 0,
        ensures
            final(self)@ == old(self)@.rest(is_bids, o),
            final(self)@.wf(),
    {
        let ghost users0 = user_sets(self.user_orders_map@);
        self.order_price_map.insert(o.order_id, o.price);
        let mut set = match self.user_orders_map.remove(&o.user_id) {
            Some(s) => s,
            None => HashSet::new(),
        };
        set.insert(o.order_id);
        self.user_orders_map.insert(o.user_id, set);
        proof {
            let old_set = if users0.contains_key(o.user_id) {
                users0[o.user_id]
            } else {
                Set::empty()
            };
            assert(set@ == old_set.insert(o.order_id));
            assert(user_sets(self.user_orders_map@) =~= users0.insert(
                o.user_id,
                old_set.insert(o.order_id),
            ));
        }
        let mut levels: Vec<PriceLevel> = Vec::new();
        if is_bids {
            std::mem::swap(&mut levels, &mut self.bids);
            rest_on_side(&mut levels, true, o);
            self.bids = levels;
        } else {
            std::mem::swap(&mut levels, &mut self.asks);
            rest_on_side(&mut levels, false, o);
            self.asks = levels;
        }
    }

    /// Processes an incoming order: a buy trades against the asks and a sell
    /// against the bids, best price first and oldest order first; what is
    /// left of a limit order then rests in the book. A market order never
    /// rests. `Err` reports a decimal overflow.
    pub fn process_order(
        &mut self,
        payload: Order,
        side: OrderSide,
        order_type: OrderType,
    ) -> (r: Result<ProcessOrderResult, String>)
        requires
            old(self)@.wf(),
        ensures
            ({
                let (b, out) = process_spec(old(self)@, payload, side, order_type);
                &&& final(self)@ == b
                &&& match r {
                    Ok(res) => out == Some((res.fills@, res.executed_quantity)),
                    Err(_) => out is None,
                }
            }),
            final(self)@.wf(),
    {
        let mut result = ProcessOrderResult { fills: Vec::new(), executed_quantity: Dec::zero() };
        let mut taker_order = payload;
        let zero = Dec::zero();
        let is_buy = match side {
            OrderSide::BUY => true,
            OrderSide::SELL => false,
        };
        proof {
            let run = old(self)@.run(!is_buy, payload);
            lemma_run_match_wf(
                old(self)@.side(!is_buy),
                !is_buy,
                old(self).market,
                payload,
                spec_zero(),
                seq![],
                seq![],
            );
            assert(result.fills@ =~= Seq::<Fill>::empty());
        }
        let matched = if is_buy {
            self.match_against_asks(&mut taker_order, &mut result)
        } else {
            self.match_against_bids(&mut taker_order, &mut result)
        };
        match matched {
            Ok(()) => {},
            Err(e) => {
                return Err(e);
            },
        }
        let is_limit = match order_type {
            OrderType::LIMIT => true,
            OrderType::MARKET => false,
        };
        if is_limit && taker_order.quantity.gt(&zero) {
            self.rest_order(is_buy, taker_order);
        }
        Ok(result)
    }

    /// Matches an incoming buy against the asks, lowest price first.
    pub fn match_against_asks(&mut self, taker_order: &mut Order, result: &mut ProcessOrderResult) -> (r: Result<(), String>)
        ensures
            ({
                let run = run_match(
                    old(self)@.asks,
                    false,
                    old(self).market,
                    *old(taker_order),
                    old(result).executed_quantity,
                    old(result).fills@,
                    seq![],
                );
                &&& final(self)@ == (BookView {
                    prices: drop_filled_prices(old(self)@.prices, run.consumed),
                    users: drop_filled_users(old(self)@.users, run.consumed),
                    asks: run.levels,
                    ..old(self)@
                })
                &&& *final(taker_order) == run.taker
                &&& final(result).executed_quantity == run.executed
                &&& final(result).fills@ == run.fills
                &&& r is Ok <==> !run.overflow
            }),
    {
        let mut levels: Vec<PriceLevel> = Vec::new();
        std::mem::swap(&mut levels, &mut self.asks);
        let ok = self.match_side(&mut levels, false, taker_order, result);
        self.asks = levels;
        if ok {
            Ok(())
        } else {
            Err(String::from_str("decimal overflow while matching"))
        }
    }

    /// Matches an incoming sell against the bids, highest price first.
    pub fn match_against_bids(&mut self, taker_order: &mut Order, result: &mut ProcessOrderResult) -> (r: Result<(), String>)
        ensures
            ({
                let run = run_match(
                    old(self)@.bids,
                    true,
                    old(self).market,
                    *old(taker_order),
                    old(result).executed_quantity,
                    old(result).fills@,
                    seq![],
                );
                &&& final(self)@ == (BookView {
                    prices: drop_filled_prices(old(self)@.prices, run.consumed),
                    users: drop_filled_users(old(self)@.users, run.consumed),
                    bids: run.levels,
                    ..old(self)@
                })
                &&& *final(taker_order) == run.taker
                &&& final(result).executed_quantity == run.executed
                &&& final(result).fills@ == run.fills
                &&& r is Ok <==> !run.overflow
            }),
    {
        let mut levels: Vec<PriceLevel> = Vec::new();
        std::mem::swap(&mut levels, &mut self.bids);
        let ok = self.match_side(&mut levels, true, taker_order, result);
        self.bids = levels;
        if ok {
            Ok(())
        } else {
            Err(String::from_str("decimal overflow while matching"))
        }
    }
}

} // verus!

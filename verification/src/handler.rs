//! The engine's handling of one request from its ingestion stream: the new
//! state, and the messages to send.
use crate::decimal::{Dec, DecimalOverflow, dec_mul, spec_zero};
use crate::engine::{
    EngineView,
    ExecuteEngine,
    isolate_margin,
    isolated_margin,
    lock,
    lock_balance,
    unlock,
    unlock_balance,
    settle_all,
};
use crate::orderbook::{BookView, cancel_spec, collect_open, depth_of, process_spec};
use crate::types::{
    CancelOrderArgs,
    CreateOrderArgs,
    Fill,
    FundingTelemetry,
    LiquidationNotice,
    MarkPriceTelemetry,
    Market,
    Order,
    OrderBookDepth,
    OrderRequests,
    OrderType,
    ProcessOrderResult,
    UserBalance,
    market_index,
};
use crate::valuation::{mark_all, marks_announce, sample_all};
use vstd::prelude::*;
use vstd::std_specs::hash::group_hash_axioms;

verus! {

broadcast use group_hash_axioms;

/// A message the engine asks its caller to send.
#[derive(Clone, Debug)]
pub enum EngineEffect {
    /// An execution, for the persistence stream.
    PersistExecution(ProcessOrderResult),
    /// A book's depth, for the market's `depth` feed.
    PublishDepth { market: Market, depth: OrderBookDepth },
    /// A fill, for a user's update channel.
    PublishFill { user_id: u128, fill: Fill },
    /// A user's open orders, for the user's update channel.
    PublishOpenOrders { user_id: u128, orders: Vec<Order> },
    /// A mark price, for the market's `mark_price` feed.
    PublishMarkPrice(MarkPriceTelemetry),
    /// Funding figures, for the market's `funding` feed.
    PublishFunding(FundingTelemetry),
    /// A wiped position, for the market's `liquidations` feed.
    PublishLiquidation(LiquidationNotice),
    /// Display the market's book.
    ShowBook(Market),
}

pub ghost enum EffectView {
    PersistExecution(Seq<Fill>, Dec),
    PublishDepth(Market, Seq<(Dec, Dec)>, Seq<(Dec, Dec)>),
    PublishFill(u128, Fill),
    PublishOpenOrders(u128, Seq<Order>),
    PublishMarkPrice(MarkPriceTelemetry),
    PublishFunding(FundingTelemetry),
    PublishLiquidation(LiquidationNotice),
    ShowBook(Market),
}

impl View for EngineEffect {
    type V = EffectView;

    open spec fn view(&self) -> EffectView {
        match self {
            EngineEffect::PersistExecution(r) => EffectView::PersistExecution(
                r.fills@,
                r.executed_quantity,
            ),
            EngineEffect::PublishDepth { market, depth } => EffectView::PublishDepth(
                *market,
                depth.bids@,
                depth.asks@,
            ),
            EngineEffect::PublishFill { user_id, fill } => EffectView::PublishFill(*user_id, *fill),
            EngineEffect::PublishOpenOrders { user_id, orders } => EffectView::PublishOpenOrders(
                *user_id,
                orders@,
            ),
            EngineEffect::PublishMarkPrice(t) => EffectView::PublishMarkPrice(*t),
            EngineEffect::PublishFunding(t) => EffectView::PublishFunding(*t),
            EngineEffect::PublishLiquidation(n) => EffectView::PublishLiquidation(*n),
            EngineEffect::ShowBook(m) => EffectView::ShowBook(*m),
        }
    }
}

pub open spec fn effects_view(v: Seq<EngineEffect>) -> Seq<EffectView> {
    v.map_values(|e: EngineEffect| e@)
}

/// One liquidation message per notice, in order.
pub open spec fn liquidation_effects(l: Seq<LiquidationNotice>) -> Seq<EffectView> {
    l.map_values(|n: LiquidationNotice| EffectView::PublishLiquidation(n))
}

/// The messages of a mark tick: market by market, its liquidations, then its
/// mark price.
pub open spec fn mark_tick_effects(
    t: Seq<MarkPriceTelemetry>,
    l1: Seq<LiquidationNotice>,
    l2: Seq<LiquidationNotice>,
    l3: Seq<LiquidationNotice>,
) -> Seq<EffectView> {
    liquidation_effects(l1).push(EffectView::PublishMarkPrice(t[0])) + liquidation_effects(l2).push(
        EffectView::PublishMarkPrice(t[1]),
    ) + liquidation_effects(l3).push(EffectView::PublishMarkPrice(t[2]))
}

/// Each fill goes to its taker, then to its maker.
pub open spec fn fill_notices(fills: Seq<Fill>) -> Seq<EffectView>
    decreases fills.len(),
{
    if fills.len() == 0 {
        seq![]
    } else {
        fill_notices(fills.drop_last()) + seq![
            EffectView::PublishFill(fills.last().taker_user_id, fills.last()),
            EffectView::PublishFill(fills.last().maker_user_id, fills.last()),
        ]
    }
}

pub open spec fn empty_balance() -> UserBalance {
    UserBalance { available_balance: spec_zero(), locked_balance: spec_zero() }
}

/// The engine with market `m`'s book replaced.
pub open spec fn with_book(s: EngineView, m: Market, b: BookView) -> EngineView {
    EngineView { books: s.books.update(market_index(m) as int, b), ..s }
}

/// The engine once a limit order of notional `l` is accepted: for a
/// positive leverage and quantity, the user's position in the market is put
/// on isolated margin for the order (see `isolated_margin`); other orders
/// leave positions alone. `None` on overflow.
pub open spec fn with_margin(s: EngineView, req: CreateOrderArgs, l: Dec) -> Option<EngineView> {
    if req.leverage.val() > 0 && req.quantity.val() > 0 {
        match isolated_margin(
            s.position(req.user_id, req.market),
            req.side,
            req.price,
            req.quantity,
            req.leverage,
            l,
        ) {
            None => None,
            Some(p) => Some(s.with_position(req.user_id, req.market, p)),
        }
    } else {
        Some(s)
    }
}

/// Accepting a new order. A limit order first needs its notional
/// (`price * quantity`) available: the user gets an empty wallet if they have
/// none, and with too little available the order is refused with nothing
/// sent; otherwise the notional is locked and the position put on isolated
/// margin as `with_margin` says.
/// The order then goes to its
/// market's book; the fills are settled, and the execution, the book's
/// depth, each fill (to its taker and its maker) and the book are sent.
pub open spec fn create_spec(s: EngineView, req: CreateOrderArgs) -> Option<(EngineView, Seq<EffectView>)> {
    let m = req.market;
    let locked: Option<(EngineView, bool)> = if req.order_type == OrderType::LIMIT {
        match dec_mul(req.price, req.quantity) {
            None => None,
            Some(l) => {
                let w = if s.wallets.contains_key(req.user_id) {
                    s.wallets[req.user_id]
                } else {
                    empty_balance()
                };
                if w.available_balance.val() < l.val() {
                    Some((s.with_wallet(req.user_id, w), true))
                } else {
                    match lock(w, l) {
                        None => None,
                        Some(w2) => {
                            match with_margin(s.with_wallet(req.user_id, w2), req, l) {
                                None => None,
                                Some(s1) => Some((s1, false)),
                            }
                        },
                    }
                }
            },
        }
    } else {
        Some((s, false))
    };
    match locked {
        None => None,
        Some((s1, refused)) => if refused {
            Some((s1, seq![]))
        } else {
            let order = Order {
                user_id: req.user_id,
                order_id: req.order_id,
                price: req.price,
                quantity: req.quantity,
            };
            let (b2, out) = process_spec(s1.book(m), order, req.side, req.order_type);
            let s2 = with_book(s1, m, b2);
            match (out, depth_of(b2.bids), depth_of(b2.asks)) {
                (Some((fills, executed)), Some(bids), Some(asks)) => match settle_all(
                    s2,
                    fills,
                    req.side,
                    req.order_type,
                ) {
                    None => None,
                    Some(s3) => Some(
                        (
                            s3,
                            seq![
                                EffectView::PersistExecution(fills, executed),
                                EffectView::PublishDepth(m, bids, asks),
                            ] + fill_notices(fills) + seq![EffectView::ShowBook(m)],
                        ),
                    ),
                },
                _ => None,
            }
        },
    }
}

/// Cancelling an order: it leaves its market's book; when it was found, the
/// requesting user's wallet (if any) gets its notional unlocked. The book is
/// sent either way.
pub open spec fn cancel_request_spec(s: EngineView, req: CancelOrderArgs) -> Option<(EngineView, Seq<EffectView>)> {
    let m = req.market;
    let (b2, removed) = cancel_spec(s.book(m), req.order_id);
    let s1 = with_book(s, m, b2);
    match removed {
        None => Some((s1, seq![EffectView::ShowBook(m)])),
        Some(o) => if s1.wallets.contains_key(req.user_id) {
            match dec_mul(o.price, o.quantity) {
                None => None,
                Some(v) => match unlock(s1.wallets[req.user_id], v) {
                    None => None,
                    Some(w) => Some((s1.with_wallet(req.user_id, w), seq![EffectView::ShowBook(m)])),
                },
            }
        } else {
            Some((s1, seq![EffectView::ShowBook(m)]))
        },
    }
}

/// `orders` lists a user's open orders in a book (see
/// `Orderbook::get_open_orders_for_user`).
pub open spec fn lists_open_orders(b: BookView, user_id: u128, orders: Seq<Order>) -> bool {
    if b.users.contains_key(user_id) {
        exists|ids: Seq<u128>|
            {
                &&& ids.no_duplicates()
                &&& ids.to_set() == b.users[user_id]
                &&& orders == collect_open(b, ids)
            }
    } else {
        orders == Seq::<Order>::empty()
    }
}

/// What handling a request does, from state `s` to `s2`, sending `effects`.
pub open spec fn handled(s: EngineView, req: OrderRequests, s2: EngineView, effects: Seq<EffectView>) -> bool {
    match req {
        OrderRequests::CreateOrder(a) => create_spec(s, a) == Some((s2, effects)),
        OrderRequests::CancelOrder(a) => cancel_request_spec(s, a) == Some((s2, effects)),
        OrderRequests::GetOpenOrders(a) => {
            &&& s2 == s
            &&& effects.len() == 1
            &&& effects[0] matches EffectView::PublishOpenOrders(u, orders) && u == a.user_id
                && lists_open_orders(s.book(a.market), a.user_id, orders)
        },
        OrderRequests::MarkTick => match mark_all(s) {
            Some((s3, t)) => s2 == s3 && exists|
                l1: Seq<LiquidationNotice>,
                l2: Seq<LiquidationNotice>,
                l3: Seq<LiquidationNotice>,
            |
                #[trigger] marks_announce(s, l1, l2, l3) && effects == mark_tick_effects(t, l1, l2, l3),
            None => false,
        },
        OrderRequests::ExternalMarkUpdate { market, price } => {
            &&& s2 == EngineView { external_marks: s.external_marks.insert(market, price), ..s }
            &&& effects == Seq::<EffectView>::empty()
        },
        OrderRequests::IndexUpdate(u) => if u.price.val() == 0 {
            match sample_all(s) {
                Some((s3, t)) => s2 == s3 && effects == t.map_values(
                    |x: FundingTelemetry| EffectView::PublishFunding(x),
                ),
                None => false,
            }
        } else {
            &&& s2 == EngineView { index_prices: s.index_prices.insert(u.market, u.price), ..s }
            &&& effects == Seq::<EffectView>::empty()
        },
    }
}

/// Handling the request overflows decimal arithmetic.
pub open spec fn overflows(s: EngineView, req: OrderRequests) -> bool {
    match req {
        OrderRequests::CreateOrder(a) => create_spec(s, a) is None,
        OrderRequests::CancelOrder(a) => cancel_request_spec(s, a) is None,
        OrderRequests::MarkTick => mark_all(s) is None,
        OrderRequests::IndexUpdate(u) => u.price.val() == 0 && sample_all(s) is None,
        _ => false,
    }
}

/// The notices of each fill, taker first.
fn notices_for(fills: &Vec<Fill>) -> (r: Vec<EngineEffect>)
    ensures
        effects_view(r@) == fill_notices(fills@),
{
    let mut out: Vec<EngineEffect> = Vec::new();
    let mut i: usize = 0;
    while i < fills.len()
        invariant
            i <= fills@.len(),
            effects_view(out@) == fill_notices(fills@.take(i as int)),
        decreases fills.len() - i,
    {
        let f = fills[i];
        let ghost before = out@;
        out.push(EngineEffect::PublishFill { user_id: f.taker_user_id, fill: f });
        out.push(EngineEffect::PublishFill { user_id: f.maker_user_id, fill: f });
        proof {
            let t = fills@.take(i + 1);
            assert(t.drop_last() =~= fills@.take(i as int));
            assert(t.last() == f);
            assert(effects_view(out@) =~= effects_view(before) + seq![
                EffectView::PublishFill(f.taker_user_id, f),
                EffectView::PublishFill(f.maker_user_id, f),
            ]);
        }
        i = i + 1;
    }
    assert(fills@.take(i as int) =~= fills@);
    out
}

impl ExecuteEngine {
    /// Puts the user's position on isolated margin for an accepted limit
    /// order: see `with_margin`.
    fn place_margin(&mut self, req: CreateOrderArgs, l: Dec) -> (r: Result<(), DecimalOverflow>)
        ensures
            match r {
                Ok(()) => with_margin(old(self)@, req, l) == Some(final(self)@),
                Err(_) => with_margin(old(self)@, req, l) is None,
            },
            final(self)@.books == old(self)@.books,
            final(self)@.samples == old(self)@.samples,
    {
        let zero = Dec::zero();
        if req.leverage.gt(&zero) && req.quantity.gt(&zero) {
            let current = self.position_of(req.user_id, req.market);
            let placed = match isolate_margin(
                current,
                req.side,
                req.price,
                req.quantity,
                req.leverage,
                l,
            ) {
                Ok(p) => p,
                Err(e) => {
                    return Err(e);
                },
            };
            self.store_position(req.user_id, req.market, placed);
        }
        Ok(())
    }

    /// Accepts a new order: see `create_spec`.
    pub fn create_order(&mut self, req: CreateOrderArgs) -> (r: Result<Vec<EngineEffect>, DecimalOverflow>)
        requires
            old(self)@.wf(),
        ensures
            match r {
                Ok(e) => create_spec(old(self)@, req) == Some((final(self)@, effects_view(e@))),
                Err(_) => create_spec(old(self)@, req) is None,
            },
            r is Ok ==> final(self)@.wf(),
    {
        let ghost s0 = self@;
        let mut liability = Dec::zero();
        let is_limit = match req.order_type {
            OrderType::LIMIT => true,
            OrderType::MARKET => false,
        };
        if is_limit {
            liability = match req.price.mul(req.quantity) {
                Some(x) => x,
                None => {
                    return Err(DecimalOverflow);
                },
            };
            let w = match self.user_wallets.get(&req.user_id) {
                Some(w) => *w,
                None => UserBalance {
                    available_balance: Dec::zero(),
                    locked_balance: Dec::zero(),
                },
            };
            self.user_wallets.insert(req.user_id, w);
            if w.available_balance.lt(&liability) {
                let none: Vec<EngineEffect> = Vec::new();
                assert(effects_view(none@) =~= Seq::<EffectView>::empty());
                return Ok(none);
            }
            let w2 = match lock_balance(w, liability) {
                Ok(x) => x,
                Err(e) => {
                    return Err(e);
                },
            };
            self.user_wallets.insert(req.user_id, w2);
            assert(self.user_wallets@ =~= s0.wallets.insert(req.user_id, w2));
            match self.place_margin(req, liability) {
                Ok(()) => {},
                Err(e) => {
                    return Err(e);
                },
            }
        }
        let ghost s1 = self@;
        let order_item = Order {
            user_id: req.user_id,
            order_id: req.order_id,
            price: req.price,
            quantity: req.quantity,
        };
        let i = req.market.index();
        assert(s1.book(req.market) == self.orderbooks@[i as int]@);
        let ghost v0 = self.orderbooks@;
        let mut book = self.orderbooks.remove(i);
        let processed = book.process_order(order_item, req.side, req.order_type);
        let depth = book.get_depth();
        self.orderbooks.insert(i, book);
        assert(self.orderbooks@ =~= v0.update(i as int, book));
        assert(self@.books =~= s1.books.update(i as int, book@));
        assert(self@ =~= with_book(s1, req.market, book@));
        let result = match processed {
            Ok(r) => r,
            Err(_) => {
                return Err(DecimalOverflow);
            },
        };
        let depth = match depth {
            Some(d) => d,
            None => {
                return Err(DecimalOverflow);
            },
        };
        let ghost s2 = self@;
        match self.settle_balances(result.fills.as_slice(), req.side, req.order_type, liability) {
            Ok(()) => {
                proof {
                    crate::engine::lemma_settle_keeps_books(s2, result.fills@, req.side, req.order_type);
                }
            },
            Err(e) => {
                return Err(e);
            },
        }
        let mut notices = notices_for(&result.fills);
        let ghost fills = result.fills@;
        let ghost executed = result.executed_quantity;
        let mut effects: Vec<EngineEffect> = Vec::new();
        effects.push(EngineEffect::PersistExecution(result));
        effects.push(EngineEffect::PublishDepth { market: req.market, depth });
        let ghost head = effects@;
        let ghost tail = notices@;
        effects.append(&mut notices);
        effects.push(EngineEffect::ShowBook(req.market));
        proof {
            assert(effects_view(effects@) =~= seq![
                EffectView::PersistExecution(fills, executed),
                EffectView::PublishDepth(req.market, depth.bids@, depth.asks@),
            ] + fill_notices(fills) + seq![EffectView::ShowBook(req.market)]) by {
                assert(effects@ =~= head + tail + seq![EngineEffect::ShowBook(req.market)]);
            }
        }
        Ok(effects)
    }

    /// Cancels an order: see `cancel_request_spec`.
    pub fn cancel_request(&mut self, req: CancelOrderArgs) -> (r: Result<Vec<EngineEffect>, DecimalOverflow>)
        requires
            old(self)@.wf(),
        ensures
            match r {
                Ok(e) => cancel_request_spec(old(self)@, req) == Some((final(self)@, effects_view(e@))),
                Err(_) => cancel_request_spec(old(self)@, req) is None,
            },
            r is Ok ==> final(self)@.wf(),
    {
        let ghost s0 = self@;
        let i = req.market.index();
        assert(s0.book(req.market) == self.orderbooks@[i as int]@);
        let ghost v0 = self.orderbooks@;
        let mut book = self.orderbooks.remove(i);
        let cancelled = book.cancel_order(req.order_id);
        self.orderbooks.insert(i, book);
        assert(self.orderbooks@ =~= v0.update(i as int, book));
        assert(self@.books =~= s0.books.update(i as int, book@));
        assert(self@ =~= with_book(s0, req.market, book@));
        let mut effects: Vec<EngineEffect> = Vec::new();
        effects.push(EngineEffect::ShowBook(req.market));
        assert(effects_view(effects@) =~= seq![EffectView::ShowBook(req.market)]);
        match cancelled {
            Ok(Some(order)) => {
                match self.user_wallets.get(&req.user_id) {
                    Some(w) => {
                        let returned_capital = match order.price.mul(order.quantity) {
                            Some(x) => x,
                            None => {
                                return Err(DecimalOverflow);
                            },
                        };
                        let w2 = match unlock_balance(*w, returned_capital) {
                            Ok(x) => x,
                            Err(e) => {
                                return Err(e);
                            },
                        };
                        self.user_wallets.insert(req.user_id, w2);
                    },
                    None => {},
                }
            },
            _ => {},
        }
        Ok(effects)
    }

    /// Lists a user's open orders in a market, for the user's channel.
    pub fn open_orders_request(&self, user_id: u128, market: Market) -> (r: Vec<EngineEffect>)
        requires
            self@.wf(),
        ensures
            r@.len() == 1,
            r@[0]@ matches EffectView::PublishOpenOrders(u, orders) && u == user_id
                && lists_open_orders(self@.book(market), user_id, orders),
    {
        let i = market.index();
        assert(self@.book(market) == self.orderbooks@[i as int]@);
        let orders = self.orderbooks[i].get_open_orders_for_user(user_id);
        let mut out: Vec<EngineEffect> = Vec::new();
        out.push(EngineEffect::PublishOpenOrders { user_id, orders });
        out
    }

    /// A mark tick: see the `MarkTick` arm of `handled`.
    fn mark_tick(&mut self) -> (r: Result<Vec<EngineEffect>, DecimalOverflow>)
        requires
            old(self)@.wf(),
        ensures
            match r {
                Ok(e) => handled(old(self)@, OrderRequests::MarkTick, final(self)@, effects_view(e@)),
                Err(_) => overflows(old(self)@, OrderRequests::MarkTick),
            },
            r is Ok ==> final(self)@.wf(),
    {
        match self.calculate_all_market_mark_prices() {
            Ok(v) => {
                let ghost t = seq![v@[0].0, v@[1].0, v@[2].0];
                let mut out: Vec<EngineEffect> = Vec::new();
                let mut k: usize = 0;
                while k < v.len()
                    invariant
                        v@.len() == 3,
                        k <= 3,
                        t == seq![v@[0].0, v@[1].0, v@[2].0],
                        effects_view(out@) == (if k == 0 {
                            Seq::<EffectView>::empty()
                        } else if k == 1 {
                            liquidation_effects(v@[0].1@).push(EffectView::PublishMarkPrice(t[0]))
                        } else if k == 2 {
                            liquidation_effects(v@[0].1@).push(EffectView::PublishMarkPrice(t[0]))
                                + liquidation_effects(v@[1].1@).push(EffectView::PublishMarkPrice(t[1]))
                        } else {
                            mark_tick_effects(t, v@[0].1@, v@[1].1@, v@[2].1@)
                        }),
                    decreases 3 - k,
                {
                    let ghost prev = effects_view(out@);
                    append_notices(&mut out, &v[k].1);
                    out.push(EngineEffect::PublishMarkPrice(v[k].0));
                    proof {
                        assert(effects_view(out@) =~= (prev + liquidation_effects(v@[k as int].1@)).push(
                            EffectView::PublishMarkPrice(v@[k as int].0),
                        ));
                    }
                    k = k + 1;
                }
                proof {
                    let (l1, l2, l3) = (v@[0].1@, v@[1].1@, v@[2].1@);
                    assert(marks_announce(old(self)@, l1, l2, l3));
                }
                Ok(out)
            },
            Err(e) => Err(e),
        }
    }

    /// Handles one request from the ingestion stream: see `handled`; `Err`
    /// exactly where `overflows` holds.
    pub fn handle_order_request(&mut self, request: OrderRequests) -> (r: Result<Vec<EngineEffect>, DecimalOverflow>)
        requires
            old(self)@.wf(),
        ensures
            match r {
                Ok(e) => handled(old(self)@, request, final(self)@, effects_view(e@)),
                Err(_) => overflows(old(self)@, request),
            },
            r is Ok ==> final(self)@.wf(),
    {
        match request {
            OrderRequests::MarkTick => self.mark_tick(),
            OrderRequests::ExternalMarkUpdate { market, price } => {
                self.external_marks.insert(market, price);
                let out: Vec<EngineEffect> = Vec::new();
                assert(effects_view(out@) =~= Seq::<EffectView>::empty());
                Ok(out)
            },
            OrderRequests::IndexUpdate(update) => {
                if update.price.is_zero() {
                    match self.sample_premium_indices() {
                        Ok(ts) => {
                            let mut out: Vec<EngineEffect> = Vec::new();
                            let mut k: usize = 0;
                            while k < ts.len()
                                invariant
                                    k <= ts@.len(),
                                    effects_view(out@) == ts@.take(k as int).map_values(
                                        |x: FundingTelemetry| EffectView::PublishFunding(x),
                                    ),
                                decreases ts.len() - k,
                            {
                                let ghost prev = out@;
                            out.push(EngineEffect::PublishFunding(ts[k]));
                            proof {
                                assert(effects_view(out@) =~= effects_view(prev).push(EffectView::PublishFunding(ts@[k as int])));
                                assert(ts@.take(k + 1) =~= ts@.take(k as int).push(ts@[k as int]));
                                assert(ts@.take(k + 1).map_values(|x: FundingTelemetry| EffectView::PublishFunding(x)) =~= ts@.take(k as int).map_values(
                                    |x: FundingTelemetry| EffectView::PublishFunding(x),
                                ).push(EffectView::PublishFunding(ts@[k as int])));
                            }
                                k = k + 1;
                            }
                            assert(ts@.take(k as int) =~= ts@);
                            Ok(out)
                        },
                        Err(e) => Err(e),
                    }
                } else {
                    self.index_prices.insert(update.market, update.price);
                    let out: Vec<EngineEffect> = Vec::new();
                    assert(effects_view(out@) =~= Seq::<EffectView>::empty());
                    Ok(out)
                }
            },
            OrderRequests::CreateOrder(req) => self.create_order(req),
            OrderRequests::CancelOrder(req) => self.cancel_request(req),
            OrderRequests::GetOpenOrders(req) => Ok(self.open_orders_request(req.user_id, req.market)),
        }
    }
}

impl ExecuteEngine {
    /// Handles one of the valuation requests (a mark tick, an external mark
    /// or an index update) as `handle_order_request` does.
    pub fn execute_valuation_routines(&mut self, request: OrderRequests) -> (r: Result<
        Vec<EngineEffect>,
        DecimalOverflow,
    >)
        requires
            old(self)@.wf(),
            request is MarkTick || request is ExternalMarkUpdate || request is IndexUpdate,
        ensures
            match r {
                Ok(e) => handled(old(self)@, request, final(self)@, effects_view(e@)),
                Err(_) => overflows(old(self)@, request),
            },
            r is Ok ==> final(self)@.wf(),
    {
        self.handle_order_request(request)
    }

    /// A market's book as the console shows it: the asks from the highest
    /// price down, then the bids from the highest price down, each level with
    /// its total resting quantity; `None` where a total overflows.
    pub fn book_matrix(&self, market: Market) -> (r: Option<(Vec<(Dec, Dec)>, Vec<(Dec, Dec)>)>)
        requires
            self@.wf(),
        ensures
            match r {
                Some((asks, bids)) => depth_of(self@.book(market).asks) == Some(asks@.reverse())
                    && depth_of(self@.book(market).bids) == Some(bids@),
                None => depth_of(self@.book(market).asks) is None || depth_of(
                    self@.book(market).bids,
                ) is None,
            },
    {
        let i = market.index();
        let depth = match self.orderbooks[i].get_depth() {
            Some(d) => d,
            None => {
                return None;
            },
        };
        let mut asks: Vec<(Dec, Dec)> = Vec::new();
        let n = depth.asks.len();
        let mut k: usize = n;
        while k > 0
            invariant
                k <= n,
                n == depth.asks@.len(),
                asks@ == depth.asks@.subrange(k as int, n as int).reverse(),
            decreases k,
        {
            k = k - 1;
            let ghost prev = asks@;
            asks.push(depth.asks[k]);
            assert(depth.asks@.subrange(k as int, n as int) =~= seq![depth.asks@[k as int]]
                + depth.asks@.subrange(k + 1, n as int));
            assert(asks@ =~= depth.asks@.subrange(k as int, n as int).reverse());
        }
        assert(depth.asks@.subrange(0, n as int) =~= depth.asks@);
        assert(asks@.reverse() =~= depth.asks@);
        Some((asks, depth.bids))
    }
}

/// Appends one liquidation message per notice.
fn append_notices(out: &mut Vec<EngineEffect>, notices: &Vec<LiquidationNotice>)
    ensures
        effects_view(final(out)@) == effects_view(old(out)@) + liquidation_effects(notices@),
{
    let ghost start = effects_view(out@);
    let mut k: usize = 0;
    while k < notices.len()
        invariant
            k <= notices@.len(),
            effects_view(out@) == start + liquidation_effects(notices@.take(k as int)),
        decreases notices.len() - k,
    {
        let ghost prev = effects_view(out@);
        out.push(EngineEffect::PublishLiquidation(notices[k]));
        proof {
            assert(effects_view(out@) =~= prev.push(EffectView::PublishLiquidation(notices@[k as int])));
            assert(notices@.take(k + 1) =~= notices@.take(k as int).push(notices@[k as int]));
            assert(liquidation_effects(notices@.take(k + 1)) =~= liquidation_effects(notices@.take(k as int)).push(
                EffectView::PublishLiquidation(notices@[k as int]),
            ));
        }
        k = k + 1;
    }
    assert(notices@.take(k as int) =~= notices@);
}

} // verus!

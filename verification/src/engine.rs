//! The matching engine's state and its decisions: collateral locking,
//! settlement of fills into balances and positions, mark prices, premium
//! sampling and funding.
//!
//! Every function here decides; the caller performs what it returns (stream
//! and channel messages). `Err(DecimalOverflow)` reports a decimal overflow,
//! after which the engine's state is not to be used.
use crate::decimal::{
    Dec,
    DecimalOverflow,
    dec_add,
    dec_sub,
    dec_mul,
    dec_div,
    negated,
    abs_of,
    spec_zero,
    spec_max,
    spec_clamp,
    decimal_rounded,
};
use crate::market_map::MarketMap;
use crate::orderbook::{BookView, Orderbook};
use crate::types::{
    Fill,
    Market,
    OrderSide,
    OrderType,
    Position,
    PositionSide,
    UserBalance,
    market_index,
    spec_all_markets,
};
use std::collections::HashMap;
use vstd::prelude::*;
use vstd::std_specs::hash::group_hash_axioms;

verus! {

broadcast use {group_hash_axioms, crate::decimal::lemma_zero_scaled};

/// The first sandbox user (`11111111-1111-1111-1111-111111111111`).
pub const SANDBOX_USER_1: u128 = 0x11111111111111111111111111111111;

/// The second sandbox user (`22222222-2222-2222-2222-222222222222`).
pub const SANDBOX_USER_2: u128 = 0x22222222222222222222222222222222;

/// The engine's state.
pub struct ExecuteEngine {
    /// One book per market, in the order of `all_markets()`.
    pub orderbooks: Vec<Orderbook>,
    pub user_wallets: HashMap<u128, UserBalance>,
    pub user_positions: HashMap<u128, MarketMap<Position>>,
    pub index_prices: MarketMap<Dec>,
    pub external_marks: MarketMap<Dec>,
    pub last_trade_prices: MarketMap<Dec>,
    pub c1_ema_state: MarketMap<Dec>,
    pub mark_prices: MarketMap<Dec>,
    /// The premium samples of each market, in the order of `all_markets()`.
    pub premium_samples: Vec<Vec<Dec>>,
    pub current_funding_rates: MarketMap<Dec>,
}

pub ghost struct EngineView {
    pub books: Seq<BookView>,
    pub wallets: Map<u128, UserBalance>,
    pub positions: Map<u128, Map<Market, Position>>,
    pub index_prices: Map<Market, Dec>,
    pub external_marks: Map<Market, Dec>,
    pub last_trade_prices: Map<Market, Dec>,
    pub c1_ema_state: Map<Market, Dec>,
    pub mark_prices: Map<Market, Dec>,
    pub samples: Seq<Seq<Dec>>,
    pub funding_rates: Map<Market, Dec>,
}

impl View for ExecuteEngine {
    type V = EngineView;

    open spec fn view(&self) -> EngineView {
        EngineView {
            books: self.orderbooks@.map_values(|b: Orderbook| b@),
            wallets: self.user_wallets@,
            positions: self.user_positions@.map_values(|m: MarketMap<Position>| m@),
            index_prices: self.index_prices@,
            external_marks: self.external_marks@,
            last_trade_prices: self.last_trade_prices@,
            c1_ema_state: self.c1_ema_state@,
            mark_prices: self.mark_prices@,
            samples: self.premium_samples@.map_values(|v: Vec<Dec>| v@),
            funding_rates: self.current_funding_rates@,
        }
    }
}

impl EngineView {
    /// One well-formed book per market, in market order, and one sample list
    /// per market.
    pub open spec fn wf(self) -> bool {
        &&& self.books.len() == 3
        &&& forall|i: int|
            0 <= i < 3 ==> (#[trigger] self.books[i]).wf() && self.books[i].market
                == spec_all_markets()[i]
        &&& self.samples.len() == 3
    }

    pub open spec fn book(self, m: Market) -> BookView {
        self.books[market_index(m) as int]
    }

    pub open spec fn with_wallet(self, u: u128, w: UserBalance) -> EngineView {
        EngineView { wallets: self.wallets.insert(u, w), ..self }
    }

    pub open spec fn with_position(self, u: u128, m: Market, p: Position) -> EngineView {
        let pm = if self.positions.contains_key(u) {
            self.positions[u]
        } else {
            Map::empty()
        };
        EngineView { positions: self.positions.insert(u, pm.insert(m, p)), ..self }
    }

    /// The user's position in the market, or a flat one.
    pub open spec fn position(self, u: u128, m: Market) -> Position {
        if self.positions.contains_key(u) && self.positions[u].contains_key(m) {
            self.positions[u][m]
        } else {
            flat_position(m)
        }
    }
}

/// A flat position: zero size, entry price, profit, margin, leverage and
/// liquidation price.
pub open spec fn flat_position(m: Market) -> Position {
    Position {
        market: m,
        size: spec_zero(),
        avg_entry_price: spec_zero(),
        unrealized_pnl: spec_zero(),
        margin: spec_zero(),
        leverage: spec_zero(),
        side: PositionSide::Flat,
        liquidation_price: spec_zero(),
    }
}

/// The position once a limit order of `side` at `price` for `quantity`
/// with leverage `leverage` and notional `notional` is placed, on isolated
/// margin: the margin is `notional / leverage`; a buy makes the position long
/// with liquidation price `(price - margin / quantity) / 0.99`, a sell short
/// with `(price + margin / quantity) / 1.01`. Without a positive leverage and
/// quantity the position is unchanged. `None` on overflow.
pub open spec fn isolated_margin(
    p: Position,
    side: OrderSide,
    price: Dec,
    quantity: Dec,
    leverage: Dec,
    notional: Dec,
) -> Option<Position> {
    if leverage.val() <= 0 || quantity.val() <= 0 {
        Some(p)
    } else {
        let long = side == OrderSide::BUY;
        match dec_div(notional, leverage) {
            None => None,
            Some(margin) => match dec_div(margin, quantity) {
                None => None,
                Some(per_unit) => match (if long {
                    dec_sub(price, per_unit)
                } else {
                    dec_add(price, per_unit)
                }) {
                    None => None,
                    Some(x) => match dec_div(
                        x,
                        if long {
                            Dec::spec_new(99, 2)
                        } else {
                            Dec::spec_new(101, 2)
                        },
                    ) {
                        None => None,
                        Some(liq) => Some(
                            Position {
                                margin,
                                leverage,
                                side: if long {
                                    PositionSide::Long
                                } else {
                                    PositionSide::Short
                                },
                                liquidation_price: liq,
                                ..p
                            },
                        ),
                    },
                },
            },
        }
    }
}

/// The position after trading `delta` (positive buys, negative sells) at
/// `price`: a flat position takes the trade's size and price; a trade in the
/// position's direction adds to it at the size-weighted average price; a
/// smaller opposite trade reduces it; an equal one closes it; a larger one
/// flips it to the excess at the trade's price. `None` on overflow.
pub open spec fn position_after(p: Position, delta: Dec, price: Dec) -> Option<Position> {
    if p.size.val() == 0 {
        Some(Position { size: delta, avg_entry_price: price, ..p })
    } else if (p.size.val() >= 0) == (delta.val() >= 0) {
        match dec_add(p.size, delta) {
            None => None,
            Some(new_size) => match dec_mul(abs_of(p.size), p.avg_entry_price) {
                None => None,
                Some(current_notional) => match dec_mul(abs_of(delta), price) {
                    None => None,
                    Some(fill_notional) => match dec_add(current_notional, fill_notional) {
                        None => None,
                        Some(total) => match dec_div(total, abs_of(new_size)) {
                            None => None,
                            Some(avg) => Some(Position { avg_entry_price: avg, size: new_size, ..p }),
                        },
                    },
                },
            },
        }
    } else {
        let current_abs = abs_of(p.size);
        let delta_abs = abs_of(delta);
        if delta_abs.val() < current_abs.val() {
            match dec_add(p.size, delta) {
                None => None,
                Some(s) => Some(Position { size: s, ..p }),
            }
        } else if delta_abs.val() == current_abs.val() {
            Some(
                Position {
                    size: spec_zero(),
                    avg_entry_price: spec_zero(),
                    unrealized_pnl: spec_zero(),
                    ..p
                },
            )
        } else {
            match dec_sub(delta_abs, current_abs) {
                None => None,
                Some(rem) => Some(
                    Position {
                        size: if delta.val() >= 0 {
                            rem
                        } else {
                            negated(rem)
                        },
                        avg_entry_price: price,
                        ..p
                    },
                ),
            }
        }
    }
}

/// `v` moves from locked back to available.
pub open spec fn unlock(w: UserBalance, v: Dec) -> Option<UserBalance> {
    match dec_sub(w.locked_balance, v) {
        None => None,
        Some(l) => match dec_add(w.available_balance, v) {
            None => None,
            Some(a) => Some(UserBalance { available_balance: a, locked_balance: l }),
        },
    }
}

/// `v` moves from available to locked.
pub open spec fn lock(w: UserBalance, v: Dec) -> Option<UserBalance> {
    match dec_sub(w.available_balance, v) {
        None => None,
        Some(a) => match dec_add(w.locked_balance, v) {
            None => None,
            Some(l) => Some(UserBalance { available_balance: a, locked_balance: l }),
        },
    }
}

/// `v` leaves the available balance.
pub open spec fn debit(w: UserBalance, v: Dec) -> Option<UserBalance> {
    match dec_sub(w.available_balance, v) {
        None => None,
        Some(a) => Some(UserBalance { available_balance: a, ..w }),
    }
}

/// Applies a wallet change to user `u`, if the user has a wallet.
pub open spec fn change_wallet(s: EngineView, u: u128, w: Option<UserBalance>) -> Option<EngineView> {
    if !s.wallets.contains_key(u) {
        Some(s)
    } else {
        match w {
            None => None,
            Some(w) => Some(s.with_wallet(u, w)),
        }
    }
}

/// Moves user `u`'s position in `m` by `delta` at `price`.
pub open spec fn trade_position(s: EngineView, u: u128, m: Market, delta: Dec, price: Dec) -> Option<
    EngineView,
> {
    match position_after(s.position(u, m), delta, price) {
        None => None,
        Some(p) => Some(s.with_position(u, m, p)),
    }
}

/// Settling one fill: the market's last trade price becomes the fill price;
/// the maker's matched value (`price * quantity`) is unlocked; a limit taker's
/// is unlocked too and a market taker's is debited (for users with a wallet);
/// the buyer's position grows by the quantity and the seller's shrinks by it.
pub open spec fn settle_fill(s: EngineView, f: Fill, taker_side: OrderSide, taker_type: OrderType) -> Option<
    EngineView,
> {
    match dec_mul(f.price, f.quantity) {
        None => None,
        Some(v) => {
            let s1 = EngineView {
                last_trade_prices: s.last_trade_prices.insert(f.market, f.price),
                ..s
            };
            let maker_w = if s1.wallets.contains_key(f.maker_user_id) {
                unlock(s1.wallets[f.maker_user_id], v)
            } else {
                None
            };
            match change_wallet(s1, f.maker_user_id, maker_w) {
                None => None,
                Some(s2) => {
                    let taker_w = if s2.wallets.contains_key(f.taker_user_id) {
                        if taker_type == OrderType::LIMIT {
                            unlock(s2.wallets[f.taker_user_id], v)
                        } else {
                            debit(s2.wallets[f.taker_user_id], v)
                        }
                    } else {
                        None
                    };
                    match change_wallet(s2, f.taker_user_id, taker_w) {
                        None => None,
                        Some(s3) => {
                            let (long_user, short_user) = if taker_side == OrderSide::BUY {
                                (f.taker_user_id, f.maker_user_id)
                            } else {
                                (f.maker_user_id, f.taker_user_id)
                            };
                            match trade_position(s3, long_user, f.market, f.quantity, f.price) {
                                None => None,
                                Some(s4) => trade_position(
                                    s4,
                                    short_user,
                                    f.market,
                                    negated(f.quantity),
                                    f.price,
                                ),
                            }
                        },
                    }
                },
            }
        },
    }
}

/// Settling the fills in order.
pub open spec fn settle_all(s: EngineView, fills: Seq<Fill>, taker_side: OrderSide, taker_type: OrderType) -> Option<
    EngineView,
>
    decreases fills.len(),
{
    if fills.len() == 0 {
        Some(s)
    } else {
        match settle_all(s, fills.drop_last(), taker_side, taker_type) {
            None => None,
            Some(s2) => settle_fill(s2, fills.last(), taker_side, taker_type),
        }
    }
}


/// An empty book for market `m`.
pub open spec fn empty_book(m: Market) -> BookView {
    BookView {
        bids: Seq::empty(),
        asks: Seq::empty(),
        prices: Map::empty(),
        users: Map::empty(),
        market: m,
    }
}

/// The same value for every market.
pub open spec fn every_market(v: Dec) -> Map<Market, Dec> {
    Map::new(|m: Market| true, |m: Market| v)
}

/// The engine as it starts: an empty book and no samples per market, index,
/// external and last trade prices of 145.00, zero smoothing state and
/// funding rates, no mark prices, and the two sandbox wallets funded.
pub open spec fn initial_view(price: Dec, zero: Dec, funds_1: Dec, funds_2: Dec) -> EngineView {
    EngineView {
        books: seq![
            empty_book(Market::SOL_PERP),
            empty_book(Market::BTC_PERP),
            empty_book(Market::ETH_PERP),
        ],
        wallets: Map::empty().insert(
            SANDBOX_USER_1,
            UserBalance { available_balance: funds_1, locked_balance: zero },
        ).insert(SANDBOX_USER_2, UserBalance { available_balance: funds_2, locked_balance: zero }),
        positions: Map::empty(),
        index_prices: every_market(price),
        external_marks: every_market(price),
        last_trade_prices: every_market(price),
        c1_ema_state: every_market(zero),
        mark_prices: Map::empty(),
        samples: seq![Seq::empty(), Seq::empty(), Seq::empty()],
        funding_rates: every_market(zero),
    }
}

/// The unlocking of `v`.
pub(crate) fn unlock_balance(w: UserBalance, v: Dec) -> (r: Result<UserBalance, DecimalOverflow>)
    ensures
        match r {
            Ok(x) => unlock(w, v) == Some(x),
            Err(_) => unlock(w, v) is None,
        },
{
    let l = match w.locked_balance.sub(v) {
        Some(x) => x,
        None => {
            return Err(DecimalOverflow);
        },
    };
    let a = match w.available_balance.add(v) {
        Some(x) => x,
        None => {
            return Err(DecimalOverflow);
        },
    };
    Ok(UserBalance { available_balance: a, locked_balance: l })
}

/// The locking of `v`.
pub(crate) fn lock_balance(w: UserBalance, v: Dec) -> (r: Result<UserBalance, DecimalOverflow>)
    ensures
        match r {
            Ok(x) => lock(w, v) == Some(x),
            Err(_) => lock(w, v) is None,
        },
{
    let a = match w.available_balance.sub(v) {
        Some(x) => x,
        None => {
            return Err(DecimalOverflow);
        },
    };
    let l = match w.locked_balance.add(v) {
        Some(x) => x,
        None => {
            return Err(DecimalOverflow);
        },
    };
    Ok(UserBalance { available_balance: a, locked_balance: l })
}

/// The debit of `v`.
pub(crate) fn debit_balance(w: UserBalance, v: Dec) -> (r: Result<UserBalance, DecimalOverflow>)
    ensures
        match r {
            Ok(x) => debit(w, v) == Some(x),
            Err(_) => debit(w, v) is None,
        },
{
    match w.available_balance.sub(v) {
        Some(a) => Ok(UserBalance { available_balance: a, ..w }),
        None => Err(DecimalOverflow),
    }
}

impl ExecuteEngine {
    /// A fresh engine: see `initial_view`.
    pub fn new() -> (r: ExecuteEngine)
        ensures
            r@ == initial_view(Dec::spec_new(14500, 2), spec_zero(), Dec::spec_new(100000, 0), Dec::spec_new(50000, 0)),
            r@.wf(),
    {
        let start_price = Dec::new(14500, 2);
        let zero = Dec::zero();
        let mut orderbooks: Vec<Orderbook> = Vec::new();
        orderbooks.push(Orderbook::new(Market::SOL_PERP));
        orderbooks.push(Orderbook::new(Market::BTC_PERP));
        orderbooks.push(Orderbook::new(Market::ETH_PERP));
        let mut index_prices = MarketMap::empty();
        let mut external_marks = MarketMap::empty();
        let mut last_trade_prices = MarketMap::empty();
        let mut c1_ema_state = MarketMap::empty();
        let mut current_funding_rates = MarketMap::empty();
        let mut premium_samples: Vec<Vec<Dec>> = Vec::new();
        let markets = crate::types::all_markets();
        let mut i: usize = 0;
        while i < 3
            invariant
                i <= 3,
                markets@ == spec_all_markets(),
                start_price == Dec::spec_new(14500, 2),
                zero == spec_zero(),
                premium_samples@.len() == i,
                forall|j: int| 0 <= j < i ==> (#[trigger] premium_samples@[j])@ == Seq::<Dec>::empty(),
                forall|m: Market|
                    #![trigger index_prices@.contains_key(m)]
                    index_prices@.contains_key(m) <==> market_index(m) < i,
                forall|m: Market| #![trigger external_marks@.contains_key(m)] external_marks@.contains_key(m) <==> market_index(m) < i,
                forall|m: Market| #![trigger last_trade_prices@.contains_key(m)] last_trade_prices@.contains_key(m) <==> market_index(m) < i,
                forall|m: Market| #![trigger c1_ema_state@.contains_key(m)] c1_ema_state@.contains_key(m) <==> market_index(m) < i,
                forall|m: Market| #![trigger current_funding_rates@.contains_key(m)] current_funding_rates@.contains_key(m) <==> market_index(m) < i,
                forall|m: Market| index_prices@.contains_key(m) ==> index_prices@[m] == start_price,
                forall|m: Market| external_marks@.contains_key(m) ==> external_marks@[m] == start_price,
                forall|m: Market| last_trade_prices@.contains_key(m) ==> last_trade_prices@[m] == start_price,
                forall|m: Market| c1_ema_state@.contains_key(m) ==> c1_ema_state@[m] == zero,
                forall|m: Market| current_funding_rates@.contains_key(m) ==> current_funding_rates@[m] == zero,
            decreases 3 - i,
        {
            let market = markets[i];
            proof {
                crate::types::lemma_market_index(market);
                match market {
                    Market::SOL_PERP => {},
                    Market::BTC_PERP => {},
                    Market::ETH_PERP => {},
                }
            }
            premium_samples.push(Vec::new());
            current_funding_rates.insert(market, zero);
            c1_ema_state.insert(market, zero);
            index_prices.insert(market, start_price);
            external_marks.insert(market, start_price);
            last_trade_prices.insert(market, start_price);
            current_funding_rates.insert(market, zero);
            i = i + 1;
        }
        let mut instance = ExecuteEngine {
            orderbooks,
            user_wallets: HashMap::new(),
            user_positions: HashMap::new(),
            index_prices,
            external_marks,
            last_trade_prices,
            c1_ema_state,
            mark_prices: MarketMap::empty(),
            premium_samples,
            current_funding_rates,
        };
        instance.seed_sandbox_balances();
        proof {
            let v = instance@;
            let want = initial_view(Dec::spec_new(14500, 2), spec_zero(), Dec::spec_new(100000, 0), Dec::spec_new(50000, 0));
            assert(v.books =~= want.books);
            assert(v.samples =~= want.samples);
            assert(v.positions =~= want.positions);
            assert forall|m: Market| #[trigger] market_index(m) < 3 by {
                match m {
                    Market::SOL_PERP => {},
                    Market::BTC_PERP => {},
                    Market::ETH_PERP => {},
                }
            }
            assert(v.index_prices =~= want.index_prices);
            assert(v.external_marks =~= want.external_marks);
            assert(v.last_trade_prices =~= want.last_trade_prices);
            assert(v.c1_ema_state =~= want.c1_ema_state);
            assert(v.funding_rates =~= want.funding_rates);
            assert(v.wallets =~= want.wallets);
        }
        instance
    }

    /// Funds the two sandbox users: 100000 and 50000 available, nothing
    /// locked.
    fn seed_sandbox_balances(&mut self)
        ensures
            final(self)@ == (EngineView {
                wallets: old(self)@.wallets.insert(
                    SANDBOX_USER_1,
                    UserBalance {
                        available_balance: Dec::spec_new(100000, 0),
                        locked_balance: spec_zero(),
                    },
                ).insert(
                    SANDBOX_USER_2,
                    UserBalance {
                        available_balance: Dec::spec_new(50000, 0),
                        locked_balance: spec_zero(),
                    },
                ),
                ..old(self)@
            }),
    {
        self.user_wallets.insert(
            SANDBOX_USER_1,
            UserBalance { available_balance: Dec::new(100000, 0), locked_balance: Dec::zero() },
        );
        self.user_wallets.insert(
            SANDBOX_USER_2,
            UserBalance { available_balance: Dec::new(50000, 0), locked_balance: Dec::zero() },
        );
    }

    /// Moves a user's position in a market by `size_delta` at `fill_price`:
    /// see `position_after`.
    pub fn update_user_position_inventory(
        &mut self,
        user_id: u128,
        market: Market,
        size_delta: Dec,
        fill_price: Dec,
    ) -> (r: Result<(), DecimalOverflow>)
        ensures
            match r {
                Ok(()) => trade_position(old(self)@, user_id, market, size_delta, fill_price)
                    == Some(final(self)@),
                Err(_) => trade_position(old(self)@, user_id, market, size_delta, fill_price) is None,
            },
    {
        let mut pm = match self.user_positions.get(&user_id) {
            Some(m) => *m,
            None => MarketMap::empty(),
        };
        let flat = Position {
            market,
            size: Dec::zero(),
            avg_entry_price: Dec::zero(),
            unrealized_pnl: Dec::zero(),
            margin: Dec::zero(),
            leverage: Dec::zero(),
            side: PositionSide::Flat,
            liquidation_price: Dec::zero(),
        };
        let current = pm.get_or(market, flat);
        assert(current == old(self)@.position(user_id, market));
        let next = match next_position(current, size_delta, fill_price) {
            Ok(p) => p,
            Err(e) => {
                return Err(e);
            },
        };
        let ghost pm0 = pm@;
        pm.insert(market, next);
        self.user_positions.insert(user_id, pm);
        proof {
            let want = old(self)@.with_position(user_id, market, next);
            assert(pm0 == (if old(self)@.positions.contains_key(user_id) {
                old(self)@.positions[user_id]
            } else {
                Map::empty()
            }));
            assert(self@.positions =~= want.positions);
            assert(self@ =~= want);
        }
        Ok(())
    }

    /// Settles one fill: see `settle_fill`.
    fn settle_one(&mut self, f: Fill, taker_side: OrderSide, taker_type: OrderType) -> (r: Result<(), DecimalOverflow>)
        ensures
            match r {
                Ok(()) => settle_fill(old(self)@, f, taker_side, taker_type) == Some(final(self)@),
                Err(_) => settle_fill(old(self)@, f, taker_side, taker_type) is None,
            },
    {
        let matched_value = match f.price.mul(f.quantity) {
            Some(x) => x,
            None => {
                return Err(DecimalOverflow);
            },
        };
        self.last_trade_prices.insert(f.market, f.price);
        let ghost s1 = self@;
        match self.user_wallets.get(&f.maker_user_id) {
            Some(w) => {
                match unlock_balance(*w, matched_value) {
                    Ok(nw) => {
                        self.user_wallets.insert(f.maker_user_id, nw);
                    },
                    Err(e) => {
                        return Err(e);
                    },
                }
            },
            None => {},
        }
        assert(change_wallet(s1, f.maker_user_id, if s1.wallets.contains_key(f.maker_user_id) {
            unlock(s1.wallets[f.maker_user_id], matched_value)
        } else {
            None
        }) == Some(self@));
        let ghost s2 = self@;
        match self.user_wallets.get(&f.taker_user_id) {
            Some(w) => {
                let changed = match taker_type {
                    OrderType::LIMIT => unlock_balance(*w, matched_value),
                    OrderType::MARKET => debit_balance(*w, matched_value),
                };
                match changed {
                    Ok(nw) => {
                        self.user_wallets.insert(f.taker_user_id, nw);
                    },
                    Err(e) => {
                        return Err(e);
                    },
                }
            },
            None => {},
        }
        let (long_user, short_user) = match taker_side {
            OrderSide::BUY => (f.taker_user_id, f.maker_user_id),
            OrderSide::SELL => (f.maker_user_id, f.taker_user_id),
        };
        match self.update_user_position_inventory(long_user, f.market, f.quantity, f.price) {
            Ok(()) => {},
            Err(e) => {
                return Err(e);
            },
        }
        let short_delta = f.quantity.neg();
        self.update_user_position_inventory(short_user, f.market, short_delta, f.price)
    }

    /// Settles the fills of an execution in order: see `settle_all`.
    pub fn settle_balances(
        &mut self,
        fills: &[Fill],
        taker_side: OrderSide,
        taker_type: OrderType,
        initial_liability: Dec,
    ) -> (r: Result<(), DecimalOverflow>)
        ensures
            match r {
                Ok(()) => settle_all(old(self)@, fills@, taker_side, taker_type) == Some(final(self)@),
                Err(_) => settle_all(old(self)@, fills@, taker_side, taker_type) is None,
            },
    {
        let mut i: usize = 0;
        while i < fills.len()
            invariant
                i <= fills@.len(),
                settle_all(old(self)@, fills@.take(i as int), taker_side, taker_type) == Some(self@),
            decreases fills.len() - i,
        {
            assert(fills@.take(i + 1).drop_last() =~= fills@.take(i as int));
            match self.settle_one(fills[i], taker_side, taker_type) {
                Ok(()) => {},
                Err(e) => {
                    proof {
                        lemma_settle_none_extends(old(self)@, fills@, i + 1, taker_side, taker_type);
                    }
                    return Err(e);
                },
            }
            i = i + 1;
        }
        assert(fills@.take(i as int) =~= fills@);
        Ok(())
    }
}

/// Settlement touches neither the books nor the premium samples.
pub proof fn lemma_settle_keeps_books(s: EngineView, fills: Seq<Fill>, side: OrderSide, ty: OrderType)
    requires
        settle_all(s, fills, side, ty) is Some,
    ensures
        settle_all(s, fills, side, ty)->0.books == s.books,
        settle_all(s, fills, side, ty)->0.samples == s.samples,
    decreases fills.len(),
{
    if fills.len() > 0 {
        lemma_settle_keeps_books(s, fills.drop_last(), side, ty);
    }
}

pub proof fn lemma_settle_none_extends(s: EngineView, fills: Seq<Fill>, k: int, side: OrderSide, ty: OrderType)
    requires
        0 <= k <= fills.len(),
        settle_all(s, fills.take(k), side, ty) is None,
    ensures
        settle_all(s, fills, side, ty) is None,
    decreases fills.len() - k,
{
    if k == fills.len() {
        assert(fills.take(k) =~= fills);
    } else {
        assert(fills.take(k + 1).drop_last() =~= fills.take(k));
        lemma_settle_none_extends(s, fills, k + 1, side, ty);
    }
}

/// The median of three values as three compare-and-swap steps compute it:
/// order `a, b`, then `b, c`, then `a, b` again, and take the middle one.
pub open spec fn spec_median3(a: Dec, b: Dec, c: Dec) -> Dec {
    let (a1, b1) = if a.val() > b.val() {
        (b, a)
    } else {
        (a, b)
    };
    let (b2, c2) = if b1.val() > c.val() {
        (c, b1)
    } else {
        (b1, c)
    };
    let (a3, b3) = if a1.val() > b2.val() {
        (b2, a1)
    } else {
        (a1, b2)
    };
    b3
}

/// The median of three: the middle value, which is one of the three, with at
/// least two of the values at or below it and at least two at or above it.
pub fn median_of_three(a: Dec, b: Dec, c: Dec) -> (r: Dec)
    ensures
        r == spec_median3(a, b, c),
        r == a || r == b || r == c,
        (a.val() <= r.val()) as int + (b.val() <= r.val()) as int + (c.val() <= r.val()) as int >= 2,
        (a.val() >= r.val()) as int + (b.val() >= r.val()) as int + (c.val() >= r.val()) as int >= 2,
{
    let mut a = a;
    let mut b = b;
    let mut c = c;
    if a.gt(&b) {
        let t = a;
        a = b;
        b = t;
    }
    if b.gt(&c) {
        let t = b;
        b = c;
        c = t;
    }
    if a.gt(&b) {
        let t = a;
        a = b;
        b = t;
    }
    b
}

/// The size-weighted average entry price and the other position rules, as
/// `position_after` states them.
pub fn next_position(p: Position, delta: Dec, price: Dec) -> (r: Result<Position, DecimalOverflow>)
    ensures
        match r {
            Ok(q) => position_after(p, delta, price) == Some(q),
            Err(_) => position_after(p, delta, price) is None,
        },
{
    if p.size.is_zero() {
        return Ok(Position { size: delta, avg_entry_price: price, ..p });
    }
    if p.size.is_sign_positive() == delta.is_sign_positive() {
        let new_size = match p.size.add(delta) {
            Some(x) => x,
            None => {
                return Err(DecimalOverflow);
            },
        };
        let current_notional = match p.size.abs().mul(p.avg_entry_price) {
            Some(x) => x,
            None => {
                return Err(DecimalOverflow);
            },
        };
        let fill_notional = match delta.abs().mul(price) {
            Some(x) => x,
            None => {
                return Err(DecimalOverflow);
            },
        };
        let total = match current_notional.add(fill_notional) {
            Some(x) => x,
            None => {
                return Err(DecimalOverflow);
            },
        };
        let avg = match total.div(new_size.abs()) {
            Some(x) => x,
            None => {
                return Err(DecimalOverflow);
            },
        };
        Ok(Position { avg_entry_price: avg, size: new_size, ..p })
    } else {
        let current_abs = p.size.abs();
        let delta_abs = delta.abs();
        if delta_abs.lt(&current_abs) {
            match p.size.add(delta) {
                Some(s) => Ok(Position { size: s, ..p }),
                None => Err(DecimalOverflow),
            }
        } else if delta_abs.eq_value(&current_abs) {
            Ok(
                Position {
                    size: Dec::zero(),
                    avg_entry_price: Dec::zero(),
                    unrealized_pnl: Dec::zero(),
                    ..p
                },
            )
        } else {
            match delta_abs.sub(current_abs) {
                Some(rem) => {
                    let size = if delta.is_sign_positive() {
                        rem
                    } else {
                        rem.neg()
                    };
                    Ok(Position { size, avg_entry_price: price, ..p })
                },
                None => Err(DecimalOverflow),
            }
        }
    }
}

/// The position once a limit order is placed on isolated margin: see
/// `isolated_margin`.
pub fn isolate_margin(
    p: Position,
    side: OrderSide,
    price: Dec,
    quantity: Dec,
    leverage: Dec,
    notional: Dec,
) -> (r: Result<Position, DecimalOverflow>)
    ensures
        match r {
            Ok(q) => isolated_margin(p, side, price, quantity, leverage, notional) == Some(q),
            Err(_) => isolated_margin(p, side, price, quantity, leverage, notional) is None,
        },
{
    let zero = Dec::zero();
    if leverage.le(&zero) || quantity.le(&zero) {
        return Ok(p);
    }
    let long = match side {
        OrderSide::BUY => true,
        OrderSide::SELL => false,
    };
    let margin = match notional.div(leverage) {
        Some(x) => x,
        None => {
            return Err(DecimalOverflow);
        },
    };
    let per_unit = match margin.div(quantity) {
        Some(x) => x,
        None => {
            return Err(DecimalOverflow);
        },
    };
    let shifted = if long {
        price.sub(per_unit)
    } else {
        price.add(per_unit)
    };
    let x = match shifted {
        Some(x) => x,
        None => {
            return Err(DecimalOverflow);
        },
    };
    let factor = if long {
        Dec::new(99, 2)
    } else {
        Dec::new(101, 2)
    };
    let liq = match x.div(factor) {
        Some(l) => l,
        None => {
            return Err(DecimalOverflow);
        },
    };
    Ok(
        Position {
            margin,
            leverage,
            side: if long {
                PositionSide::Long
            } else {
                PositionSide::Short
            },
            liquidation_price: liq,
            ..p
        },
    )
}

impl ExecuteEngine {
    /// Replaces a user's position in a market.
    pub(crate) fn store_position(&mut self, user_id: u128, market: Market, p: Position)
        ensures
            final(self)@ == old(self)@.with_position(user_id, market, p),
    {
        let mut pm = match self.user_positions.get(&user_id) {
            Some(m) => *m,
            None => MarketMap::empty(),
        };
        let ghost pm0 = pm@;
        pm.insert(market, p);
        self.user_positions.insert(user_id, pm);
        proof {
            let want = old(self)@.with_position(user_id, market, p);
            assert(pm0 == (if old(self)@.positions.contains_key(user_id) {
                old(self)@.positions[user_id]
            } else {
                Map::empty()
            }));
            assert(self@.positions =~= want.positions);
            assert(self@ =~= want);
        }
    }

    /// A user's position in a market, or a flat one.
    pub(crate) fn position_of(&self, user_id: u128, market: Market) -> (r: Position)
        ensures
            r == self@.position(user_id, market),
    {
        let flat = Position {
            market,
            size: Dec::zero(),
            avg_entry_price: Dec::zero(),
            unrealized_pnl: Dec::zero(),
            margin: Dec::zero(),
            leverage: Dec::zero(),
            side: PositionSide::Flat,
            liquidation_price: Dec::zero(),
        };
        match self.user_positions.get(&user_id) {
            Some(m) => m.get_or(market, flat),
            None => flat,
        }
    }
}

} // verus!

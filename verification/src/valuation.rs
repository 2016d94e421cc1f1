//! Valuation: mark prices, unrealized profit, premium sampling and funding.
use crate::decimal::{Dec, DecimalOverflow, dec_add, dec_sub, dec_mul, dec_div, spec_zero, spec_max, spec_clamp, decimal_rounded, abs_of};
use crate::engine::{EngineView, ExecuteEngine, debit, spec_median3, median_of_three};
use crate::market_map::MarketMap;
use crate::orderbook::{BookView, LevelView, impact_price, levels_view};
use crate::types::{FundingTelemetry, LiquidationNotice, MarkPriceTelemetry, Market, Position, market_index, spec_all_markets};
use std::collections::HashMap;
use vstd::prelude::*;
use vstd::std_specs::hash::{group_hash_axioms, spec_keys_iter};
use vstd::std_specs::iter::IteratorSpec;

verus! {

broadcast use {group_hash_axioms, crate::decimal::lemma_zero_scaled};

/// `1.0`, the fallback for a missing index or mark price.
pub open spec fn one() -> Dec {
    Dec::spec_new(10, 1)
}

/// The smoothing factor of the mid-price average, `0.002663`.
pub open spec fn alpha() -> Dec {
    Dec::spec_new(2663, 6)
}

/// The notional at which impact prices are taken, `1000.00`.
pub open spec fn impact_notional() -> Dec {
    Dec::spec_new(100000, 2)
}

/// The samples that close a funding window.
pub const SAMPLES_PER_WINDOW: usize = 12;

/// The position with its unrealized profit at `mark`: zero for a flat
/// position, else `size * (mark - entry)`.
pub open spec fn recalibrated(p: Position, mark: Dec) -> Option<Position> {
    if p.size.val() == 0 {
        Some(Position { unrealized_pnl: spec_zero(), ..p })
    } else {
        match dec_sub(mark, p.avg_entry_price) {
            None => None,
            Some(d) => match dec_mul(p.size, d) {
                None => None,
                Some(u) => Some(Position { unrealized_pnl: u, ..p }),
            },
        }
    }
}

/// The maintenance margin requirement: one percent of a position's notional
/// at the mark.
pub open spec fn maintenance_ratio() -> Dec {
    Dec::spec_new(1, 2)
}

/// Whether a revalued position is liquidated at `mark`: a non-flat position
/// whose equity (margin plus unrealized profit) is below the maintenance
/// requirement `|size| * mark * 0.01`. `None` on overflow.
pub open spec fn liquidates(p: Position, mark: Dec) -> Option<bool> {
    if p.size.val() == 0 {
        Some(false)
    } else {
        match dec_add(p.margin, p.unrealized_pnl) {
            None => None,
            Some(equity) => match dec_mul(abs_of(p.size), mark) {
                None => None,
                Some(notional) => match dec_mul(notional, maintenance_ratio()) {
                    None => None,
                    Some(requirement) => Some(equity.val() < requirement.val()),
                },
            },
        }
    }
}

/// A user's positions with the one in `m` revalued, and removed where it is
/// liquidated.
pub open spec fn recalibrated_user(pm: Map<Market, Position>, m: Market, mark: Dec) -> Option<
    Map<Market, Position>,
> {
    if pm.contains_key(m) {
        match recalibrated(pm[m], mark) {
            None => None,
            Some(p) => match liquidates(p, mark) {
                None => None,
                Some(true) => Some(pm.remove(m)),
                Some(false) => Some(pm.insert(m, p)),
            },
        }
    } else {
        Some(pm)
    }
}

/// Every user's position in `m` can be revalued.
pub open spec fn recalibration_fits(positions: Map<u128, Map<Market, Position>>, m: Market, mark: Dec) -> bool {
    forall|u: u128| #[trigger] positions.contains_key(u) ==> recalibrated_user(positions[u], m, mark) is Some
}

/// Every user's position in `m` revalued.
pub open spec fn recalibrated_all(positions: Map<u128, Map<Market, Position>>, m: Market, mark: Dec) -> Map<
    u128,
    Map<Market, Position>,
> {
    Map::new(
        |u: u128| positions.contains_key(u),
        |u: u128| recalibrated_user(positions[u], m, mark)->0,
    )
}

/// User `u`'s position in `m` is liquidated when revalued at `mark`.
pub open spec fn liquidated(positions: Map<u128, Map<Market, Position>>, m: Market, mark: Dec, u: u128) -> bool {
    &&& positions.contains_key(u)
    &&& positions[u].contains_key(m)
    &&& recalibrated(positions[u][m], mark) matches Some(p) && liquidates(p, mark) == Some(true)
}

/// The notice of user `u`'s liquidation in `m` at `mark`.
pub open spec fn notice_of(positions: Map<u128, Map<Market, Position>>, m: Market, mark: Dec, u: u128) -> LiquidationNotice {
    LiquidationNotice {
        user_id: u,
        market: m,
        wiped_margin: positions[u][m].margin,
        execution_mark: mark,
    }
}

/// `notices` announces each liquidation in `m` at `mark` once (in the order
/// in which the users were visited).
pub open spec fn announces(
    notices: Seq<LiquidationNotice>,
    positions: Map<u128, Map<Market, Position>>,
    m: Market,
    mark: Dec,
) -> bool {
    exists|us: Seq<u128>|
        {
            &&& us.no_duplicates()
            &&& us.to_set() == Set::new(|u: u128| liquidated(positions, m, mark, u))
            &&& notices == us.map_values(|u: u128| notice_of(positions, m, mark, u))
        }
}

/// The mark price for `m`, or `1.0`.
pub open spec fn mark_or_one(s: EngineView, m: Market) -> Dec {
    if s.mark_prices.contains_key(m) {
        s.mark_prices[m]
    } else {
        one()
    }
}

/// The index price for `m`, or `1.0`.
pub open spec fn index_or_one(s: EngineView, m: Market) -> Dec {
    if s.index_prices.contains_key(m) {
        s.index_prices[m]
    } else {
        one()
    }
}

pub open spec fn best_price(levels: Seq<LevelView>) -> Option<Dec> {
    if levels.len() > 0 {
        Some(levels[0].price)
    } else {
        None
    }
}

/// The three candidates of a mark price and the smoothing state after them:
/// `c1` is the index plus an exponential average (factor `alpha`) of the
/// book mid's distance from the index, `c2` the median of best bid, best ask
/// and last trade, `c3` the external mark; without both a bid and an ask,
/// `c1` and `c2` are the index and the average is left alone. `None` on
/// overflow.
pub open spec fn mark_candidates(s: EngineView, m: Market) -> Option<(Map<Market, Dec>, Dec, Dec, Dec)> {
    let index = index_or_one(s, m);
    let book = s.book(m);
    let c3 = if s.external_marks.contains_key(m) {
        s.external_marks[m]
    } else {
        index
    };
    let last_trade = if s.last_trade_prices.contains_key(m) {
        s.last_trade_prices[m]
    } else {
        index
    };
    match (best_price(book.bids), best_price(book.asks)) {
        (Some(bid), Some(ask)) => {
            let prev = if s.c1_ema_state.contains_key(m) {
                s.c1_ema_state[m]
            } else {
                spec_zero()
            };
            match dec_add(bid, ask) {
                None => None,
                Some(sum) => match dec_div(sum, Dec::spec_new(20, 1)) {
                    None => None,
                    Some(mid) => match dec_sub(mid, index) {
                        None => None,
                        Some(diff) => match dec_mul(alpha(), diff) {
                            None => None,
                            Some(x) => match dec_sub(one(), alpha()) {
                                None => None,
                                Some(keep) => match dec_mul(keep, prev) {
                                    None => None,
                                    Some(y) => match dec_add(x, y) {
                                        None => None,
                                        Some(ema) => match dec_add(index, ema) {
                                            None => None,
                                            Some(c1) => Some(
                                                (
                                                    s.c1_ema_state.insert(m, ema),
                                                    c1,
                                                    spec_median3(bid, ask, last_trade),
                                                    c3,
                                                ),
                                            ),
                                        },
                                    },
                                },
                            },
                        },
                    },
                },
            }
        },
        _ => Some((s.c1_ema_state, index, index, c3)),
    }
}

/// One market's mark price: the median of the three candidates rounded to
/// four decimals, recorded with the smoothing state, and every position in
/// the market revalued at it, the liquidated ones removed (see
/// `recalibrated_user`).
pub open spec fn mark_step(s: EngineView, m: Market) -> Option<(EngineView, MarkPriceTelemetry)> {
    match mark_candidates(s, m) {
        None => None,
        Some((ema, c1, c2, c3)) => {
            let mark = decimal_rounded(spec_median3(c1, c2, c3), 4);
            let s1 = EngineView { c1_ema_state: ema, mark_prices: s.mark_prices.insert(m, mark), ..s };
            if recalibration_fits(s1.positions, m, mark) {
                Some(
                    (
                        EngineView { positions: recalibrated_all(s1.positions, m, mark), ..s1 },
                        MarkPriceTelemetry {
                            market: m,
                            market_price: mark,
                            c1_smoothed: c1,
                            c2_local: c2,
                            c3_external: c3,
                        },
                    ),
                )
            } else {
                None
            }
        },
    }
}

/// The notices of the mark tick announce, market by market, the positions
/// liquidated at each market's new mark, starting from the state that market
/// was marked in.
pub open spec fn marks_announce(
    s: EngineView,
    l1: Seq<LiquidationNotice>,
    l2: Seq<LiquidationNotice>,
    l3: Seq<LiquidationNotice>,
) -> bool {
    match mark_step(s, Market::SOL_PERP) {
        None => false,
        Some((s1, t1)) => match mark_step(s1, Market::BTC_PERP) {
            None => false,
            Some((s2, t2)) => match mark_step(s2, Market::ETH_PERP) {
                None => false,
                Some((_, t3)) => {
                    &&& announces(l1, s.positions, Market::SOL_PERP, t1.market_price)
                    &&& announces(l2, s1.positions, Market::BTC_PERP, t2.market_price)
                    &&& announces(l3, s2.positions, Market::ETH_PERP, t3.market_price)
                },
            },
        },
    }
}

/// Mark prices for every market in turn, with their telemetry.
pub open spec fn mark_all(s: EngineView) -> Option<(EngineView, Seq<MarkPriceTelemetry>)> {
    match mark_step(s, Market::SOL_PERP) {
        None => None,
        Some((s1, t1)) => match mark_step(s1, Market::BTC_PERP) {
            None => None,
            Some((s2, t2)) => match mark_step(s2, Market::ETH_PERP) {
                None => None,
                Some((s3, t3)) => Some((s3, seq![t1, t2, t3])),
            },
        },
    }
}

/// The sum of the samples from zero, in order; `None` on overflow.
pub open spec fn sum_decs(v: Seq<Dec>) -> Option<Dec>
    decreases v.len(),
{
    if v.len() == 0 {
        Some(spec_zero())
    } else {
        match sum_decs(v.drop_last()) {
            None => None,
            Some(x) => dec_add(x, v.last()),
        }
    }
}

/// The hourly funding rate from the window's samples: the mean premium plus
/// the interest leg `0.0001 - mean` clamped to `±0.0005`, over 8, clamped to
/// `±0.04`.
pub open spec fn funding_rate(samples: Seq<Dec>) -> Option<Dec> {
    match sum_decs(samples) {
        None => None,
        Some(sum) => match dec_div(sum, Dec::spec_new(samples.len() as int, 0)) {
            None => None,
            Some(mean) => match dec_sub(Dec::spec_new(1, 4), mean) {
                None => None,
                Some(dev) => {
                    let clamped = spec_clamp(dev, Dec::spec_new(-5, 4), Dec::spec_new(5, 4));
                    match dec_add(mean, clamped) {
                        None => None,
                        Some(f8) => match dec_div(f8, Dec::spec_new(80, 1)) {
                            None => None,
                            Some(h) => Some(
                                spec_clamp(h, Dec::spec_new(-4, 2), Dec::spec_new(4, 2)),
                            ),
                        },
                    }
                },
            },
        },
    }
}

/// User `u` holds a non-flat position in `m`.
pub open spec fn pays_funding(s: EngineView, u: u128, m: Market) -> bool {
    s.positions.contains_key(u) && s.positions[u].contains_key(m) && s.positions[u][m].size.val() != 0
}

/// The funding a position pays: `size * rate * index` (negative sizes
/// receive).
pub open spec fn funding_payment(p: Position, rate: Dec, index: Dec) -> Option<Dec> {
    match dec_mul(p.size, rate) {
        None => None,
        Some(x) => dec_mul(x, index),
    }
}

/// Every payment, and every debit of a wallet, can be computed.
pub open spec fn funding_fits(s: EngineView, m: Market, rate: Dec, index: Dec) -> bool {
    forall|u: u128|
        #[trigger] pays_funding(s, u, m) ==> {
            &&& funding_payment(s.positions[u][m], rate, index) is Some
            &&& s.wallets.contains_key(u) ==> debit(
                s.wallets[u],
                funding_payment(s.positions[u][m], rate, index)->0,
            ) is Some
        }
}

/// Each wallet of a user with a non-flat position in `m` pays its funding
/// from the available balance.
pub open spec fn funded_wallets(s: EngineView, m: Market, rate: Dec, index: Dec) -> Map<u128, crate::types::UserBalance> {
    Map::new(
        |u: u128| s.wallets.contains_key(u),
        |u: u128|
            if pays_funding(s, u, m) {
                debit(s.wallets[u], funding_payment(s.positions[u][m], rate, index)->0)->0
            } else {
                s.wallets[u]
            },
    )
}

/// Every payment can also be taken from its position's margin.
pub open spec fn margin_fits(s: EngineView, m: Market, rate: Dec, index: Dec) -> bool {
    forall|u: u128|
        #[trigger] pays_funding(s, u, m) ==> dec_sub(
            s.positions[u][m].margin,
            funding_payment(s.positions[u][m], rate, index)->0,
        ) is Some
}

/// Each non-flat position in `m` with its funding payment taken from its
/// isolated margin.
pub open spec fn funded_positions(s: EngineView, m: Market, rate: Dec, index: Dec) -> Map<u128, Map<Market, Position>> {
    Map::new(
        |u: u128| s.positions.contains_key(u),
        |u: u128|
            if pays_funding(s, u, m) {
                s.positions[u].insert(
                    m,
                    Position {
                        margin: dec_sub(
                            s.positions[u][m].margin,
                            funding_payment(s.positions[u][m], rate, index)->0,
                        )->0,
                        ..s.positions[u][m]
                    },
                )
            } else {
                s.positions[u]
            },
    )
}

/// Closing the funding window of `m`: nothing happens without samples;
/// otherwise the samples are cleared, the rate is recorded, and every
/// non-flat position pays `size * rate * index` from its owner's wallet and
/// from its own isolated margin.
pub open spec fn settle_window(s: EngineView, m: Market) -> Option<EngineView> {
    let i = market_index(m) as int;
    let samples = s.samples[i];
    if samples.len() == 0 {
        Some(s)
    } else {
        match funding_rate(samples) {
            None => None,
            Some(rate) => {
                let index = index_or_one(s, m);
                if funding_fits(s, m, rate, index) && margin_fits(s, m, rate, index) {
                    Some(
                        EngineView {
                            samples: s.samples.update(i, Seq::empty()),
                            funding_rates: s.funding_rates.insert(m, rate),
                            wallets: funded_wallets(s, m, rate, index),
                            positions: funded_positions(s, m, rate, index),
                            ..s
                        },
                    )
                } else {
                    None
                }
            },
        }
    }
}

/// An impact price, or the index where the book cannot absorb the notional.
pub open spec fn impact_or(r: Result<Option<Dec>, DecimalOverflow>, index: Dec) -> Option<Dec> {
    match r {
        Err(_) => None,
        Ok(None) => Some(index),
        Ok(Some(x)) => Some(x),
    }
}

/// The premium index of a market: `(max(bid impact - index, 0) -
/// max(index - ask impact, 0)) / index`.
pub open spec fn premium_index(book: BookView, index: Dec) -> Option<Dec> {
    match impact_or(impact_price(book.bids, false, impact_notional()), index) {
        None => None,
        Some(bid_impact) => match impact_or(impact_price(book.asks, true, impact_notional()), index) {
            None => None,
            Some(ask_impact) => match dec_sub(bid_impact, index) {
                None => None,
                Some(d1) => match dec_sub(index, ask_impact) {
                    None => None,
                    Some(d2) => match dec_sub(spec_max(d1, spec_zero()), spec_max(d2, spec_zero())) {
                        None => None,
                        Some(ipd) => dec_div(ipd, index),
                    },
                },
            },
        },
    }
}

/// One market's premium sample: appended to the window, which closes when it
/// holds twelve samples; otherwise the funding telemetry is published.
pub open spec fn sample_step(s: EngineView, m: Market) -> Option<(EngineView, Seq<FundingTelemetry>)> {
    let i = market_index(m) as int;
    let index = index_or_one(s, m);
    match premium_index(s.book(m), index) {
        None => None,
        Some(p) => {
            let s1 = EngineView { samples: s.samples.update(i, s.samples[i].push(p)), ..s };
            if s1.samples[i].len() >= 12 {
                match settle_window(s1, m) {
                    None => None,
                    Some(s2) => Some((s2, Seq::empty())),
                }
            } else {
                let rate = if s.funding_rates.contains_key(m) {
                    s.funding_rates[m]
                } else {
                    spec_zero()
                };
                Some(
                    (
                        s1,
                        seq![
                            FundingTelemetry {
                                market: m,
                                index_price: index,
                                premium_index: p,
                                current_hourly_rate: rate,
                            },
                        ],
                    ),
                )
            }
        },
    }
}

/// Premium samples for every market in turn.
pub open spec fn sample_all(s: EngineView) -> Option<(EngineView, Seq<FundingTelemetry>)> {
    match sample_step(s, Market::SOL_PERP) {
        None => None,
        Some((s1, t1)) => match sample_step(s1, Market::BTC_PERP) {
            None => None,
            Some((s2, t2)) => match sample_step(s2, Market::ETH_PERP) {
                None => None,
                Some((s3, t3)) => Some((s3, t1 + t2 + t3)),
            },
        },
    }
}

pub proof fn lemma_sum_decs_none_extends(v: Seq<Dec>, k: int)
    requires
        0 <= k <= v.len(),
        sum_decs(v.take(k)) is None,
    ensures
        sum_decs(v) is None,
    decreases v.len() - k,
{
    if k == v.len() {
        assert(v.take(k) =~= v);
    } else {
        assert(v.take(k + 1).drop_last() =~= v.take(k));
        lemma_sum_decs_none_extends(v, k + 1);
    }
}

/// Whether a revalued position is liquidated: see `liquidates`.
fn is_liquidated(p: Position, mark: Dec) -> (r: Result<bool, DecimalOverflow>)
    ensures
        match r {
            Ok(b) => liquidates(p, mark) == Some(b),
            Err(_) => liquidates(p, mark) is None,
        },
{
    if p.size.is_zero() {
        return Ok(false);
    }
    let equity = match p.margin.add(p.unrealized_pnl) {
        Some(x) => x,
        None => {
            return Err(DecimalOverflow);
        },
    };
    let notional = match p.size.abs().mul(mark) {
        Some(x) => x,
        None => {
            return Err(DecimalOverflow);
        },
    };
    let requirement = match notional.mul(Dec::new(1, 2)) {
        Some(x) => x,
        None => {
            return Err(DecimalOverflow);
        },
    };
    Ok(equity.lt(&requirement))
}

/// The users that hold positions, each once.
fn position_holders(positions: &HashMap<u128, MarketMap<Position>>) -> (r: Vec<u128>)
    ensures
        r@.no_duplicates(),
        r@.to_set() == positions@.dom(),
{
    let ghost keys = spec_keys_iter(positions).remaining().unref();
    let mut out: Vec<u128> = Vec::new();
    for k in it: positions.keys()
        invariant
            keys == it.seq().unref(),
            out@ == keys.take(it.index()),
    {
        assert(keys.take(it.index() + 1) =~= out@.push(*k));
        out.push(*k);
    }
    assert(out@ =~= keys);
    out
}

impl ExecuteEngine {

    /// The three candidates of the mark price of `m`, with the new smoothing
    /// average where the book has both sides: see `mark_candidates`.
    fn candidates(&self, m: Market) -> (r: Result<(Option<Dec>, Dec, Dec, Dec), DecimalOverflow>)
        requires
            self@.wf(),
        ensures
            match r {
                Ok((ema, c1, c2, c3)) => mark_candidates(self@, m) == Some(
                    (
                        match ema {
                            Some(e) => self@.c1_ema_state.insert(m, e),
                            None => self@.c1_ema_state,
                        },
                        c1,
                        c2,
                        c3,
                    ),
                ),
                Err(_) => mark_candidates(self@, m) is None,
            },
    {
        let one = Dec::new(10, 1);
        let index = self.index_prices.get_or(m, one);
        let i = m.index();
        assert(self@.book(m) == self.orderbooks@[i as int]@);
        let best_bid = self.orderbooks[i].peek_best_bid();
        let best_ask = self.orderbooks[i].peek_best_ask();
        let alpha = Dec::new(2663, 6);
        let last_trade = self.last_trade_prices.get_or(m, index);
        let c3 = self.external_marks.get_or(m, index);
        match (best_bid, best_ask) {
            (Some(bid), Some(ask)) => {
                let sum = match bid.add(ask) {
                    Some(x) => x,
                    None => {
                        return Err(DecimalOverflow);
                    },
                };
                let mid = match sum.div(Dec::new(20, 1)) {
                    Some(x) => x,
                    None => {
                        return Err(DecimalOverflow);
                    },
                };
                let diff = match mid.sub(index) {
                    Some(x) => x,
                    None => {
                        return Err(DecimalOverflow);
                    },
                };
                let prev = self.c1_ema_state.get_or(m, Dec::zero());
                let x = match alpha.mul(diff) {
                    Some(x) => x,
                    None => {
                        return Err(DecimalOverflow);
                    },
                };
                let keep = match one.sub(alpha) {
                    Some(x) => x,
                    None => {
                        return Err(DecimalOverflow);
                    },
                };
                let y = match keep.mul(prev) {
                    Some(x) => x,
                    None => {
                        return Err(DecimalOverflow);
                    },
                };
                let ema = match x.add(y) {
                    Some(x) => x,
                    None => {
                        return Err(DecimalOverflow);
                    },
                };
                let c1 = match index.add(ema) {
                    Some(x) => x,
                    None => {
                        return Err(DecimalOverflow);
                    },
                };
                Ok((Some(ema), c1, median_of_three(bid, ask, last_trade), c3))
            },
            _ => Ok((None, index, index, c3)),
        }
    }


    /// The premium index of market `m`: see `premium_index`.
    fn premium_of(&self, m: Market, index: Dec) -> (r: Result<Dec, DecimalOverflow>)
        requires
            self@.wf(),
        ensures
            match r {
                Ok(p) => premium_index(self@.book(m), index) == Some(p),
                Err(_) => premium_index(self@.book(m), index) is None,
            },
    {
        let i = m.index();
        assert(self@.book(m) == self.orderbooks@[i as int]@);
        let notional = Dec::new(100000, 2);
        let bid_impact = match self.orderbooks[i].calculate_bid_impact(notional) {
            Err(e) => {
                return Err(e);
            },
            Ok(None) => index,
            Ok(Some(x)) => x,
        };
        let ask_impact = match self.orderbooks[i].calculate_ask_impact(notional) {
            Err(e) => {
                return Err(e);
            },
            Ok(None) => index,
            Ok(Some(x)) => x,
        };
        let zero = Dec::zero();
        let d1 = match bid_impact.sub(index) {
            Some(x) => x,
            None => {
                return Err(DecimalOverflow);
            },
        };
        let d2 = match index.sub(ask_impact) {
            Some(x) => x,
            None => {
                return Err(DecimalOverflow);
            },
        };
        let term_1 = d1.max(zero);
        let term_2 = d2.max(zero);
        let ipd = match term_1.sub(term_2) {
            Some(x) => x,
            None => {
                return Err(DecimalOverflow);
            },
        };
        match ipd.div(index) {
            Some(x) => Ok(x),
            None => Err(DecimalOverflow),
        }
    }

    /// One market's premium sample: see `sample_step`.
    fn sample_one(&mut self, m: Market) -> (r: Result<Vec<FundingTelemetry>, DecimalOverflow>)
        requires
            old(self)@.wf(),
        ensures
            match r {
                Ok(v) => sample_step(old(self)@, m) == Some((final(self)@, v@)),
                Err(_) => sample_step(old(self)@, m) is None,
            },
            r is Ok ==> final(self)@.wf(),
    {
        let ghost s0 = self@;
        let index = self.index_prices.get_or(m, Dec::new(10, 1));
        let premium = match self.premium_of(m, index) {
            Ok(p) => p,
            Err(e) => {
                return Err(e);
            },
        };
        let i = m.index();
        let mut samples = self.premium_samples.remove(i);
        samples.push(premium);
        let count = samples.len();
        self.premium_samples.insert(i, samples);
        assert(self.premium_samples@.map_values(|v: Vec<Dec>| v@) =~= s0.samples.update(
            i as int,
            s0.samples[i as int].push(premium),
        ));
        if count >= SAMPLES_PER_WINDOW {
            match self.settle_hourly_funding_window(m) {
                Ok(()) => {
                    let out: Vec<FundingTelemetry> = Vec::new();
                    assert(out@ =~= Seq::<FundingTelemetry>::empty());
                    Ok(out)
                },
                Err(e) => Err(e),
            }
        } else {
            let rate = self.current_funding_rates.get_or(m, Dec::zero());
            let mut out: Vec<FundingTelemetry> = Vec::new();
            out.push(FundingTelemetry {
                market: m,
                index_price: index,
                premium_index: premium,
                current_hourly_rate: rate,
            });
            Ok(out)
        }
    }

    /// Premium samples for every market in turn: see `sample_all`. Returns
    /// the telemetry to publish on each market's `funding` feed.
    pub fn sample_premium_indices(&mut self) -> (r: Result<Vec<FundingTelemetry>, DecimalOverflow>)
        requires
            old(self)@.wf(),
        ensures
            match r {
                Ok(v) => sample_all(old(self)@) == Some((final(self)@, v@)),
                Err(_) => sample_all(old(self)@) is None,
            },
            r is Ok ==> final(self)@.wf(),
    {
        let mut out = match self.sample_one(Market::SOL_PERP) {
            Ok(v) => v,
            Err(e) => {
                return Err(e);
            },
        };
        let mut t2 = match self.sample_one(Market::BTC_PERP) {
            Ok(v) => v,
            Err(e) => {
                return Err(e);
            },
        };
        let mut t3 = match self.sample_one(Market::ETH_PERP) {
            Ok(v) => v,
            Err(e) => {
                return Err(e);
            },
        };
        let ghost a = out@;
        let ghost b = t2@;
        let ghost c = t3@;
        out.append(&mut t2);
        out.append(&mut t3);
        assert(out@ =~= a + b + c);
        Ok(out)
    }

    /// One market's mark price: see `mark_step`.
    fn mark_one(&mut self, m: Market) -> (r: Result<
        (MarkPriceTelemetry, Vec<LiquidationNotice>),
        DecimalOverflow,
    >)
        requires
            old(self)@.wf(),
        ensures
            match r {
                Ok((t, notices)) => mark_step(old(self)@, m) == Some((final(self)@, t)) && announces(
                    notices@,
                    old(self)@.positions,
                    m,
                    t.market_price,
                ),
                Err(_) => mark_step(old(self)@, m) is None,
            },
            r is Ok ==> final(self)@.books == old(self)@.books,
            r is Ok ==> final(self)@.samples == old(self)@.samples,
    {
        let ghost s0 = self@;
        let one = Dec::new(10, 1);
        let index = self.index_prices.get_or(m, one);
        let (ema, c1, c2, c3) = match self.candidates(m) {
            Ok(x) => x,
            Err(e) => {
                return Err(e);
            },
        };
        match ema {
            Some(e) => {
                self.c1_ema_state.insert(m, e);
            },
            None => {},
        }
        let raw_mark = median_of_three(c1, c2, c3);
        let final_mark = raw_mark.round_dp(4);
        self.mark_prices.insert(m, final_mark);
        let ghost s1 = self@;
        let notices = match self.recalibrate_unrealized_pnl_matrix(m) {
            Ok(n) => n,
            Err(e) => {
                return Err(e);
            },
        };
        Ok(
            (
                MarkPriceTelemetry {
                    market: m,
                    market_price: final_mark,
                    c1_smoothed: c1,
                    c2_local: c2,
                    c3_external: c3,
                },
                notices,
            ),
        )
    }

    /// Mark prices for every market in turn: see `mark_all`. Returns, for
    /// each market in order, the telemetry to publish on its `mark_price`
    /// feed and the notices of the positions liquidated at that mark (see
    /// `announces`).
    pub fn calculate_all_market_mark_prices(&mut self) -> (r: Result<
        Vec<(MarkPriceTelemetry, Vec<LiquidationNotice>)>,
        DecimalOverflow,
    >)
        requires
            old(self)@.wf(),
        ensures
            match r {
                Ok(v) => v@.len() == 3 && mark_all(old(self)@) == Some(
                    (final(self)@, seq![v@[0].0, v@[1].0, v@[2].0]),
                ) && marks_announce(old(self)@, v@[0].1@, v@[1].1@, v@[2].1@),
                Err(_) => mark_all(old(self)@) is None,
            },
            r is Ok ==> final(self)@.wf(),
    {
        let ghost s0 = self@;
        let mut out: Vec<(MarkPriceTelemetry, Vec<LiquidationNotice>)> = Vec::new();
        let (t1, n1) = match self.mark_one(Market::SOL_PERP) {
            Ok(t) => t,
            Err(e) => {
                return Err(e);
            },
        };
        let ghost s1 = self@;
        let (t2, n2) = match self.mark_one(Market::BTC_PERP) {
            Ok(t) => t,
            Err(e) => {
                return Err(e);
            },
        };
        let ghost s2 = self@;
        let (t3, n3) = match self.mark_one(Market::ETH_PERP) {
            Ok(t) => t,
            Err(e) => {
                return Err(e);
            },
        };
        let ghost (g1, g2, g3) = (n1@, n2@, n3@);
        out.push((t1, n1));
        out.push((t2, n2));
        out.push((t3, n3));
        assert(out@[0].1@ == g1 && out@[1].1@ == g2 && out@[2].1@ == g3);
        Ok(out)
    }

    /// Closes the funding window of `market`: see `settle_window`.
    pub fn settle_hourly_funding_window(&mut self, market: Market) -> (r: Result<(), DecimalOverflow>)
        requires
            old(self)@.wf(),
        ensures
            match r {
                Ok(()) => settle_window(old(self)@, market) == Some(final(self)@),
                Err(_) => settle_window(old(self)@, market) is None,
            },
            r is Ok ==> final(self)@.wf(),
    {
        let ghost s0 = self@;
        let i = market.index();
        let n = self.premium_samples[i].len();
        assert(s0.samples[i as int] == self.premium_samples@[i as int]@);
        if n == 0 {
            return Ok(());
        }
        let mut sum = Dec::zero();
        let mut k: usize = 0;
        while k < n
            invariant
                k <= n,
                i < 3,
                n == self.premium_samples@[i as int]@.len(),
                self@ == s0,
                s0 == old(self)@,
                i == market_index(market),
                s0.wf(),
                sum_decs(self.premium_samples@[i as int]@.take(k as int)) == Some(sum),
            decreases n - k,
        {
            let ghost v = self.premium_samples@[i as int]@;
            assert(v.take(k + 1).drop_last() =~= v.take(k as int));
            match sum.add(self.premium_samples[i][k]) {
                Some(x) => {
                    sum = x;
                },
                None => {
                    proof {
                        lemma_sum_decs_none_extends(v, k + 1);
                    }
                    return Err(DecimalOverflow);
                },
            }
            k = k + 1;
        }
        assert(self.premium_samples@[i as int]@.take(n as int) =~= self.premium_samples@[i as int]@);
        assert(sum_decs(s0.samples[i as int]) == Some(sum));
        let count = Dec::from_usize(n);
        assert(count == Dec::spec_new(s0.samples[i as int].len() as int, 0));
        let mean = match sum.div(count) {
            Some(x) => x,
            None => {
                assert(funding_rate(s0.samples[i as int]) is None);
                return Err(DecimalOverflow);
            },
        };
        let _ = self.premium_samples.remove(i);
        self.premium_samples.insert(i, Vec::new());
        let dev = match Dec::new(1, 4).sub(mean) {
            Some(x) => x,
            None => {
                return Err(DecimalOverflow);
            },
        };
        let lo5 = Dec::new(-5, 4);
        let hi5 = Dec::new(5, 4);
        proof {
            crate::decimal::lemma_same_scale_order(lo5, hi5);
        }
        let clamped = dev.clamp(lo5, hi5);
        let f8 = match mean.add(clamped) {
            Some(x) => x,
            None => {
                return Err(DecimalOverflow);
            },
        };
        let h = match f8.div(Dec::new(80, 1)) {
            Some(x) => x,
            None => {
                return Err(DecimalOverflow);
            },
        };
        let lo4 = Dec::new(-4, 2);
        let hi4 = Dec::new(4, 2);
        proof {
            crate::decimal::lemma_same_scale_order(lo4, hi4);
        }
        let rate = h.clamp(lo4, hi4);
        assert(funding_rate(s0.samples[i as int]) == Some(rate));
        self.current_funding_rates.insert(market, rate);
        let index = self.index_prices.get_or(market, Dec::new(10, 1));
        let ghost s1 = self@;
        assert(s1.samples =~= s0.samples.update(i as int, Seq::empty()));
        let users = position_holders(&self.user_positions);
        let mut j: usize = 0;
        while j < users.len()
            invariant
                j <= users@.len(),
                users@.no_duplicates(),
                users@.to_set() == s0.positions.dom(),
                index == index_or_one(s0, market),
                s0 == old(self)@,
                i == market_index(market),
                s0.samples[i as int].len() > 0,
                funding_rate(s0.samples[i as int]) == Some(rate),
                self@ == (EngineView { wallets: self@.wallets, ..s1 }),
                s1.positions == s0.positions,
                self@.wallets.dom() == s0.wallets.dom(),
                forall|a: int|
                    0 <= a < j ==> #[trigger] pays_funding(s0, users@[a], market) ==> {
                        &&& funding_payment(s0.positions[users@[a]][market], rate, index) is Some
                        &&& s0.wallets.contains_key(users@[a]) ==> debit(
                            s0.wallets[users@[a]],
                            funding_payment(s0.positions[users@[a]][market], rate, index)->0,
                        ) is Some
                    },
                forall|u: u128|
                    self@.wallets.contains_key(u) ==> #[trigger] self@.wallets[u] == if users@.take(j as int).contains(u) {
                        funded_wallets(s0, market, rate, index)[u]
                    } else {
                        s0.wallets[u]
                    },
            decreases users.len() - j,
        {
            let u = users[j];
            assert(users@.to_set().contains(u));
            let ghost t1 = users@.take(j as int);
            let ghost t2 = users@.take(j + 1);
            assert(t2 =~= t1.push(u));
            assert(t2[j as int] == u);
            assert(!t1.contains(u)) by {
                if t1.contains(u) {
                    let a = choose|a: int| 0 <= a < t1.len() && t1[a] == u;
                    assert(users@[a] == users@[j as int]);
                }
            }
            assert(self@.positions == s0.positions);
            let pm = match self.user_positions.get(&u) {
                Some(x) => *x,
                None => MarketMap::empty(),
            };
            assert(pm@ == s0.positions[u]);
            let ghost w0 = self@.wallets;
            match pm.get(market) {
                Some(p) => {
                    if !p.size.is_zero() {
                        let x = match p.size.mul(rate) {
                            Some(x) => x,
                            None => {
                                assert(pays_funding(s0, u, market));
                                return Err(DecimalOverflow);
                            },
                        };
                        let payment = match x.mul(index) {
                            Some(x) => x,
                            None => {
                                assert(pays_funding(s0, u, market));
                                return Err(DecimalOverflow);
                            },
                        };
                        match self.user_wallets.get(&u) {
                            Some(w) => {
                                assert(*w == s0.wallets[u]);
                                let nw = match crate::engine::debit_balance(*w, payment) {
                                    Ok(x) => x,
                                    Err(e) => {
                                        assert(pays_funding(s0, u, market));
                                        return Err(e);
                                    },
                                };
                                self.user_wallets.insert(u, nw);
                            },
                            None => {},
                        }
                    }
                },
                None => {},
            }
            proof {
                assert forall|v: u128| self@.wallets.contains_key(v) implies #[trigger] self@.wallets[v] == if t2.contains(v) {
                    funded_wallets(s0, market, rate, index)[v]
                } else {
                    s0.wallets[v]
                } by {
                    if v != u {
                        assert(self@.wallets[v] == w0[v]);
                        if t1.contains(v) {
                            let a = choose|a: int| 0 <= a < t1.len() && t1[a] == v;
                            assert(t2[a] == v);
                        }
                        if t2.contains(v) {
                            let a = choose|a: int| 0 <= a < t2.len() && t2[a] == v;
                            assert(a != j);
                            assert(t1[a] == v);
                        }
                    }
                }
                assert forall|a: int|
                    0 <= a < j + 1 implies #[trigger] pays_funding(s0, users@[a], market) ==> {
                        &&& funding_payment(s0.positions[users@[a]][market], rate, index) is Some
                        &&& s0.wallets.contains_key(users@[a]) ==> debit(
                            s0.wallets[users@[a]],
                            funding_payment(s0.positions[users@[a]][market], rate, index)->0,
                        ) is Some
                    } by {}
            }
            j = j + 1;
        }
        proof {
            assert(users@.take(users@.len() as int) =~= users@);
            assert forall|u: u128| #[trigger] pays_funding(s0, u, market) implies {
                &&& funding_payment(s0.positions[u][market], rate, index) is Some
                &&& s0.wallets.contains_key(u) ==> debit(
                    s0.wallets[u],
                    funding_payment(s0.positions[u][market], rate, index)->0,
                ) is Some
            } by {
                assert(users@.to_set().contains(u));
                let a = choose|a: int| 0 <= a < users@.len() && users@[a] == u;
                assert(pays_funding(s0, users@[a], market));
            }
            assert forall|u: u128| self@.wallets.contains_key(u) implies self@.wallets[u] == funded_wallets(s0, market, rate, index)[u] by {
                if !users@.contains(u) {
                    assert(!s0.positions.contains_key(u)) by {
                        if s0.positions.contains_key(u) {
                            assert(users@.to_set().contains(u));
                        }
                    }
                }
            }
            assert(self@.wallets =~= funded_wallets(s0, market, rate, index));
        }
        let ghost s2 = self@;
        let mut j: usize = 0;
        while j < users.len()
            invariant
                j <= users@.len(),
                users@.no_duplicates(),
                users@.to_set() == s0.positions.dom(),
                index == index_or_one(s0, market),
                s0 == old(self)@,
                i == market_index(market),
                s0.samples[i as int].len() > 0,
                funding_rate(s0.samples[i as int]) == Some(rate),
                funding_fits(s0, market, rate, index),
                s2.positions == s0.positions,
                self@ == (EngineView { positions: self@.positions, ..s2 }),
                self@.positions.dom() == s0.positions.dom(),
                forall|a: int|
                    0 <= a < j ==> #[trigger] pays_funding(s0, users@[a], market) ==> dec_sub(
                        s0.positions[users@[a]][market].margin,
                        funding_payment(s0.positions[users@[a]][market], rate, index)->0,
                    ) is Some,
                forall|u: u128|
                    self@.positions.contains_key(u) ==> #[trigger] self@.positions[u] == if users@.take(
                        j as int,
                    ).contains(u) {
                        funded_positions(s0, market, rate, index)[u]
                    } else {
                        s0.positions[u]
                    },
            decreases users.len() - j,
        {
            let u = users[j];
            assert(users@.to_set().contains(u));
            let ghost t1 = users@.take(j as int);
            let ghost t2 = users@.take(j + 1);
            assert(t2 =~= t1.push(u));
            assert(t2[j as int] == u);
            assert(!t1.contains(u)) by {
                if t1.contains(u) {
                    let a = choose|a: int| 0 <= a < t1.len() && t1[a] == u;
                    assert(users@[a] == users@[j as int]);
                }
            }
            assert(s0.positions.contains_key(u));
            assert(self@.positions.contains_key(u));
            assert(self@.positions[u] == s0.positions[u]);
            let mut pm = match self.user_positions.get(&u) {
                Some(x) => *x,
                None => MarketMap::empty(),
            };
            assert(pm@ == s0.positions[u]);
            let ghost before = self@.positions;
            match pm.get(market) {
                Some(p) => {
                    if !p.size.is_zero() {
                        assert(pays_funding(s0, u, market));
                        assert(funding_payment(s0.positions[u][market], rate, index) is Some);
                        let x = p.size.mul(rate).unwrap();
                        let payment = x.mul(index).unwrap();
                        assert(payment == funding_payment(s0.positions[u][market], rate, index)->0);
                        let margin = match p.margin.sub(payment) {
                            Some(x) => x,
                            None => {
                                return Err(DecimalOverflow);
                            },
                        };
                        pm.insert(market, Position { margin, ..p });
                        self.user_positions.insert(u, pm);
                    }
                },
                None => {},
            }
            proof {
                assert forall|v: u128| self@.positions.contains_key(v) implies #[trigger] self@.positions[v]
                    == if t2.contains(v) {
                    funded_positions(s0, market, rate, index)[v]
                } else {
                    s0.positions[v]
                } by {
                    if v != u {
                        assert(self@.positions[v] == before[v]);
                        if t1.contains(v) {
                            let a = choose|a: int| 0 <= a < t1.len() && t1[a] == v;
                            assert(t2[a] == v);
                        }
                        if t2.contains(v) {
                            let a = choose|a: int| 0 <= a < t2.len() && t2[a] == v;
                            assert(a != j);
                            assert(t1[a] == v);
                        }
                    } else {
                        assert(t2.contains(u));
                    }
                }
                assert forall|a: int|
                    0 <= a < j + 1 implies #[trigger] pays_funding(s0, users@[a], market) ==> dec_sub(
                        s0.positions[users@[a]][market].margin,
                        funding_payment(s0.positions[users@[a]][market], rate, index)->0,
                    ) is Some by {}
            }
            j = j + 1;
        }
        proof {
            assert(users@.take(users@.len() as int) =~= users@);
            assert forall|u: u128| #[trigger] pays_funding(s0, u, market) implies dec_sub(
                s0.positions[u][market].margin,
                funding_payment(s0.positions[u][market], rate, index)->0,
            ) is Some by {
                assert(users@.to_set().contains(u));
                let a = choose|a: int| 0 <= a < users@.len() && users@[a] == u;
                assert(pays_funding(s0, users@[a], market));
            }
            assert forall|u: u128| self@.positions.contains_key(u) implies self@.positions[u]
                == funded_positions(s0, market, rate, index)[u] by {
                assert(users@.to_set().contains(u));
            }
            assert(self@.positions =~= funded_positions(s0, market, rate, index));
        }
        Ok(())
    }

    /// Revalues every position in `market` at the market's mark price (or
    /// `1.0`) and removes the liquidated ones: see `recalibrated_user`.
    pub fn recalibrate_unrealized_pnl_matrix(&mut self, market: Market) -> (r: Result<
        Vec<LiquidationNotice>,
        DecimalOverflow,
    >)
        ensures
            ({
                let mark = mark_or_one(old(self)@, market);
                match r {
                    Ok(notices) => recalibration_fits(old(self)@.positions, market, mark) && final(self)@
                        == (EngineView {
                        positions: recalibrated_all(old(self)@.positions, market, mark),
                        ..old(self)@
                    }) && announces(notices@, old(self)@.positions, market, mark),
                    Err(_) => !recalibration_fits(old(self)@.positions, market, mark),
                }
            }),
    {
        let mark_price = self.mark_prices.get_or(market, Dec::new(10, 1));
        let ghost s0 = self@;
        let users = position_holders(&self.user_positions);
        let mut notices: Vec<LiquidationNotice> = Vec::new();
        let ghost mut us: Seq<u128> = seq![];
        let mut i: usize = 0;
        while i < users.len()
            invariant
                i <= users@.len(),
                users@.no_duplicates(),
                users@.to_set() == s0.positions.dom(),
                mark_price == mark_or_one(s0, market),
                us.no_duplicates(),
                forall|u: u128|
                    #[trigger] us.contains(u) <==> users@.take(i as int).contains(u) && liquidated(
                        s0.positions,
                        market,
                        mark_price,
                        u,
                    ),
                notices@ == us.map_values(|v: u128| notice_of(s0.positions, market, mark_price, v)),
                s0 == old(self)@,
                self@ == (EngineView { positions: self@.positions, ..s0 }),
                self@.positions.dom() == s0.positions.dom(),
                forall|j: int|
                    0 <= j < i ==> recalibrated_user(s0.positions[#[trigger] users@[j]], market, mark_price)
                        is Some && self@.positions[users@[j]] == recalibrated_user(
                        s0.positions[users@[j]],
                        market,
                        mark_price,
                    )->0,
                forall|u: u128|
                    self@.positions.contains_key(u) && !users@.take(i as int).contains(u)
                        ==> #[trigger] self@.positions[u] == s0.positions[u],
            decreases users.len() - i,
        {
            let u = users[i];
            let ghost us0 = us;
            let ghost mut took = false;
            assert(users@.to_set().contains(u));
            assert(!users@.take(i as int).contains(u)) by {
                if users@.take(i as int).contains(u) {
                    let j = choose|j: int| 0 <= j < i && users@.take(i as int)[j] == u;
                    assert(users@[j] == users@[i as int]);
                }
            }
            assert(self@.positions.contains_key(u));
            let mut pm = match self.user_positions.get(&u) {
                Some(m) => *m,
                None => MarketMap::empty(),
            };
            assert(pm@ == self@.positions[u]);
            assert(pm@ == s0.positions[u]);
            match pm.get(market) {
                Some(p) => {
                    let np = if p.size.is_zero() {
                        Position { unrealized_pnl: Dec::zero(), ..p }
                    } else {
                        let d = match mark_price.sub(p.avg_entry_price) {
                            Some(x) => x,
                            None => {
                                assert(recalibrated_user(s0.positions[u], market, mark_price) is None);
                                assert(s0.positions.contains_key(u));
                                return Err(DecimalOverflow);
                            },
                        };
                        let upnl = match p.size.mul(d) {
                            Some(x) => x,
                            None => {
                                assert(recalibrated_user(s0.positions[u], market, mark_price) is None);
                                assert(s0.positions.contains_key(u));
                                return Err(DecimalOverflow);
                            },
                        };
                        Position { unrealized_pnl: upnl, ..p }
                    };
                    let wiped = match is_liquidated(np, mark_price) {
                        Ok(b) => b,
                        Err(e) => {
                            assert(recalibrated_user(s0.positions[u], market, mark_price) is None);
                            assert(s0.positions.contains_key(u));
                            return Err(e);
                        },
                    };
                    assert(recalibrated(s0.positions[u][market], mark_price) == Some(np));
                    if wiped {
                        pm.remove(market);
                        notices.push(
                            LiquidationNotice {
                                user_id: u,
                                market,
                                wiped_margin: p.margin,
                                execution_mark: mark_price,
                            },
                        );
                        proof {
                            assert(liquidated(s0.positions, market, mark_price, u));
                            assert(!us.contains(u));
                            let old_us = us;
                            us = us.push(u);
                            took = true;
                            assert(us.map_values(|v: u128| notice_of(s0.positions, market, mark_price, v))
                                =~= old_us.map_values(|v: u128| notice_of(s0.positions, market, mark_price, v)).push(
                                notice_of(s0.positions, market, mark_price, u),
                            ));
                        }
                    } else {
                        assert(!liquidated(s0.positions, market, mark_price, u));
                        pm.insert(market, np);
                    }
                },
                None => {
                    assert(!liquidated(s0.positions, market, mark_price, u));
                },
            }
            let ghost before = self@.positions;
            self.user_positions.insert(u, pm);
            proof {
                assert(self@.positions =~= before.insert(u, pm@));
                assert forall|v: u128|
                    self@.positions.contains_key(v) && !users@.take(i + 1).contains(v) implies #[trigger] self@.positions[v]
                        == s0.positions[v] by {
                    let t1 = users@.take(i as int);
                    let t2 = users@.take(i + 1);
                    assert(t2 =~= t1.push(u));
                    assert(t2[i as int] == u);
                    if t1.contains(v) {
                        let j = choose|j: int| 0 <= j < t1.len() && t1[j] == v;
                        assert(t2[j] == v);
                    }
                }
                assert forall|j: int|
                    0 <= j < i + 1 implies recalibrated_user(s0.positions[#[trigger] users@[j]], market, mark_price)
                        is Some && self@.positions[users@[j]] == recalibrated_user(
                        s0.positions[users@[j]],
                        market,
                        mark_price,
                    )->0 by {
                    if j < i {
                        assert(users@[j] != u);
                    }
                }
                let t1 = users@.take(i as int);
                let t2 = users@.take(i + 1);
                assert(t2 =~= t1.push(u));
                assert(took ==> us == us0.push(u) && liquidated(s0.positions, market, mark_price, u));
                assert(!took ==> us == us0 && !liquidated(s0.positions, market, mark_price, u));
                assert(!us0.contains(u));
                assert forall|v: u128|
                    #[trigger] us.contains(v) <==> t2.contains(v) && liquidated(
                        s0.positions,
                        market,
                        mark_price,
                        v,
                    ) by {
                    if took {
                        assert(us[us0.len() as int] == u);
                        if us0.contains(v) {
                            let k = choose|k: int| 0 <= k < us0.len() && us0[k] == v;
                            assert(us[k] == v);
                        }
                        if us.contains(v) && v != u {
                            let k = choose|k: int| 0 <= k < us.len() && us[k] == v;
                            assert(us0[k] == v);
                        }
                    }
                    if v != u {
                        assert(t2.contains(v) <==> t1.contains(v)) by {
                            if t2.contains(v) {
                                let k = choose|k: int| 0 <= k < t2.len() && t2[k] == v;
                                assert(t1[k] == v);
                            }
                            if t1.contains(v) {
                                let k = choose|k: int| 0 <= k < t1.len() && t1[k] == v;
                                assert(t2[k] == v);
                            }
                        }
                    } else {
                        assert(t2[i as int] == u);
                    }
                }
            }
            i = i + 1;
        }
        proof {
            assert forall|u: u128| #[trigger] s0.positions.contains_key(u) implies recalibrated_user(
                s0.positions[u],
                market,
                mark_price,
            ) is Some by {
                assert(users@.to_set().contains(u));
                let j = choose|j: int| 0 <= j < users@.len() && users@[j] == u;
            }
            assert(users@.take(users@.len() as int) =~= users@);
            assert(us.to_set() =~= Set::new(|u: u128| liquidated(s0.positions, market, mark_price, u))) by {
                assert forall|u: u128| liquidated(s0.positions, market, mark_price, u) implies us.contains(u) by {
                    assert(users@.to_set().contains(u));
                }
            }
            assert(self@.positions =~= recalibrated_all(s0.positions, market, mark_price)) by {
                assert forall|u: u128| #[trigger] s0.positions.contains_key(u) implies self@.positions[u]
                    == recalibrated_user(s0.positions[u], market, mark_price)->0 by {
                    assert(users@.to_set().contains(u));
                    let j = choose|j: int| 0 <= j < users@.len() && users@[j] == u;
                }
            }
        }
        Ok(notices)
    }
}

} // verus!

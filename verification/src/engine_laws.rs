//! Properties of the engine that hold across its operations: funding,
//! collateral and positions.
use crate::decimal::{
    Dec,
    dec_add,
    dec_sub,
    dec_mul,
    dec_div,
    decimal_rounded,
    negated,
    abs_of,
    exact_difference,
    exact_product,
    exact_sum,
    fits,
    lemma_abs_of,
    lemma_add_exact,
    lemma_mul_exact,
    lemma_mul_negated,
    lemma_mul_representable,
    lemma_negated,
    lemma_pow10_positive,
    lemma_sub_exact,
    lemma_val_of_parts,
    pow10,
};
use crate::engine::{
    change_wallet,
    debit,
    flat_position,
    isolated_margin,
    lock,
    position_after,
    settle_fill,
    trade_position,
    unlock,
};
use crate::types::{
    CancelOrderArgs,
    OrderSide,
    CreateOrderArgs,
    Fill,
    Market,
    Order,
    OrderRequests,
    OrderType,
    Position,
    UserBalance,
    market_index,
};
use crate::valuation::{
    best_price,
    funded_wallets,
    funding_payment,
    funding_rate,
    index_or_one,
    liquidates,
    maintenance_ratio,
    mark_candidates,
    mark_step,
    pays_funding,
    recalibrated,
    settle_window,
    sum_decs,
};
use crate::engine::EngineView;
use crate::handler::{with_margin, cancel_request_spec, create_spec, empty_balance, handled, with_book, EffectView};
use crate::book_laws::{
    holds_no_order,
    law_cancel_undoes_resting_order,
    law_process_keeps_book_uncrossed,
    meets_no_order,
    orders_of,
    uncrossed,
};
use crate::engine::{lemma_settle_keeps_books, settle_all};
use crate::orderbook::{
    BookView,
    LevelView,
    better,
    cancel_spec,
    is_level_at,
    is_order_at,
    level_index,
    order_index,
    process_spec,
    remove_order_at,
    side_wf,
};
use vstd::prelude::*;

verus! {

/// The hourly funding rate never leaves `[-0.04, 0.04]`: whatever the
/// premium samples, a rate that can be computed is capped at four percent
/// either way.
pub proof fn law_funding_rate_capped(samples: Seq<Dec>)
    ensures
        funding_rate(samples) matches Some(r) ==> Dec::spec_new(-4, 2).val() <= r.val()
            <= Dec::spec_new(4, 2).val(),
{
    lemma_val_of_parts(-4, 2);
    lemma_val_of_parts(4, 2);
    lemma_pow10_positive(26);
}

/// Closing a funding window records a rate in `[-0.04, 0.04]` for the market.
pub proof fn law_settled_rate_capped(s: EngineView, m: Market)
    requires
        s.samples.len() == 3,
    ensures
        settle_window(s, m) matches Some(s2) ==> (s.samples[market_index(m) as int].len() > 0 ==> {
            &&& s2.funding_rates.contains_key(m)
            &&& Dec::spec_new(-4, 2).val() <= s2.funding_rates[m].val()
            &&& s2.funding_rates[m].val() <= Dec::spec_new(4, 2).val()
        }),
{
    law_funding_rate_capped(s.samples[market_index(m) as int]);
}

/// A short position pays the opposite of what the long position of the same
/// size pays: the funding of size `-q` is the negation of the funding of size
/// `q`, at any rate and index price.
pub proof fn law_opposite_positions_pay_opposite_funding(long: Position, short: Position, rate: Dec, index: Dec)
    requires
        long.size.parts_ok(),
        rate.parts_ok(),
        index.parts_ok(),
        short.size == negated(long.size),
    ensures
        funding_payment(short, rate, index) == (match funding_payment(long, rate, index) {
            Some(p) => Some(negated(p)),
            None => None,
        }),
{
    lemma_mul_negated(long.size, rate);
    lemma_mul_representable(long.size, rate);
    if let Some(x) = dec_mul(long.size, rate) {
        lemma_mul_negated(x, index);
    }
}

/// The available balances of the users in `us`, summed in units of
/// `10^-28` (a user without a wallet counts nothing).
pub open spec fn total_available(wallets: Map<u128, UserBalance>, us: Seq<u128>) -> int
    decreases us.len(),
{
    if us.len() == 0 {
        0
    } else {
        total_available(wallets, us.drop_last()) + (if wallets.contains_key(us.last()) {
            wallets[us.last()].available_balance.val()
        } else {
            0
        })
    }
}

/// The sizes of the non-flat positions in `m` of the users in `us`, summed
/// in units of `10^-28`.
pub open spec fn net_size(s: EngineView, m: Market, us: Seq<u128>) -> int
    decreases us.len(),
{
    if us.len() == 0 {
        0
    } else {
        net_size(s, m, us.drop_last()) + (if pays_funding(s, us.last(), m) {
            s.positions[us.last()][m].size.val()
        } else {
            0
        })
    }
}

/// Every funding payment in `m` at `rate` and `index`, and its debit from the
/// payer's available balance, is computed without rounding: `size * rate`
/// and that times `index` have a zero operand or scales adding up to at most
/// 28 with a product that fits, and the debit is an exact difference.
pub open spec fn funding_exact(s: EngineView, m: Market, rate: Dec, index: Dec) -> bool {
    forall|u: u128|
        #[trigger] pays_funding(s, u, m) ==> {
            let p = s.positions[u][m];
            &&& rate.man() == 0 || exact_product(p.size, rate)
            &&& dec_mul(p.size, rate) matches Some(x) && (x.man() == 0 || index.man() == 0
                || exact_product(x, index))
            &&& exact_difference(
                s.wallets[u].available_balance,
                funding_payment(p, rate, index)->0,
            )
        }
}

proof fn lemma_payment_value(p: Position, rate: Dec, index: Dec)
    requires
        rate.man() == 0 || exact_product(p.size, rate),
        dec_mul(p.size, rate) matches Some(x) && (x.man() == 0 || index.man() == 0 || exact_product(
            x,
            index,
        )),
    ensures
        funding_payment(p, rate, index) matches Some(pay) && pay.parts_ok() && pay.val() * (pow10(28)
            * pow10(28)) == p.size.val() * (rate.val() * index.val()),
{
    lemma_mul_exact(p.size, rate);
    let x = dec_mul(p.size, rate)->0;
    lemma_mul_exact(x, index);
    lemma_mul_representable(x, index);
    let pay = dec_mul(x, index)->0;
    let q = pow10(28);
    assert(pay.val() * (q * q) == p.size.val() * (rate.val() * index.val())) by (nonlinear_arith)
        requires
            pay.val() * q == x.val() * index.val(),
            x.val() * q == p.size.val() * rate.val(),
    ;
}

proof fn lemma_funding_totals(s: EngineView, m: Market, rate: Dec, index: Dec, us: Seq<u128>)
    requires
        funding_exact(s, m, rate, index),
        forall|u: u128| #[trigger] pays_funding(s, u, m) ==> s.wallets.contains_key(u),
        forall|u: u128|
            #[trigger] s.wallets.contains_key(u) ==> s.wallets[u].available_balance.parts_ok(),
    ensures
        total_available(funded_wallets(s, m, rate, index), us) * (pow10(28) * pow10(28))
            == total_available(s.wallets, us) * (pow10(28) * pow10(28)) - net_size(s, m, us) * (
        rate.val() * index.val()),
    decreases us.len(),
{
    let q = pow10(28) * pow10(28);
    let k = rate.val() * index.val();
    if us.len() > 0 {
        let rest = us.drop_last();
        let u = us.last();
        lemma_funding_totals(s, m, rate, index, rest);
        let w2 = funded_wallets(s, m, rate, index);
        let a = total_available(w2, rest);
        let b = total_available(s.wallets, rest);
        let n = net_size(s, m, rest);
        if pays_funding(s, u, m) {
            let p = s.positions[u][m];
            lemma_payment_value(p, rate, index);
            let pay = funding_payment(p, rate, index)->0;
            let old_a = s.wallets[u].available_balance;
            lemma_sub_exact(old_a, pay);
            let new_a = w2[u].available_balance;
            assert(new_a.val() == old_a.val() - pay.val());
            assert((a + new_a.val()) * q == (b + old_a.val()) * q - (n + p.size.val()) * k) by (nonlinear_arith)
                requires
                    a * q == b * q - n * k,
                    new_a.val() == old_a.val() - pay.val(),
                    pay.val() * q == p.size.val() * k,
            ;
        } else {
            let c = if s.wallets.contains_key(u) {
                assert(w2[u] == s.wallets[u]);
                s.wallets[u].available_balance.val()
            } else {
                0
            };
            assert(total_available(w2, us) == a + c);
            assert(total_available(s.wallets, us) == b + c);
            assert(net_size(s, m, us) == n);
            assert((a + c) * q == (b + c) * q - n * k) by (nonlinear_arith)
                requires
                    a * q == b * q - n * k,
            ;
        }
    }
}

/// Funding only moves money between longs and shorts: where the sizes of
/// the non-flat positions in a market sum to zero over a list of users that
/// holds every such position's owner, each of whom has a wallet, closing the
/// market's funding window leaves the total available balance of those users
/// unchanged, and every wallet's locked balance as it was. Stated where each
/// payment and each debit is exact (`funding_exact`).
pub proof fn law_funding_conserves_available_balances(s: EngineView, m: Market, us: Seq<u128>)
    requires
        forall|u: u128| #[trigger] pays_funding(s, u, m) ==> us.contains(u) && s.wallets.contains_key(u),
        forall|u: u128|
            #[trigger] s.wallets.contains_key(u) ==> s.wallets[u].available_balance.parts_ok(),
        us.no_duplicates(),
        net_size(s, m, us) == 0,
        funding_rate(s.samples[market_index(m) as int]) matches Some(rate) ==> funding_exact(
            s,
            m,
            rate,
            index_or_one(s, m),
        ),
    ensures
        settle_window(s, m) matches Some(s2) ==> {
            &&& total_available(s2.wallets, us) == total_available(s.wallets, us)
            &&& s2.wallets.dom() == s.wallets.dom()
            &&& forall|u: u128|
                #[trigger] s.wallets.contains_key(u) ==> s2.wallets[u].locked_balance
                    == s.wallets[u].locked_balance
        },
{
    let samples = s.samples[market_index(m) as int];
    if samples.len() > 0 {
        if let Some(rate) = funding_rate(samples) {
            let index = index_or_one(s, m);
            if let Some(s2) = settle_window(s, m) {
                lemma_funding_totals(s, m, rate, index, us);
                let q = pow10(28) * pow10(28);
                lemma_pow10_positive(28);
                let x = total_available(s2.wallets, us);
                let y = total_available(s.wallets, us);
                assert(x * q == y * q);
                assert(x == y) by (nonlinear_arith)
                    requires
                        x * q == y * q,
                        pow10(28) > 0,
                        q == pow10(28) * pow10(28),
                ;
                assert(s2.wallets.dom() =~= s.wallets.dom());
            }
        }
    }
}

/// Locking an amount and then unlocking it gives the wallet its balances
/// back, and neither step changes the wallet's total: collateral moves between
/// the available and the locked balance and is never created or lost. Stated
/// where the two sums are exact: the balances and the amount, brought to the
/// larger of their scales, and the results fit in 96 bits (whatever the
/// scales).
pub proof fn law_unlock_undoes_lock(w: UserBalance, v: Dec)
    requires
        w.available_balance.parts_ok(),
        w.locked_balance.parts_ok(),
        v.parts_ok(),
        exact_difference(w.available_balance, v),
        exact_sum(w.locked_balance, v),
    ensures
        lock(w, v) matches Some(w2) && {
            &&& w2.available_balance.val() + w2.locked_balance.val() == w.available_balance.val()
                + w.locked_balance.val()
            &&& w2.locked_balance.val() == w.locked_balance.val() + v.val()
            &&& unlock(w2, v) matches Some(w3) && {
                &&& w3.available_balance.val() == w.available_balance.val()
                &&& w3.locked_balance.val() == w.locked_balance.val()
            }
        },
{
    let a = w.available_balance;
    let l = w.locked_balance;
    lemma_sub_exact(a, v);
    lemma_add_exact(l, v);
    let a2 = dec_sub(a, v)->0;
    let l2 = dec_add(l, v)->0;
    crate::decimal::lemma_sum_then_difference(l, v);
    crate::decimal::lemma_difference_then_sum(a, v);
    lemma_sub_exact(l2, v);
    lemma_add_exact(a2, v);
}

/// Trading a quantity from a flat position and then the opposite quantity at
/// the same price leaves the position flat again.
pub proof fn law_opposite_trade_closes_position(m: Market, delta: Dec, price: Dec)
    requires
        delta.parts_ok(),
        delta.val() != 0,
    ensures
        position_after(flat_position(m), delta, price) matches Some(p) && position_after(
            p,
            negated(delta),
            price,
        ) matches Some(q) && q.size.val() == 0 && q.avg_entry_price.val() == 0 && q.market == m,
{
    crate::decimal::lemma_zero();
    lemma_negated(delta);
    lemma_abs_of(delta);
    lemma_abs_of(negated(delta));
}

/// A limit order whose notional (`price * quantity`) exceeds the user's
/// available balance is refused: no book, position or balance changes (a user
/// without a wallet is given an empty one) and nothing is sent.
pub proof fn law_refused_order_changes_nothing(s: EngineView, req: CreateOrderArgs)
    requires
        req.order_type == OrderType::LIMIT,
        dec_mul(req.price, req.quantity) matches Some(l) && (if s.wallets.contains_key(req.user_id) {
            s.wallets[req.user_id].available_balance.val()
        } else {
            0
        }) < l.val(),
    ensures
        create_spec(s, req) matches Some((s2, effects)) && {
            &&& effects.len() == 0
            &&& s2.books == s.books
            &&& s2.positions == s.positions
            &&& s2.wallets == s.wallets.insert(
                req.user_id,
                if s.wallets.contains_key(req.user_id) {
                    s.wallets[req.user_id]
                } else {
                    empty_balance()
                },
            )
        },
{
    crate::decimal::lemma_zero();
}

/// Removing a resting order leaves a side whose best level is the old best
/// level or the one after it.
proof fn lemma_remove_keeps_front(levels: Seq<LevelView>, is_bids: bool, li: int, k: int)
    requires
        side_wf(levels, is_bids),
        0 <= li < levels.len(),
        0 <= k < levels[li].orders.len(),
    ensures
        ({
            let r = remove_order_at(levels, li, k);
            r.len() > 0 ==> r[0].price == levels[0].price || (levels.len() > 1 && r[0].price
                == levels[1].price)
        }),
{
}

/// Cancelling an order never crosses a book.
proof fn lemma_cancel_keeps_uncrossed(b: BookView, id: u128)
    requires
        b.wf(),
        uncrossed(b),
    ensures
        uncrossed(cancel_spec(b, id).0),
{
    if b.prices.contains_key(id) {
        let p = b.prices[id];
        let la = level_index(b.asks, p);
        let lb = level_index(b.bids, p);
        if la >= 0 && order_index(b.asks[la].orders, id) >= 0 {
            assert(is_level_at(b.asks, p, la));
            assert(is_order_at(b.asks[la].orders, id, order_index(b.asks[la].orders, id)));
            lemma_remove_keeps_front(b.asks, false, la, order_index(b.asks[la].orders, id));
            if b.asks.len() > 1 {
                assert(better(false, b.asks[0].price, b.asks[1].price));
            }
        } else if lb >= 0 && order_index(b.bids[lb].orders, id) >= 0 {
            assert(is_level_at(b.bids, p, lb));
            assert(is_order_at(b.bids[lb].orders, id, order_index(b.bids[lb].orders, id)));
            lemma_remove_keeps_front(b.bids, true, lb, order_index(b.bids[lb].orders, id));
            if b.bids.len() > 1 {
                assert(better(true, b.bids[0].price, b.bids[1].price));
            }
        }
    }
}

/// Every book of the engine is uncrossed.
pub open spec fn all_uncrossed(s: EngineView) -> bool {
    forall|i: int| 0 <= i < s.books.len() ==> #[trigger] uncrossed(s.books[i])
}

/// Handling any request keeps every book uncrossed: no request leaves a
/// market whose best bid reaches its best ask.
pub proof fn law_handling_keeps_books_uncrossed(
    s: EngineView,
    req: OrderRequests,
    s2: EngineView,
    effects: Seq<EffectView>,
)
    requires
        s.wf(),
        all_uncrossed(s),
        handled(s, req, s2, effects),
    ensures
        all_uncrossed(s2),
{
    match req {
        OrderRequests::CreateOrder(a) => {
            let m = a.market;
            let i = market_index(m) as int;
            let s1 = if a.order_type == OrderType::LIMIT {
                let l = dec_mul(a.price, a.quantity)->0;
                let w = if s.wallets.contains_key(a.user_id) {
                    s.wallets[a.user_id]
                } else {
                    empty_balance()
                };
                if w.available_balance.val() < l.val() {
                    s.with_wallet(a.user_id, w)
                } else {
                    with_margin(s.with_wallet(a.user_id, lock(w, l)->0), a, l)->0
                }
            } else {
                s
            };
            assert(s1.books == s.books);
            assert(s.books[i].wf() && uncrossed(s.books[i]));
            let order = Order {
                user_id: a.user_id,
                order_id: a.order_id,
                price: a.price,
                quantity: a.quantity,
            };
            law_process_keeps_book_uncrossed(s1.book(m), order, a.side, a.order_type);
            let (b2, out) = process_spec(s1.book(m), order, a.side, a.order_type);
            let t = with_book(s1, m, b2);
            if let Some((fills, executed)) = out {
                if settle_all(t, fills, a.side, a.order_type) is Some {
                    lemma_settle_keeps_books(t, fills, a.side, a.order_type);
                }
            }
            assert forall|j: int| 0 <= j < s2.books.len() implies #[trigger] uncrossed(s2.books[j]) by {
                if j != i {
                    assert(uncrossed(s.books[j]));
                }
            }
        },
        OrderRequests::CancelOrder(a) => {
            let i = market_index(a.market) as int;
            assert(s.books[i].wf() && uncrossed(s.books[i]));
            lemma_cancel_keeps_uncrossed(s.book(a.market), a.order_id);
            assert forall|j: int| 0 <= j < s2.books.len() implies #[trigger] uncrossed(s2.books[j]) by {
                if j != i {
                    assert(uncrossed(s.books[j]));
                }
            }
        },
        _ => {
            assert(s2.books == s.books);
        },
    }
}

/// Placing a limit order that rests without trading and then cancelling it
/// gives the user's collateral back and leaves the market's book as it was:
/// the wallet's available and locked balances return to their values, both
/// sides and the price index of the book are as before, and every user has
/// the same orders. Stated where the sums are exact, as
/// `law_unlock_undoes_lock`.
pub proof fn law_cancel_restores_collateral(s: EngineView, req: CreateOrderArgs, c: CancelOrderArgs)
    requires
        s.wf(),
        req.order_type == OrderType::LIMIT,
        req.quantity.val() > 0,
        c.order_id == req.order_id,
        c.user_id == req.user_id,
        c.market == req.market,
        holds_no_order(s.book(req.market), req.order_id),
        meets_no_order(
            s.book(req.market),
            Order {
                user_id: req.user_id,
                order_id: req.order_id,
                price: req.price,
                quantity: req.quantity,
            },
            req.side,
        ),
        s.wallets.contains_key(req.user_id),
        dec_mul(req.price, req.quantity) matches Some(l) && {
            let w = s.wallets[req.user_id];
            &&& w.available_balance.parts_ok()
            &&& w.locked_balance.parts_ok()
            &&& l.parts_ok()
            &&& exact_difference(w.available_balance, l)
            &&& exact_sum(w.locked_balance, l)
        },
    ensures
        create_spec(s, req) matches Some((s2, _)) ==> {
            &&& cancel_request_spec(s2, c) matches Some((s3, effects)) && {
                let i = market_index(req.market) as int;
                &&& effects == seq![EffectView::ShowBook(req.market)]
                &&& s3.wallets.contains_key(req.user_id)
                &&& s3.wallets[req.user_id].available_balance.val()
                    == s.wallets[req.user_id].available_balance.val()
                &&& s3.wallets[req.user_id].locked_balance.val()
                    == s.wallets[req.user_id].locked_balance.val()
                &&& s3.books.len() == s.books.len()
                &&& forall|j: int| 0 <= j < s.books.len() && j != i ==> s3.books[j] == s.books[j]
                &&& s3.books[i].bids == s.books[i].bids
                &&& s3.books[i].asks == s.books[i].asks
                &&& s3.books[i].prices == s.books[i].prices
                &&& forall|u: u128| #[trigger] orders_of(s3.books[i].users, u) == orders_of(
                    s.books[i].users,
                    u,
                )
            }
        },
{
    let m = req.market;
    let i = market_index(m) as int;
    let u = req.user_id;
    let w = s.wallets[u];
    let l = dec_mul(req.price, req.quantity)->0;
    let order = Order { user_id: u, order_id: req.order_id, price: req.price, quantity: req.quantity };
    assert(s.books[i].wf());
    law_unlock_undoes_lock(w, l);
    law_cancel_undoes_resting_order(s.book(m), order, req.side);
    if create_spec(s, req) is Some {
        if w.available_balance.val() < l.val() {
            let s2 = s.with_wallet(u, w);
            assert(!s2.book(m).prices.contains_key(req.order_id));
            assert forall|u2: u128| #[trigger] orders_of(s2.book(m).users, u2) == orders_of(
                s.books[i].users,
                u2,
            ) by {}
        } else {
            let w2 = lock(w, l)->0;
            let sl = s.with_wallet(u, w2);
            let s1 = with_margin(sl, req, l)->0;
            let b2 = process_spec(s1.book(m), order, req.side, req.order_type).0;
            let t = with_book(s1, m, b2);
            assert(settle_all(t, Seq::<Fill>::empty(), req.side, req.order_type) == Some(t));
        }
    }
}

/// Trading a quantity moves a position's size by exactly that quantity: the
/// new size is the old one plus the trade (buys positive, sells negative),
/// whichever branch applies (opening, adding, reducing, closing or flipping).
/// Stated where the sum of the size and the trade is exact (see `exact_sum`).
pub proof fn law_position_size_adds(p: Position, delta: Dec, price: Dec)
    requires
        p.size.parts_ok(),
        delta.parts_ok(),
        exact_sum(p.size, delta),
    ensures
        position_after(p, delta, price) matches Some(q) ==> q.size.val() == p.size.val()
            + delta.val(),
{
    let s = p.size;
    s.lemma_val_zero();
    delta.lemma_val_zero();
    lemma_add_exact(s, delta);
    lemma_abs_of(s);
    lemma_abs_of(delta);
    crate::decimal::lemma_zero();
    if s.val() != 0 && (s.val() >= 0) != (delta.val() >= 0) {
        crate::decimal::lemma_magnitudes_exact(s, delta);
        lemma_sub_exact(abs_of(delta), abs_of(s));
        if let Some(rem) = dec_sub(abs_of(delta), abs_of(s)) {
            lemma_negated(rem);
        }
    }
}

/// A fill between two users moves their sizes in the market by opposite
/// amounts, so their net size is unchanged: the buyer's grows by the fill's
/// quantity and the seller's shrinks by it. Stated for two different users,
/// where both sums are exact.
pub proof fn law_fill_keeps_net_size(s: EngineView, f: Fill, taker_side: OrderSide, taker_type: OrderType)
    requires
        f.taker_user_id != f.maker_user_id,
        f.quantity.parts_ok(),
        s.position(f.taker_user_id, f.market).size.parts_ok(),
        s.position(f.maker_user_id, f.market).size.parts_ok(),
        exact_sum(
            s.position(f.taker_user_id, f.market).size,
            if taker_side == OrderSide::BUY {
                f.quantity
            } else {
                negated(f.quantity)
            },
        ),
        exact_sum(
            s.position(f.maker_user_id, f.market).size,
            if taker_side == OrderSide::BUY {
                negated(f.quantity)
            } else {
                f.quantity
            },
        ),
    ensures
        settle_fill(s, f, taker_side, taker_type) matches Some(s2) ==> {
            let (long_user, short_user) = if taker_side == OrderSide::BUY {
                (f.taker_user_id, f.maker_user_id)
            } else {
                (f.maker_user_id, f.taker_user_id)
            };
            &&& s2.position(long_user, f.market).size.val() == s.position(long_user, f.market).size.val()
                + f.quantity.val()
            &&& s2.position(short_user, f.market).size.val() == s.position(short_user, f.market).size.val()
                - f.quantity.val()
        },
{
    let (long_user, short_user) = if taker_side == OrderSide::BUY {
        (f.taker_user_id, f.maker_user_id)
    } else {
        (f.maker_user_id, f.taker_user_id)
    };
    lemma_negated(f.quantity);
    crate::decimal::lemma_negated_involutive(f.quantity);
    let m = f.market;
    if let Some(s2) = settle_fill(s, f, taker_side, taker_type) {
        let v = dec_mul(f.price, f.quantity)->0;
        let s1 = EngineView { last_trade_prices: s.last_trade_prices.insert(f.market, f.price), ..s };
        let maker_w = if s1.wallets.contains_key(f.maker_user_id) {
            unlock(s1.wallets[f.maker_user_id], v)
        } else {
            None
        };
        let sa = change_wallet(s1, f.maker_user_id, maker_w)->0;
        let taker_w = if sa.wallets.contains_key(f.taker_user_id) {
            if taker_type == OrderType::LIMIT {
                unlock(sa.wallets[f.taker_user_id], v)
            } else {
                debit(sa.wallets[f.taker_user_id], v)
            }
        } else {
            None
        };
        let sb = change_wallet(sa, f.taker_user_id, taker_w)->0;
        assert(sb.positions == s.positions);
        law_position_size_adds(s.position(long_user, m), f.quantity, f.price);
        let s4 = trade_position(sb, long_user, m, f.quantity, f.price)->0;
        assert(s4.position(short_user, m) == s.position(short_user, m));
        law_position_size_adds(s.position(short_user, m), negated(f.quantity), f.price);
        assert(s2.position(long_user, m) == s4.position(long_user, m));
    }
}

/// The sizes in `m` of the users in `us`, summed in units of `10^-28`.
pub open spec fn total_size(s: EngineView, m: Market, us: Seq<u128>) -> int
    decreases us.len(),
{
    if us.len() == 0 {
        0
    } else {
        total_size(s, m, us.drop_last()) + s.position(us.last(), m).size.val()
    }
}

/// The buyer and the seller of a fill.
pub open spec fn fill_sides(f: Fill, taker_side: OrderSide) -> (u128, u128) {
    if taker_side == OrderSide::BUY {
        (f.taker_user_id, f.maker_user_id)
    } else {
        (f.maker_user_id, f.taker_user_id)
    }
}

/// A fill moves the buyer's size and then the seller's without rounding:
/// each size plus the traded quantity (or its negation) is an exact sum.
pub open spec fn fill_exact(s: EngineView, f: Fill, taker_side: OrderSide) -> bool {
    let (long_user, short_user) = fill_sides(f, taker_side);
    let m = f.market;
    &&& f.quantity.parts_ok()
    &&& s.position(long_user, m).size.parts_ok()
    &&& exact_sum(s.position(long_user, m).size, f.quantity)
    &&& trade_position(s, long_user, m, f.quantity, f.price) matches Some(s4) ==> {
        &&& s4.position(short_user, m).size.parts_ok()
        &&& exact_sum(s4.position(short_user, m).size, negated(f.quantity))
    }
}

/// Every fill of a settlement moves the sizes without rounding, from the
/// state the earlier fills left.
pub open spec fn fills_exact(s: EngineView, fills: Seq<Fill>, taker_side: OrderSide, taker_type: OrderType) -> bool
    decreases fills.len(),
{
    if fills.len() == 0 {
        true
    } else {
        &&& fills_exact(s, fills.drop_last(), taker_side, taker_type)
        &&& settle_all(s, fills.drop_last(), taker_side, taker_type) matches Some(s2) ==> fill_exact(
            s2,
            fills.last(),
            taker_side,
        )
    }
}

/// Putting a position in one place leaves every other user's and market's
/// position as it was.
proof fn lemma_with_position_elsewhere(s: EngineView, u: u128, m: Market, p: Position, v: u128, n: Market)
    ensures
        v != u || n != m ==> s.with_position(u, m, p).position(v, n) == s.position(v, n),
        s.with_position(u, m, p).position(u, m) == p,
{
}

proof fn lemma_total_size_shift(s: EngineView, s2: EngineView, m: Market, us: Seq<u128>, l: u128, sh: u128, q: int)
    requires
        us.no_duplicates(),
        forall|u: u128|
            #[trigger] s2.position(u, m).size.val() == s.position(u, m).size.val() + (if u == l {
                q
            } else {
                0
            }) - (if u == sh {
                q
            } else {
                0
            }),
    ensures
        total_size(s2, m, us) == total_size(s, m, us) + (if us.contains(l) {
            q
        } else {
            0
        }) - (if us.contains(sh) {
            q
        } else {
            0
        }),
    decreases us.len(),
{
    if us.len() > 0 {
        let rest = us.drop_last();
        let u = us.last();
        assert(rest.no_duplicates()) by {
            assert forall|i: int, j: int| 0 <= i < rest.len() && 0 <= j < rest.len() && i != j implies rest[i]
                != rest[j] by {
                assert(us[i] == rest[i] && us[j] == rest[j]);
            }
        }
        lemma_total_size_shift(s, s2, m, rest, l, sh, q);
        assert(!rest.contains(u)) by {
            if rest.contains(u) {
                let i = choose|i: int| 0 <= i < rest.len() && rest[i] == u;
                assert(us[i] == us[us.len() - 1]);
            }
        }
        assert forall|x: u128| us.contains(x) <==> rest.contains(x) || x == u by {
            if us.contains(x) {
                let i = choose|i: int| 0 <= i < us.len() && us[i] == x;
                if i < rest.len() {
                    assert(rest[i] == x);
                }
            }
            if rest.contains(x) {
                let i = choose|i: int| 0 <= i < rest.len() && rest[i] == x;
                assert(us[i] == x);
            }
            assert(us[us.len() - 1] == u);
        }
        assert(s2.position(u, m).size.val() == s.position(u, m).size.val() + (if u == l {
            q
        } else {
            0
        }) - (if u == sh {
            q
        } else {
            0
        }));
    }
}

/// One fill moves the buyer's size in its market up by its quantity and the
/// seller's down by it (both, for a user trading with themselves), and no
/// other size.
proof fn lemma_fill_sizes(s: EngineView, f: Fill, taker_side: OrderSide, taker_type: OrderType)
    requires
        fill_exact(s, f, taker_side),
    ensures
        settle_fill(s, f, taker_side, taker_type) matches Some(s2) ==> forall|u: u128, m: Market|
            #[trigger] s2.position(u, m).size.val() == s.position(u, m).size.val() + (if m == f.market
                && u == fill_sides(f, taker_side).0 {
                f.quantity.val()
            } else {
                0
            }) - (if m == f.market && u == fill_sides(f, taker_side).1 {
                f.quantity.val()
            } else {
                0
            }),
{
    let (l, sh) = fill_sides(f, taker_side);
    let fm = f.market;
    let q = f.quantity;
    lemma_negated(q);
    if let Some(s2) = settle_fill(s, f, taker_side, taker_type) {
        let v = dec_mul(f.price, q)->0;
        let s1 = EngineView { last_trade_prices: s.last_trade_prices.insert(fm, f.price), ..s };
        let maker_w = if s1.wallets.contains_key(f.maker_user_id) {
            unlock(s1.wallets[f.maker_user_id], v)
        } else {
            None
        };
        let sa = change_wallet(s1, f.maker_user_id, maker_w)->0;
        let taker_w = if sa.wallets.contains_key(f.taker_user_id) {
            if taker_type == OrderType::LIMIT {
                unlock(sa.wallets[f.taker_user_id], v)
            } else {
                debit(sa.wallets[f.taker_user_id], v)
            }
        } else {
            None
        };
        let s3 = change_wallet(sa, f.taker_user_id, taker_w)->0;
        assert(s3.positions == s.positions);
        assert(forall|u: u128, m: Market| #[trigger] s3.position(u, m) == s.position(u, m));
        law_position_size_adds(s.position(l, fm), q, f.price);
        let p1 = position_after(s.position(l, fm), q, f.price)->0;
        let s4 = trade_position(s3, l, fm, q, f.price)->0;
        let mid = trade_position(s, l, fm, q, f.price)->0;
        assert(s4.positions == mid.positions);
        assert(s4.position(sh, fm) == mid.position(sh, fm));
        law_position_size_adds(s4.position(sh, fm), negated(q), f.price);
        let p2 = position_after(s4.position(sh, fm), negated(q), f.price)->0;
        assert forall|u: u128, m: Market| #[trigger] s2.position(u, m).size.val() == s.position(u, m).size.val()
            + (if m == fm && u == l {
            q.val()
        } else {
            0
        }) - (if m == fm && u == sh {
            q.val()
        } else {
            0
        }) by {
            if m == fm && u == sh {
                lemma_with_position_elsewhere(s4, sh, fm, p2, u, m);
                if u == l {
                    lemma_with_position_elsewhere(s3, l, fm, p1, u, m);
                } else {
                    lemma_with_position_elsewhere(s3, l, fm, p1, u, m);
                }
            } else {
                lemma_with_position_elsewhere(s4, sh, fm, p2, u, m);
                if m == fm && u == l {
                    lemma_with_position_elsewhere(s3, l, fm, p1, sh, fm);
                    assert(s4.position(u, m) == p1);
                } else {
                    lemma_with_position_elsewhere(s3, l, fm, p1, u, m);
                }
            }
        }
    }
}

/// Settling the fills of an order keeps the net size of every market: each
/// fill makes its buyer longer and its seller shorter by the same quantity,
/// so over any list of users that holds every fill's buyer and seller, the
/// sizes in a market sum to what they summed to before. Stated where every
/// fill moves the sizes without rounding (`fills_exact`).
pub proof fn law_settlement_keeps_net_size(
    s: EngineView,
    fills: Seq<Fill>,
    taker_side: OrderSide,
    taker_type: OrderType,
    m: Market,
    us: Seq<u128>,
)
    requires
        us.no_duplicates(),
        forall|i: int|
            0 <= i < fills.len() ==> us.contains(#[trigger] fills[i].taker_user_id) && us.contains(
                fills[i].maker_user_id,
            ),
        fills_exact(s, fills, taker_side, taker_type),
    ensures
        settle_all(s, fills, taker_side, taker_type) matches Some(s2) ==> total_size(s2, m, us)
            == total_size(s, m, us),
    decreases fills.len(),
{
    if fills.len() > 0 {
        let init = fills.drop_last();
        assert forall|i: int| 0 <= i < init.len() implies us.contains(#[trigger] init[i].taker_user_id)
            && us.contains(init[i].maker_user_id) by {
            assert(init[i] == fills[i]);
        }
        law_settlement_keeps_net_size(s, init, taker_side, taker_type, m, us);
        if let Some(s1) = settle_all(s, init, taker_side, taker_type) {
            let f = fills.last();
            assert(f == fills[fills.len() - 1]);
            lemma_fill_sizes(s1, f, taker_side, taker_type);
            if let Some(s2) = settle_fill(s1, f, taker_side, taker_type) {
                let (l, sh) = fill_sides(f, taker_side);
                let q = if m == f.market {
                    f.quantity.val()
                } else {
                    0
                };
                assert forall|u: u128| #[trigger] s2.position(u, m).size.val() == s1.position(u, m).size.val() + (
                if u == l {
                    q
                } else {
                    0
                }) - (if u == sh {
                    q
                } else {
                    0
                }) by {
                    assert(s2.position(u, m).size.val() == s1.position(u, m).size.val() + (if m == f.market
                        && u == l {
                        f.quantity.val()
                    } else {
                        0
                    }) - (if m == f.market && u == sh {
                        f.quantity.val()
                    } else {
                        0
                    }));
                }
                lemma_total_size_shift(s1, s2, m, us, l, sh, q);
            }
        }
    }
}

/// The local candidate of a mark price is the median of the book and the
/// last trade: with both a best bid and a best ask, `c2` is one of the best
/// bid, the best ask and the last trade price (the index where the market
/// has not traded), with at least two of the three at or below it and at
/// least two at or above it. So a last trade between the bid and the ask is
/// the candidate, whatever the index.
pub proof fn law_local_candidate_is_book_median(s: EngineView, m: Market)
    ensures
        ({
            let book = s.book(m);
            let last_trade = if s.last_trade_prices.contains_key(m) {
                s.last_trade_prices[m]
            } else {
                index_or_one(s, m)
            };
            best_price(book.bids) matches Some(bid) ==> best_price(book.asks) matches Some(ask)
                ==> mark_candidates(s, m) matches Some((_, _, c2, _)) ==> {
                &&& c2 == bid || c2 == ask || c2 == last_trade
                &&& (bid.val() <= c2.val()) as int + (ask.val() <= c2.val()) as int + (last_trade.val()
                    <= c2.val()) as int >= 2
                &&& (bid.val() >= c2.val()) as int + (ask.val() >= c2.val()) as int + (last_trade.val()
                    >= c2.val()) as int >= 2
                &&& bid.val() <= last_trade.val() <= ask.val() ==> c2.val() == last_trade.val()
            }
        }),
{
}

/// A position's unrealized profit is signed by its size: a short of size
/// `-q` has exactly the negation of the profit of a long of size `q` at the
/// same entry and mark (and one is computable exactly when the other is).
pub proof fn law_short_pnl_is_negated_long_pnl(long: Position, mark: Dec)
    requires
        long.size.parts_ok(),
        long.avg_entry_price.parts_ok(),
        mark.parts_ok(),
    ensures
        ({
            let short = Position { size: negated(long.size), ..long };
            match recalibrated(long, mark) {
                Some(p) => recalibrated(short, mark) matches Some(q) && q.unrealized_pnl == (if long.size.val()
                    == 0 {
                    p.unrealized_pnl
                } else {
                    negated(p.unrealized_pnl)
                }),
                None => recalibrated(short, mark) is None,
            }
        }),
{
    lemma_negated(long.size);
    crate::decimal::lemma_sub_representable(mark, long.avg_entry_price);
    if let Some(d) = dec_sub(mark, long.avg_entry_price) {
        lemma_mul_negated(long.size, d);
    }
}

/// A position's unrealized profit is `size * (mark - entry)`: where the
/// difference and the product are exact, its value times `10^28` is the
/// size's value times the mark's value less the entry's. A short (negative
/// size) loses when the mark is above its entry, and a long gains.
pub proof fn law_unrealized_pnl_is_size_times_move(p: Position, mark: Dec)
    requires
        p.size.parts_ok(),
        p.avg_entry_price.parts_ok(),
        mark.parts_ok(),
        exact_difference(mark, p.avg_entry_price),
        dec_sub(mark, p.avg_entry_price) matches Some(d) && (d.man() == 0 || exact_product(p.size, d)),
    ensures
        recalibrated(p, mark) matches Some(q) && q.unrealized_pnl.val() * pow10(28) == p.size.val() * (
        mark.val() - p.avg_entry_price.val()),
        p.size.val() < 0 && mark.val() > p.avg_entry_price.val() ==> recalibrated(
            p,
            mark,
        )->0.unrealized_pnl.val() < 0,
        p.size.val() > 0 && mark.val() > p.avg_entry_price.val() ==> recalibrated(
            p,
            mark,
        )->0.unrealized_pnl.val() > 0,
{
    lemma_sub_exact(mark, p.avg_entry_price);
    let d = dec_sub(mark, p.avg_entry_price)->0;
    lemma_mul_exact(p.size, d);
    crate::decimal::lemma_zero();
    lemma_pow10_positive(28);
    let x = p.size.val();
    let y = mark.val() - p.avg_entry_price.val();
    let k = pow10(28);
    if x == 0 {
        assert(0 * k == x * y) by (nonlinear_arith)
            requires
                x == 0,
        ;
    } else {
        let u = dec_mul(p.size, d)->0;
        assert(u.val() * k == x * y);
        assert(x < 0 && y > 0 ==> u.val() < 0) by (nonlinear_arith)
            requires
                u.val() * k == x * y,
                k > 0,
        ;
        assert(x > 0 && y > 0 ==> u.val() > 0) by (nonlinear_arith)
            requires
                u.val() * k == x * y,
                k > 0,
        ;
    }
}

/// The funding rate depends on the window only through its mean: two windows
/// whose sums divided by their lengths give the same mean give the same
/// rate, whatever their samples and their order.
pub proof fn law_funding_rate_depends_on_mean(a: Seq<Dec>, b: Seq<Dec>)
    requires
        sum_decs(a) matches Some(sa) && sum_decs(b) matches Some(sb) && dec_div(
            sa,
            Dec::spec_new(a.len() as int, 0),
        ) == dec_div(sb, Dec::spec_new(b.len() as int, 0)),
    ensures
        funding_rate(a) == funding_rate(b),
{
}

/// Settling a fill for a limit taker moves the matched value from the
/// taker's locked balance to its available balance: the locked balance falls
/// by `price * quantity`, the available one rises by it, and the wallet's
/// total is unchanged. Stated for a taker other than the maker, with a
/// wallet, where the product, the debit of the locked balance and the credit
/// of the available one are exact.
pub proof fn law_limit_taker_fill_unlocks_matched_value(s: EngineView, f: Fill, taker_side: OrderSide)
    requires
        f.taker_user_id != f.maker_user_id,
        s.wallets.contains_key(f.taker_user_id),
        s.wallets[f.taker_user_id].locked_balance.parts_ok(),
        s.wallets[f.taker_user_id].available_balance.parts_ok(),
        f.price.parts_ok(),
        f.quantity.parts_ok(),
        f.price.man() == 0 || f.quantity.man() == 0 || exact_product(f.price, f.quantity),
        exact_difference(s.wallets[f.taker_user_id].locked_balance, dec_mul(f.price, f.quantity)->0),
        exact_sum(s.wallets[f.taker_user_id].available_balance, dec_mul(f.price, f.quantity)->0),
    ensures
        settle_fill(s, f, taker_side, OrderType::LIMIT) matches Some(s2) ==> {
            let w = s.wallets[f.taker_user_id];
            let w2 = s2.wallets[f.taker_user_id];
            &&& s2.wallets.contains_key(f.taker_user_id)
            &&& w2.locked_balance.val() * pow10(28) == w.locked_balance.val() * pow10(28) - f.price.val()
                * f.quantity.val()
            &&& w2.available_balance.val() * pow10(28) == w.available_balance.val() * pow10(28)
                + f.price.val() * f.quantity.val()
            &&& w2.locked_balance.val() + w2.available_balance.val() == w.locked_balance.val()
                + w.available_balance.val()
        },
{
    lemma_mul_exact(f.price, f.quantity);
    lemma_mul_representable(f.price, f.quantity);
    let v = dec_mul(f.price, f.quantity)->0;
    let w = s.wallets[f.taker_user_id];
    lemma_sub_exact(w.locked_balance, v);
    lemma_add_exact(w.available_balance, v);
    if let Some(s2) = settle_fill(s, f, taker_side, OrderType::LIMIT) {
        let s1 = EngineView { last_trade_prices: s.last_trade_prices.insert(f.market, f.price), ..s };
        let maker_w = if s1.wallets.contains_key(f.maker_user_id) {
            unlock(s1.wallets[f.maker_user_id], v)
        } else {
            None
        };
        let sa = change_wallet(s1, f.maker_user_id, maker_w)->0;
        assert(sa.wallets[f.taker_user_id] == w);
        let s3 = change_wallet(sa, f.taker_user_id, unlock(w, v))->0;
        let w2 = unlock(w, v)->0;
        assert(s3.wallets[f.taker_user_id] == w2);
        assert(s2.wallets == s3.wallets);
        lemma_pow10_positive(28);
        let k = pow10(28);
        assert(v.val() * k == f.price.val() * f.quantity.val());
        assert(w2.locked_balance.val() * k == w.locked_balance.val() * k - v.val() * k) by (nonlinear_arith)
            requires
                w2.locked_balance.val() == w.locked_balance.val() - v.val(),
        ;
        assert(w2.available_balance.val() * k == w.available_balance.val() * k + v.val() * k) by (nonlinear_arith)
            requires
                w2.available_balance.val() == w.available_balance.val() + v.val(),
        ;
    }
}

/// The candidates of a mark price: the external candidate `c3` is the
/// market's external mark (the index where none was received); without both
/// a best bid and a best ask, the book candidates `c1` and `c2` are the index
/// and the smoothing state is left as it was.
pub proof fn law_mark_candidates_without_a_full_book(s: EngineView, m: Market)
    ensures
        ({
            let book = s.book(m);
            let index = index_or_one(s, m);
            mark_candidates(s, m) matches Some((ema, c1, c2, c3)) ==> {
                &&& c3 == (if s.external_marks.contains_key(m) {
                    s.external_marks[m]
                } else {
                    index
                })
                &&& (book.bids.len() == 0 || book.asks.len() == 0) ==> c1 == index && c2 == index && ema
                    == s.c1_ema_state
            }
        }),
{
}

/// The mark price is the median of the three candidates rounded to four
/// decimals: the published telemetry carries the candidates, and the mark is
/// the rounding of one of them with at least two candidates at or below it
/// and at least two at or above it.
pub proof fn law_mark_is_rounded_median_of_candidates(s: EngineView, m: Market)
    ensures
        mark_step(s, m) matches Some((_, t)) ==> mark_candidates(s, m) matches Some((_, c1, c2, c3))
            && t.market == m && t.c1_smoothed == c1 && t.c2_local == c2 && t.c3_external == c3
            && exists|x: Dec|
            {
                &&& #[trigger] decimal_rounded(x, 4) == t.market_price
                &&& x == c1 || x == c2 || x == c3
                &&& (c1.val() <= x.val()) as int + (c2.val() <= x.val()) as int + (c3.val() <= x.val()) as int
                    >= 2
                &&& (c1.val() >= x.val()) as int + (c2.val() >= x.val()) as int + (c3.val() >= x.val()) as int
                    >= 2
            },
{
    if let Some((_, c1, c2, c3)) = mark_candidates(s, m) {
        let x = crate::engine::spec_median3(c1, c2, c3);
        assert(decimal_rounded(x, 4) == decimal_rounded(x, 4));
    }
}

/// A revalued non-flat position is liquidated exactly when its equity
/// (margin plus unrealized profit) is below one percent of its notional
/// `|size| * mark`. Stated where the equity and the requirement are exact.
pub proof fn law_liquidation_threshold(p: Position, mark: Dec)
    requires
        p.size.parts_ok(),
        p.margin.parts_ok(),
        p.unrealized_pnl.parts_ok(),
        mark.parts_ok(),
        p.size.val() != 0,
        exact_sum(p.margin, p.unrealized_pnl),
        exact_product(abs_of(p.size), mark) || mark.man() == 0,
        dec_mul(abs_of(p.size), mark) matches Some(n) && (n.man() == 0 || exact_product(
            n,
            maintenance_ratio(),
        )),
    ensures
        liquidates(p, mark) == Some(
            (p.margin.val() + p.unrealized_pnl.val()) * pow10(30) < (if p.size.val() < 0 {
                -p.size.val()
            } else {
                p.size.val()
            }) * mark.val(),
        ),
{
    lemma_add_exact(p.margin, p.unrealized_pnl);
    lemma_abs_of(p.size);
    p.size.lemma_val_zero();
    lemma_mul_exact(abs_of(p.size), mark);
    let n = dec_mul(abs_of(p.size), mark)->0;
    lemma_mul_exact(n, maintenance_ratio());
    let r = dec_mul(n, maintenance_ratio())->0;
    lemma_val_of_parts(1, 2);
    crate::decimal::lemma_pow10_add(26, 2);
    crate::decimal::lemma_pow10_add(28, 2);
    lemma_pow10_positive(26);
    lemma_pow10_positive(28);
    let k26 = pow10(26);
    let k28 = pow10(28);
    let k30 = pow10(30);
    assert(k28 == k26 * 100) by {
        reveal_with_fuel(pow10, 3);
    }
    assert(k30 == k28 * 100) by {
        reveal_with_fuel(pow10, 3);
    }
    assert(maintenance_ratio().val() == k26);
    let e = p.margin.val() + p.unrealized_pnl.val();
    let a = abs_of(p.size).val();
    assert(r.val() * k28 == n.val() * k26);
    assert(n.val() * k28 == a * mark.val());
    assert((e < r.val()) == (e * k30 < a * mark.val())) by (nonlinear_arith)
        requires
            r.val() * k28 == n.val() * k26,
            n.val() * k28 == a * mark.val(),
            k28 == k26 * 100,
            k30 == k28 * 100,
            k26 > 0,
    ;
}

/// Settling a fill moves the matched value `price * quantity` from the
/// maker's locked balance to its available balance, whatever the taker's
/// order type. Stated for a maker other than the taker, with a wallet, where
/// the product and both balance changes are exact.
pub proof fn law_fill_unlocks_maker_matched_value(s: EngineView, f: Fill, taker_side: OrderSide, taker_type: OrderType)
    requires
        f.taker_user_id != f.maker_user_id,
        s.wallets.contains_key(f.maker_user_id),
        s.wallets[f.maker_user_id].locked_balance.parts_ok(),
        s.wallets[f.maker_user_id].available_balance.parts_ok(),
        f.price.parts_ok(),
        f.quantity.parts_ok(),
        f.price.man() == 0 || f.quantity.man() == 0 || exact_product(f.price, f.quantity),
        exact_difference(s.wallets[f.maker_user_id].locked_balance, dec_mul(f.price, f.quantity)->0),
        exact_sum(s.wallets[f.maker_user_id].available_balance, dec_mul(f.price, f.quantity)->0),
    ensures
        settle_fill(s, f, taker_side, taker_type) matches Some(s2) ==> {
            let w = s.wallets[f.maker_user_id];
            let w2 = s2.wallets[f.maker_user_id];
            &&& s2.wallets.contains_key(f.maker_user_id)
            &&& w2.locked_balance.val() * pow10(28) == w.locked_balance.val() * pow10(28) - f.price.val()
                * f.quantity.val()
            &&& w2.available_balance.val() * pow10(28) == w.available_balance.val() * pow10(28)
                + f.price.val() * f.quantity.val()
        },
{
    lemma_mul_exact(f.price, f.quantity);
    lemma_mul_representable(f.price, f.quantity);
    let v = dec_mul(f.price, f.quantity)->0;
    let w = s.wallets[f.maker_user_id];
    lemma_sub_exact(w.locked_balance, v);
    lemma_add_exact(w.available_balance, v);
    if let Some(s2) = settle_fill(s, f, taker_side, taker_type) {
        let s1 = EngineView { last_trade_prices: s.last_trade_prices.insert(f.market, f.price), ..s };
        let sa = change_wallet(s1, f.maker_user_id, unlock(w, v))->0;
        let w2 = unlock(w, v)->0;
        assert(sa.wallets[f.maker_user_id] == w2);
        let taker_w = if sa.wallets.contains_key(f.taker_user_id) {
            if taker_type == OrderType::LIMIT {
                unlock(sa.wallets[f.taker_user_id], v)
            } else {
                debit(sa.wallets[f.taker_user_id], v)
            }
        } else {
            None
        };
        let s3 = change_wallet(sa, f.taker_user_id, taker_w)->0;
        assert(s3.wallets[f.maker_user_id] == w2);
        assert(s2.wallets == s3.wallets);
        lemma_pow10_positive(28);
        let k = pow10(28);
        assert(w2.locked_balance.val() * k == w.locked_balance.val() * k - v.val() * k) by (nonlinear_arith)
            requires
                w2.locked_balance.val() == w.locked_balance.val() - v.val(),
        ;
        assert(w2.available_balance.val() * k == w.available_balance.val() * k + v.val() * k) by (nonlinear_arith)
            requires
                w2.available_balance.val() == w.available_balance.val() + v.val(),
        ;
    }
}

/// Settling a fill for a market taker pays the matched value `price *
/// quantity` from the taker's available balance and leaves its locked
/// balance alone. Stated for a taker other than the maker, with a wallet,
/// where the product and the debit are exact.
pub proof fn law_market_taker_fill_pays_matched_value(s: EngineView, f: Fill, taker_side: OrderSide)
    requires
        f.taker_user_id != f.maker_user_id,
        s.wallets.contains_key(f.taker_user_id),
        s.wallets[f.taker_user_id].available_balance.parts_ok(),
        f.price.parts_ok(),
        f.quantity.parts_ok(),
        f.price.man() == 0 || f.quantity.man() == 0 || exact_product(f.price, f.quantity),
        exact_difference(s.wallets[f.taker_user_id].available_balance, dec_mul(f.price, f.quantity)->0),
    ensures
        settle_fill(s, f, taker_side, OrderType::MARKET) matches Some(s2) ==> {
            let w = s.wallets[f.taker_user_id];
            let w2 = s2.wallets[f.taker_user_id];
            &&& s2.wallets.contains_key(f.taker_user_id)
            &&& w2.locked_balance == w.locked_balance
            &&& w2.available_balance.val() * pow10(28) == w.available_balance.val() * pow10(28)
                - f.price.val() * f.quantity.val()
        },
{
    lemma_mul_exact(f.price, f.quantity);
    lemma_mul_representable(f.price, f.quantity);
    let v = dec_mul(f.price, f.quantity)->0;
    let w = s.wallets[f.taker_user_id];
    lemma_sub_exact(w.available_balance, v);
    if let Some(s2) = settle_fill(s, f, taker_side, OrderType::MARKET) {
        let s1 = EngineView { last_trade_prices: s.last_trade_prices.insert(f.market, f.price), ..s };
        let maker_w = if s1.wallets.contains_key(f.maker_user_id) {
            unlock(s1.wallets[f.maker_user_id], v)
        } else {
            None
        };
        let sa = change_wallet(s1, f.maker_user_id, maker_w)->0;
        assert(sa.wallets[f.taker_user_id] == w);
        let s3 = change_wallet(sa, f.taker_user_id, debit(w, v))->0;
        let w2 = debit(w, v)->0;
        assert(s3.wallets[f.taker_user_id] == w2);
        assert(s2.wallets == s3.wallets);
        lemma_pow10_positive(28);
        let k = pow10(28);
        assert(w2.available_balance.val() * k == w.available_balance.val() * k - v.val() * k) by (nonlinear_arith)
            requires
                w2.available_balance.val() == w.available_balance.val() - v.val(),
        ;
    }
}

} // verus!

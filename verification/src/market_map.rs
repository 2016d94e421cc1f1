//! A table with at most one entry per market.
use crate::types::Market;
use vstd::prelude::*;

verus! {

/// At most one value per market.
#[derive(Clone, Copy, Debug)]
pub struct MarketMap<V> {
    sol: Option<V>,
    btc: Option<V>,
    eth: Option<V>,
}

impl<V> MarketMap<V> {
    pub closed spec fn slot(self, m: Market) -> Option<V> {
        match m {
            Market::SOL_PERP => self.sol,
            Market::BTC_PERP => self.btc,
            Market::ETH_PERP => self.eth,
        }
    }
}

impl<V> View for MarketMap<V> {
    type V = Map<Market, V>;

    open spec fn view(&self) -> Map<Market, V> {
        Map::new(|m: Market| self.slot(m) is Some, |m: Market| self.slot(m)->0)
    }
}

impl<V: Copy> MarketMap<V> {
    /// A table with no entries.
    pub fn empty() -> (r: MarketMap<V>)
        ensures
            r@ == Map::<Market, V>::empty(),
    {
        let r = MarketMap { sol: None, btc: None, eth: None };
        assert(r@ =~= Map::<Market, V>::empty());
        r
    }

    /// The entry for `m`, if any.
    pub fn get(&self, m: Market) -> (r: Option<V>)
        ensures
            r == (if self@.contains_key(m) {
                Some(self@[m])
            } else {
                None::<V>
            }),
    {
        match m {
            Market::SOL_PERP => self.sol,
            Market::BTC_PERP => self.btc,
            Market::ETH_PERP => self.eth,
        }
    }

    /// The entry for `m`, or `default` when there is none.
    pub fn get_or(&self, m: Market, default: V) -> (r: V)
        ensures
            r == (if self@.contains_key(m) {
                self@[m]
            } else {
                default
            }),
    {
        match self.get(m) {
            Some(v) => v,
            None => default,
        }
    }

    /// Sets the entry for `m`.
    pub fn insert(&mut self, m: Market, v: V)
        ensures
            final(self)@ == old(self)@.insert(m, v),
    {
        match m {
            Market::SOL_PERP => {
                self.sol = Some(v);
            },
            Market::BTC_PERP => {
                self.btc = Some(v);
            },
            Market::ETH_PERP => {
                self.eth = Some(v);
            },
        }
        assert(self@ =~= old(self)@.insert(m, v));
    }

    /// Drops the entry for `m`.
    pub fn remove(&mut self, m: Market)
        ensures
            final(self)@ == old(self)@.remove(m),
    {
        match m {
            Market::SOL_PERP => {
                self.sol = None;
            },
            Market::BTC_PERP => {
                self.btc = None;
            },
            Market::ETH_PERP => {
                self.eth = None;
            },
        }
        assert(self@ =~= old(self)@.remove(m));
    }
}

} // verus!

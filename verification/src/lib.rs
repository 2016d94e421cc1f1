//! Matching, settlement and valuation logic of a perpetual-futures exchange.
use vstd::prelude::*;

pub mod decimal;
pub mod ids;
pub mod text;
pub mod types;
pub mod market_map;
pub mod orderbook;
pub mod book_laws;
pub mod engine;
pub mod valuation;
pub mod handler;
pub mod engine_laws;
pub mod handlers;
pub mod stream;

verus! {

} // verus!

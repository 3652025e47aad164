//! A marketplace settlement engine for uniquely owned digital assets, together
//! with the asset ledger that such a marketplace trades against.
use vstd::prelude::*;

pub mod assoc;
pub mod error;
pub mod payout;
pub mod market;
pub mod token;
pub mod nft;
pub mod nft_core;
pub mod enumerable;
pub mod sale_views;

verus! {

} // verus!

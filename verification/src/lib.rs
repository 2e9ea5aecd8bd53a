//! Decision logic of an energy economy for agent fleets: the circadian
//! state table, the apoptosis decision tiers and shutdown sequence, and
//! the order-book bookkeeping of the trust-weighted double auction.

pub mod circadian;
pub mod apoptosis;
pub mod market;

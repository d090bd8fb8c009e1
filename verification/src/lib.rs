//! Transactional point-of-sale engine: sales, stock, cash-register sessions.
//!
//! The store is a single serialized state; every operation is all-or-nothing.
use vstd::prelude::*;

pub mod errors;
pub mod product;
pub mod category;
pub mod user;
pub mod cash_register;
pub mod sale;
pub mod inventory;
pub mod store;
pub mod sales;
pub mod sessions;
pub mod adjustments;
pub mod catalog;
pub mod laws;

verus! {

/// Upper bound on every money amount and quantity held by the store,
/// in minor units. Keeps all sums and products within machine integers.
pub const AMOUNT_LIMIT: u64 = 1_000_000_000_000_000;

} // verus!

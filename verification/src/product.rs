//! Products and the requests that create or update them.
//!
//! Prices, stock levels and thresholds are integers in minor units; the
//! timestamps are ticks supplied by the caller.
use vstd::prelude::*;
use crate::AMOUNT_LIMIT;

verus! {

#[derive(Debug)]
pub struct Product {
    pub id: u64,
    pub name: String,
    pub description: Option<String>,
    pub barcode: Option<String>,
    /// Current live unit price, in minor units.
    pub price: u64,
    pub unit: String,
    pub category_id: Option<u64>,
    /// On-hand quantity. Non-negative by construction, at most `AMOUNT_LIMIT`.
    pub stock: u64,
    /// Advisory low-stock threshold; never enforced.
    pub min_stock: u64,
    pub active: bool,
    pub created_at: u64,
    pub updated_at: u64,
}

impl Product {
    /// All amounts a product carries stay within the machine limit.
    pub open spec fn wf(self) -> bool {
        self.price <= AMOUNT_LIMIT && self.stock <= AMOUNT_LIMIT && self.min_stock <= AMOUNT_LIMIT
    }

    /// A field-for-field copy.
    pub fn duplicate(&self) -> (r: Product)
        ensures
            r == *self,
    {
        Product {
            id: self.id,
            name: self.name.clone(),
            description: clone_opt_string(&self.description),
            barcode: clone_opt_string(&self.barcode),
            price: self.price,
            unit: self.unit.clone(),
            category_id: self.category_id,
            stock: self.stock,
            min_stock: self.min_stock,
            active: self.active,
            created_at: self.created_at,
            updated_at: self.updated_at,
        }
    }
}

/// The character sequence behind an optional string.
pub open spec fn opt_view(o: Option<String>) -> Option<Seq<char>> {
    match o {
        Some(s) => Some(s@),
        None => None,
    }
}

/// Copies an optional string, keeping its value.
pub fn clone_opt_string(s: &Option<String>) -> (r: Option<String>)
    ensures
        r == *s,
{
    match s {
        Some(v) => Some(v.clone()),
        None => None,
    }
}

pub struct CreateProductRequest {
    pub name: String,
    pub description: Option<String>,
    pub barcode: Option<String>,
    pub price: u64,
    pub unit: String,
    pub category_id: Option<u64>,
    pub stock: Option<u64>,
    pub min_stock: Option<u64>,
}

pub struct UpdateProductRequest {
    pub id: u64,
    pub name: Option<String>,
    pub description: Option<String>,
    pub barcode: Option<String>,
    pub price: Option<u64>,
    pub unit: Option<String>,
    pub category_id: Option<u64>,
    pub min_stock: Option<u64>,
    pub active: Option<bool>,
}

} // verus!

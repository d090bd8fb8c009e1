//! Manual stock corrections with their append-only audit trail.
use vstd::prelude::*;
use crate::AMOUNT_LIMIT;
use crate::product::clone_opt_string;

verus! {

/// An adjustment type that adds `quantity` to the stock.
pub open spec fn is_additive_kind(kind: Seq<char>) -> bool {
    kind == "add"@ || kind == "positive"@
}

/// An adjustment type that subtracts `quantity` from the stock.
pub open spec fn is_negative_kind(kind: Seq<char>) -> bool {
    kind == "negative"@
}

/// An audit record of one manual stock correction; never mutated or deleted.
#[derive(Debug)]
pub struct InventoryAdjustment {
    pub id: u64,
    pub product_id: u64,
    pub product_name: Option<String>,
    pub user_id: u64,
    pub user_name: Option<String>,
    /// One of `add`, `positive` (both increase) or `negative` (decrease).
    pub adjustment_type: String,
    pub quantity: u64,
    /// Stock level before the correction.
    pub previous_stock: u64,
    /// Stock level after the correction.
    pub new_stock: u64,
    pub reason: Option<String>,
    pub created_at: u64,
}

impl InventoryAdjustment {
    /// The recorded before/after stock levels agree with the recorded
    /// adjustment type and quantity, and stay within the machine limit.
    pub open spec fn wf(self) -> bool {
        &&& self.quantity <= AMOUNT_LIMIT
        &&& self.previous_stock <= AMOUNT_LIMIT
        &&& self.new_stock <= AMOUNT_LIMIT
        &&& (is_additive_kind(self.adjustment_type@) || is_negative_kind(
            self.adjustment_type@,
        ))
        &&& (is_additive_kind(self.adjustment_type@) ==> self.new_stock == self.previous_stock
            + self.quantity)
        &&& (is_negative_kind(self.adjustment_type@) ==> self.new_stock == self.previous_stock
            - self.quantity && self.quantity <= self.previous_stock)
    }

    /// A field-for-field copy.
    pub fn duplicate(&self) -> (r: InventoryAdjustment)
        ensures
            r == *self,
    {
        InventoryAdjustment {
            id: self.id,
            product_id: self.product_id,
            product_name: clone_opt_string(&self.product_name),
            user_id: self.user_id,
            user_name: clone_opt_string(&self.user_name),
            adjustment_type: self.adjustment_type.clone(),
            quantity: self.quantity,
            previous_stock: self.previous_stock,
            new_stock: self.new_stock,
            reason: clone_opt_string(&self.reason),
            created_at: self.created_at,
        }
    }
}

pub struct CreateInventoryAdjustmentRequest {
    pub product_id: u64,
    pub user_id: u64,
    pub adjustment_type: String,
    pub quantity: u64,
    pub reason: Option<String>,
}

pub struct GetInventoryAdjustmentsByDateRangeRequest {
    pub start_date: u64,
    pub end_date: u64,
}

} // verus!

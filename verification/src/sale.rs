//! Sales, their line items, and the aggregates computed over them.
use vstd::prelude::*;
use crate::product::clone_opt_string;

verus! {

#[derive(Clone, Copy, Debug, PartialEq, Eq, Structural)]
pub enum SaleStatus {
    Completed,
    Cancelled,
}

/// A line of a sale. Name, price and subtotal are snapshots taken at sale
/// time, deliberately decoupled from the live product.
#[derive(Debug)]
pub struct SaleItem {
    pub id: u64,
    pub sale_id: u64,
    pub product_id: u64,
    pub product_name: String,
    pub quantity: u64,
    /// Unit price at sale time, in minor units.
    pub unit_price: u64,
    /// `quantity * unit_price` at sale time.
    pub subtotal: u64,
}

impl SaleItem {
    /// A field-for-field copy.
    pub fn duplicate(&self) -> (r: SaleItem)
        ensures
            r == *self,
    {
        SaleItem {
            id: self.id,
            sale_id: self.sale_id,
            product_id: self.product_id,
            product_name: self.product_name.clone(),
            quantity: self.quantity,
            unit_price: self.unit_price,
            subtotal: self.subtotal,
        }
    }
}

#[derive(Debug)]
pub struct Sale {
    pub id: u64,
    pub cash_register_session_id: u64,
    pub user_id: u64,
    pub user_name: Option<String>,
    /// Sum of the item subtotals, in minor units.
    pub total: u64,
    pub payment_method: String,
    pub payment_amount: u64,
    /// `payment_amount - total`; never negative.
    pub change_amount: u64,
    pub status: SaleStatus,
    pub created_at: u64,
    pub items: Vec<SaleItem>,
}

impl Sale {
    /// A deep copy of the sale and its items.
    pub fn duplicate(&self) -> (r: Sale)
        ensures
            r.id == self.id,
            r.cash_register_session_id == self.cash_register_session_id,
            r.user_id == self.user_id,
            r.user_name == self.user_name,
            r.total == self.total,
            r.payment_method == self.payment_method,
            r.payment_amount == self.payment_amount,
            r.change_amount == self.change_amount,
            r.status == self.status,
            r.created_at == self.created_at,
            r.items@ =~= self.items@,
    {
        let mut items: Vec<SaleItem> = Vec::new();
        let mut i: usize = 0;
        while i < self.items.len()
            invariant
                i <= self.items.len(),
                items@ =~= self.items@.take(i as int),
            decreases self.items.len() - i,
        {
            items.push(self.items[i].duplicate());
            proof {
                assert(items@ =~= self.items@.take(i + 1 as int));
            }
            i = i + 1;
        }
        proof {
            assert(self.items@.take(self.items@.len() as int) =~= self.items@);
        }
        Sale {
            id: self.id,
            cash_register_session_id: self.cash_register_session_id,
            user_id: self.user_id,
            user_name: clone_opt_string(&self.user_name),
            total: self.total,
            payment_method: self.payment_method.clone(),
            payment_amount: self.payment_amount,
            change_amount: self.change_amount,
            status: self.status,
            created_at: self.created_at,
            items,
        }
    }
}

impl Sale {
    /// A copy of the sale's header row alone: every scalar field, with the
    /// item list left empty, as the whole-list queries hand sales out.
    pub fn duplicate_header(&self) -> (r: Sale)
        ensures
            sale_header_like(r, *self),
    {
        Sale {
            id: self.id,
            cash_register_session_id: self.cash_register_session_id,
            user_id: self.user_id,
            user_name: clone_opt_string(&self.user_name),
            total: self.total,
            payment_method: self.payment_method.clone(),
            payment_amount: self.payment_amount,
            change_amount: self.change_amount,
            status: self.status,
            created_at: self.created_at,
            items: Vec::new(),
        }
    }
}

/// The first sale is the second's header row: every field agrees except
/// that the first carries no items.
pub open spec fn sale_header_like(a: Sale, b: Sale) -> bool {
    &&& a.id == b.id
    &&& a.cash_register_session_id == b.cash_register_session_id
    &&& a.user_id == b.user_id
    &&& a.user_name == b.user_name
    &&& a.total == b.total
    &&& a.payment_method == b.payment_method
    &&& a.payment_amount == b.payment_amount
    &&& a.change_amount == b.change_amount
    &&& a.status == b.status
    &&& a.created_at == b.created_at
    &&& a.items@.len() == 0
}

/// Two sales agree on every field; the item lists are equal as sequences.
pub open spec fn sale_like(a: Sale, b: Sale) -> bool {
    &&& a.id == b.id
    &&& a.cash_register_session_id == b.cash_register_session_id
    &&& a.user_id == b.user_id
    &&& a.user_name == b.user_name
    &&& a.total == b.total
    &&& a.payment_method == b.payment_method
    &&& a.payment_amount == b.payment_amount
    &&& a.change_amount == b.change_amount
    &&& a.status == b.status
    &&& a.created_at == b.created_at
    &&& a.items@ == b.items@
}

/// Sum of the subtotals of a sequence of sale items, as a mathematical
/// integer.
pub open spec fn sum_subtotals(items: Seq<SaleItem>) -> int
    decreases items.len(),
{
    if items.len() == 0 {
        0
    } else {
        sum_subtotals(items.drop_last()) + items.last().subtotal
    }
}

/// Total quantity a sequence of sale items demands of one product.
pub open spec fn demand(items: Seq<SaleItem>, product_id: u64) -> int
    decreases items.len(),
{
    if items.len() == 0 {
        0
    } else {
        demand(items.drop_last(), product_id) + if items.last().product_id == product_id {
            items.last().quantity as int
        } else {
            0
        }
    }
}

/// Total revenue a sequence of sale items earned on one product.
pub open spec fn revenue(items: Seq<SaleItem>, product_id: u64) -> int
    decreases items.len(),
{
    if items.len() == 0 {
        0
    } else {
        revenue(items.drop_last(), product_id) + if items.last().product_id == product_id {
            items.last().subtotal as int
        } else {
            0
        }
    }
}

pub struct CreateSaleItemRequest {
    pub product_id: u64,
    pub quantity: u64,
}

pub struct CreateSaleRequest {
    pub cash_register_session_id: u64,
    pub user_id: u64,
    pub payment_method: String,
    pub payment_amount: u64,
    pub items: Vec<CreateSaleItemRequest>,
}

#[derive(Debug)]
pub struct SalesReport {
    pub total_sales: u64,
    pub total_transactions: u64,
    /// `total_sales / total_transactions`, rounded down; zero when empty.
    pub average_sale: u64,
    pub sales: Vec<Sale>,
}

#[derive(Debug)]
pub struct TopProduct {
    pub product_id: u64,
    pub product_name: String,
    pub total_quantity: u64,
    pub total_revenue: u64,
}

impl TopProduct {
    /// A field-for-field copy.
    pub fn duplicate(&self) -> (r: TopProduct)
        ensures
            r == *self,
    {
        TopProduct {
            product_id: self.product_id,
            product_name: self.product_name.clone(),
            total_quantity: self.total_quantity,
            total_revenue: self.total_revenue,
        }
    }
}

pub struct DateRangeRequest {
    pub start_date: u64,
    pub end_date: u64,
}

} // verus!

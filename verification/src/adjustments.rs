//! Manual inventory corrections, audited and atomic with the stock write.
use vstd::prelude::*;
use crate::AMOUNT_LIMIT;
use crate::errors::PosError;
use crate::product::Product;
use crate::inventory::{
    InventoryAdjustment, CreateInventoryAdjustmentRequest, GetInventoryAdjustmentsByDateRangeRequest,
    is_additive_kind, is_negative_kind,
};
use crate::store::{
    Store, has_product, product_at, index_of_product, has_user, user_at, find_product_index,
    find_user_index, lemma_product_index, lemma_user_index, lemma_same_ids_has_product,
};

verus! {

/// No adjustment type is both additive and negative.
pub proof fn lemma_kinds_disjoint(k: Seq<char>)
    ensures
        !(is_additive_kind(k) && is_negative_kind(k)),
{
    reveal_strlit("add");
    reveal_strlit("positive");
    reveal_strlit("negative");
    assert("add"@.len() == 3);
    assert("negative"@.len() == 8);
    assert("positive"@[0] == 'p');
    assert("negative"@[0] == 'n');
}

/// The adjustments recorded against one product, oldest first.
pub open spec fn adjustments_of_product(
    adjustments: Seq<InventoryAdjustment>,
    product_id: u64,
) -> Seq<InventoryAdjustment>
    decreases adjustments.len(),
{
    if adjustments.len() == 0 {
        Seq::empty()
    } else {
        let rest = adjustments_of_product(adjustments.drop_last(), product_id);
        if adjustments.last().product_id == product_id {
            rest.push(adjustments.last())
        } else {
            rest
        }
    }
}

/// The adjustments recorded within a closed time range, oldest first.
pub open spec fn adjustments_in_range(
    adjustments: Seq<InventoryAdjustment>,
    start: u64,
    end: u64,
) -> Seq<InventoryAdjustment>
    decreases adjustments.len(),
{
    if adjustments.len() == 0 {
        Seq::empty()
    } else {
        let rest = adjustments_in_range(adjustments.drop_last(), start, end);
        if start <= adjustments.last().created_at <= end {
            rest.push(adjustments.last())
        } else {
            rest
        }
    }
}

/// Reverses an adjustment list, moving the elements.
fn reversed_adjustments(v: Vec<InventoryAdjustment>) -> (r: Vec<InventoryAdjustment>)
    ensures
        r@.len() == v@.len(),
        forall|i: int| 0 <= i < r@.len() ==> #[trigger] r@[i] == v@[v@.len() - 1 - i],
{
    let ghost v0 = v@;
    let mut v = v;
    let mut r: Vec<InventoryAdjustment> = Vec::new();
    while v.len() > 0
        invariant
            v@ =~= v0.take(v@.len() as int),
            r@.len() + v@.len() == v0.len(),
            forall|i: int| 0 <= i < r@.len() ==> #[trigger] r@[i] == v0[v0.len() - 1 - i],
        decreases v@.len(),
    {
        let ghost l = v@.len() as int;
        match v.pop() {
            Some(x) => {
                proof {
                    assert(v0.take(l).drop_last() =~= v0.take(l - 1));
                    assert(x == v0[l - 1]);
                }
                r.push(x);
            },
            None => {
            },
        }
    }
    r
}

impl Store {
    /// Applies a manual stock correction through the stock ledger and
    /// persists its audit record in the same atomic step. `add` and
    /// `positive` raise the stock by the quantity, `negative` lowers it and
    /// surfaces `InsufficientStock` unchanged; any other type is refused.
    pub fn create_inventory_adjustment(
        &mut self,
        request: &CreateInventoryAdjustmentRequest,
        now: u64,
    ) -> (r: Result<InventoryAdjustment, PosError>)
        requires
            old(self).wf(),
        ensures
            final(self).wf(),
            !has_product(old(self).products@, request.product_id) ==> r == Err::<
                InventoryAdjustment,
                PosError,
            >(PosError::NotFound) && *final(self) == *old(self),
            has_product(old(self).products@, request.product_id) ==> ({
                let p = product_at(old(self).products@, request.product_id);
                let k = request.adjustment_type@;
                &&& (!is_additive_kind(k) && !is_negative_kind(k) ==> r == Err::<
                    InventoryAdjustment,
                    PosError,
                >(PosError::InvalidAdjustmentType) && *final(self) == *old(self))
                &&& (is_negative_kind(k) && p.stock < request.quantity ==> r == Err::<
                    InventoryAdjustment,
                    PosError,
                >(PosError::InsufficientStock) && *final(self) == *old(self))
                &&& (is_additive_kind(k) && p.stock + request.quantity > AMOUNT_LIMIT ==> r
                    == Err::<InventoryAdjustment, PosError>(PosError::LimitExceeded)
                    && *final(self) == *old(self))
                &&& ({
                    let ns: int = if is_additive_kind(k) {
                        p.stock + request.quantity
                    } else {
                        p.stock - request.quantity
                    };
                    let stock_ok = (is_additive_kind(k) && p.stock + request.quantity
                        <= AMOUNT_LIMIT) || (is_negative_kind(k) && request.quantity <= p.stock);
                    &&& (stock_ok && !has_user(old(self).users@, request.user_id) ==> r == Err::<
                        InventoryAdjustment,
                        PosError,
                    >(PosError::NotFound) && *final(self) == *old(self))
                    &&& (stock_ok && has_user(old(self).users@, request.user_id) && old(
                        self,
                    ).next_adjustment_id == u64::MAX ==> r == Err::<
                        InventoryAdjustment,
                        PosError,
                    >(PosError::LimitExceeded) && *final(self) == *old(self))
                    &&& (stock_ok && has_user(old(self).users@, request.user_id) && old(
                        self,
                    ).next_adjustment_id < u64::MAX ==> ({
                        let adj = (InventoryAdjustment {
                            id: old(self).next_adjustment_id,
                            product_id: request.product_id,
                            product_name: Some(p.name),
                            user_id: request.user_id,
                            user_name: Some(
                                user_at(old(self).users@, request.user_id).user.full_name,
                            ),
                            adjustment_type: request.adjustment_type,
                            quantity: request.quantity,
                            previous_stock: p.stock,
                            new_stock: ns as u64,
                            reason: request.reason,
                            created_at: now,
                        });
                        &&& r == Ok::<InventoryAdjustment, PosError>(adj)
                        &&& final(self).adjustments@ == old(self).adjustments@.push(adj)
                        &&& final(self).products@ == old(self).products@.update(
                            index_of_product(old(self).products@, request.product_id),
                            (Product { stock: ns as u64, updated_at: now, ..p }),
                        )
                        &&& final(self).next_adjustment_id == old(self).next_adjustment_id + 1
                        &&& final(self).categories == old(self).categories
                        &&& final(self).users == old(self).users
                        &&& final(self).sessions == old(self).sessions
                        &&& final(self).sales == old(self).sales
                        &&& final(self).next_product_id == old(self).next_product_id
                        &&& final(self).next_category_id == old(self).next_category_id
                        &&& final(self).next_user_id == old(self).next_user_id
                        &&& final(self).next_session_id == old(self).next_session_id
                        &&& final(self).next_sale_id == old(self).next_sale_id
                        &&& final(self).next_sale_item_id == old(self).next_sale_item_id
                    }))
                })
            }),
    {
        let pidx = match find_product_index(&self.products, request.product_id) {
            None => {
                return Err(PosError::NotFound);
            },
            Some(i) => i,
        };
        proof {
            lemma_product_index(self.products@, request.product_id, pidx as int);
            lemma_kinds_disjoint(request.adjustment_type@);
        }
        let add_s: String = "add".to_owned();
        let positive_s: String = "positive".to_owned();
        let negative_s: String = "negative".to_owned();
        let additive = request.adjustment_type == add_s || request.adjustment_type == positive_s;
        let negative = request.adjustment_type == negative_s;
        let stock = self.products[pidx].stock;
        let new_stock: u64;
        if additive {
            if request.quantity > AMOUNT_LIMIT || stock + request.quantity > AMOUNT_LIMIT {
                return Err(PosError::LimitExceeded);
            }
            new_stock = stock + request.quantity;
        } else if negative {
            if stock < request.quantity {
                return Err(PosError::InsufficientStock);
            }
            new_stock = stock - request.quantity;
        } else {
            return Err(PosError::InvalidAdjustmentType);
        }
        let uidx = match find_user_index(&self.users, request.user_id) {
            None => {
                return Err(PosError::NotFound);
            },
            Some(i) => i,
        };
        proof {
            lemma_user_index(self.users@, request.user_id, uidx as int);
        }
        if self.next_adjustment_id == u64::MAX {
            return Err(PosError::LimitExceeded);
        }
        let product_name = Some(self.products[pidx].name.clone());
        let user_name = Some(self.users[uidx].user.full_name.clone());
        let ghost o = *self;
        let delta: i64 = if additive {
            request.quantity as i64
        } else {
            -(request.quantity as i64)
        };
        let applied = self.apply_delta(request.product_id, delta, now);
        let applied_stock: u64 = match applied {
            Ok(ns) => ns,
            Err(_) => {
                proof {
                    assert(false);
                }
                return Err(PosError::NotFound);
            },
        };
        proof {
            assert(applied_stock == new_stock);
        }
        let adj = InventoryAdjustment {
            id: self.next_adjustment_id,
            product_id: request.product_id,
            product_name,
            user_id: request.user_id,
            user_name,
            adjustment_type: request.adjustment_type.clone(),
            quantity: request.quantity,
            previous_stock: stock,
            new_stock: applied_stock,
            reason: crate::product::clone_opt_string(&request.reason),
            created_at: now,
        };
        let ret = adj.duplicate();
        self.adjustments.push(adj);
        self.next_adjustment_id = self.next_adjustment_id + 1;
        proof {
            lemma_same_ids_has_product(o.products@, self.products@);
            assert(self.adjustments@.drop_last() =~= o.adjustments@);
            assert(self.wf());
        }
        Ok(ret)
    }

    /// Every adjustment, newest first.
    pub fn get_inventory_adjustments(&self) -> (r: Vec<InventoryAdjustment>)
        requires
            self.wf(),
        ensures
            r@.len() == self.adjustments@.len(),
            forall|k: int|
                0 <= k < r@.len() ==> #[trigger] r@[k] == self.adjustments@[self.adjustments@.len()
                    - 1 - k],
            forall|a: int, b: int|
                0 <= a < b < r@.len() ==> (#[trigger] r@[a]).id > (#[trigger] r@[b]).id,
    {
        let mut r: Vec<InventoryAdjustment> = Vec::new();
        let mut i: usize = self.adjustments.len();
        while i > 0
            invariant
                crate::store::adjustments_ordered(self.adjustments@),
                i <= self.adjustments@.len(),
                r@.len() == self.adjustments@.len() - i,
                forall|k: int|
                    0 <= k < r@.len() ==> #[trigger] r@[k] == self.adjustments@[self.adjustments@
                        .len() - 1 - k],
            decreases i,
        {
            i = i - 1;
            r.push(self.adjustments[i].duplicate());
        }
        r
    }

    /// The adjustments recorded against one product, newest first.
    pub fn get_inventory_adjustments_by_product(&self, product_id: u64) -> (r: Vec<
        InventoryAdjustment,
    >)
        ensures
            ({
                let f = adjustments_of_product(self.adjustments@, product_id);
                r@.len() == f.len() && forall|k: int|
                    0 <= k < r@.len() ==> #[trigger] r@[k] == f[f.len() - 1 - k]
            }),
    {
        let mut r: Vec<InventoryAdjustment> = Vec::new();
        let mut i: usize = 0;
        while i < self.adjustments.len()
            invariant
                i <= self.adjustments@.len(),
                r@ == adjustments_of_product(self.adjustments@.take(i as int), product_id),
            decreases self.adjustments@.len() - i,
        {
            proof {
                assert(self.adjustments@.take(i + 1 as int).drop_last() =~= self.adjustments@.take(
                    i as int,
                ));
                assert(self.adjustments@.take(i + 1 as int).last() == self.adjustments@[i as int]);
            }
            if self.adjustments[i].product_id == product_id {
                r.push(self.adjustments[i].duplicate());
            }
            i = i + 1;
        }
        proof {
            assert(self.adjustments@.take(self.adjustments@.len() as int) =~= self.adjustments@);
        }
        reversed_adjustments(r)
    }

    /// The adjustments recorded within a closed time range, newest first.
    pub fn get_inventory_adjustments_by_date_range(
        &self,
        request: &GetInventoryAdjustmentsByDateRangeRequest,
    ) -> (r: Vec<InventoryAdjustment>)
        ensures
            ({
                let f = adjustments_in_range(
                    self.adjustments@,
                    request.start_date,
                    request.end_date,
                );
                r@.len() == f.len() && forall|k: int|
                    0 <= k < r@.len() ==> #[trigger] r@[k] == f[f.len() - 1 - k]
            }),
    {
        let mut r: Vec<InventoryAdjustment> = Vec::new();
        let mut i: usize = 0;
        while i < self.adjustments.len()
            invariant
                i <= self.adjustments@.len(),
                r@ == adjustments_in_range(
                    self.adjustments@.take(i as int),
                    request.start_date,
                    request.end_date,
                ),
            decreases self.adjustments@.len() - i,
        {
            proof {
                assert(self.adjustments@.take(i + 1 as int).drop_last() =~= self.adjustments@.take(
                    i as int,
                ));
                assert(self.adjustments@.take(i + 1 as int).last() == self.adjustments@[i as int]);
            }
            if request.start_date <= self.adjustments[i].created_at && self.adjustments[i]
                .created_at <= request.end_date {
                r.push(self.adjustments[i].duplicate());
            }
            i = i + 1;
        }
        proof {
            assert(self.adjustments@.take(self.adjustments@.len() as int) =~= self.adjustments@);
        }
        reversed_adjustments(r)
    }
}

} // verus!

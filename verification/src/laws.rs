//! The engine's conservation laws, proved once over the sale and restore
//! plans that the operations' contracts are stated with.
use vstd::prelude::*;
use crate::product::Product;
use crate::sale::{Sale, SaleItem, CreateSaleRequest, CreateSaleItemRequest, demand, sum_subtotals};
use crate::sales::{
    sale_plan, sale_step, restore_plan, restore_step, lines_demand, lines_total, SaleLine,
    lemma_sale_plan_props, created_sale_ok,
};
use crate::store::{
    Store, has_product, product_at, index_of_product, unique_product_ids, lemma_product_index,
};

verus! {

/// Prepending one line adds its quantity to the demand for its product.
proof fn lemma_lines_demand_prepend(l: SaleLine, rest: Seq<SaleLine>, pid: u64)
    ensures
        lines_demand(Seq::empty().push(l) + rest, pid) == lines_demand(rest, pid) + if l.0 == pid {
            l.2 as int
        } else {
            0
        },
    decreases rest.len(),
{
    let whole = Seq::empty().push(l) + rest;
    assert(whole.len() == 1 + rest.len());
    if rest.len() == 0 {
        assert(whole.drop_last() =~= Seq::<SaleLine>::empty());
        assert(whole.last() == l);
        assert(lines_demand(whole, pid) == lines_demand(whole.drop_last(), pid) + if whole.last().0
            == pid {
            whole.last().2 as int
        } else {
            0
        });
        assert(lines_demand(whole.drop_last(), pid) == 0);
    } else {
        assert(whole.drop_last() =~= Seq::empty().push(l) + rest.drop_last());
        assert(whole.last() == rest.last());
        lemma_lines_demand_prepend(l, rest.drop_last(), pid);
        assert(lines_demand(whole, pid) == lines_demand(whole.drop_last(), pid) + if whole.last().0
            == pid {
            whole.last().2 as int
        } else {
            0
        });
    }
}

/// Prepending one item adds its quantity to the demand for its product.
proof fn lemma_items_demand_prepend(it: SaleItem, rest: Seq<SaleItem>, pid: u64)
    ensures
        demand(Seq::empty().push(it) + rest, pid) == demand(rest, pid) + if it.product_id == pid {
            it.quantity as int
        } else {
            0
        },
    decreases rest.len(),
{
    let whole = Seq::empty().push(it) + rest;
    assert(whole.len() == 1 + rest.len());
    if rest.len() == 0 {
        assert(whole.drop_last() =~= Seq::<SaleItem>::empty());
        assert(whole.last() == it);
        assert(demand(whole, pid) == demand(whole.drop_last(), pid) + if whole.last().product_id
            == pid {
            whole.last().quantity as int
        } else {
            0
        });
        assert(demand(whole.drop_last(), pid) == 0);
    } else {
        assert(whole.drop_last() =~= Seq::empty().push(it) + rest.drop_last());
        assert(whole.last() == rest.last());
        lemma_items_demand_prepend(it, rest.drop_last(), pid);
        assert(demand(whole, pid) == demand(whole.drop_last(), pid) + if whole.last().product_id
            == pid {
            whole.last().quantity as int
        } else {
            0
        });
    }
}

/// Items that carry the same products and quantities as a list of lines
/// make the same demands.
proof fn lemma_items_demand_eq_lines(items: Seq<SaleItem>, lines: Seq<SaleLine>, pid: u64)
    requires
        items.len() == lines.len(),
        forall|j: int|
            0 <= j < items.len() ==> (#[trigger] items[j]).product_id == lines[j].0
                && items[j].quantity == lines[j].2,
    ensures
        demand(items, pid) == lines_demand(lines, pid),
    decreases items.len(),
{
    if items.len() > 0 {
        lemma_items_demand_eq_lines(items.drop_last(), lines.drop_last(), pid);
    }
}

/// Items whose subtotals match a list of lines sum to the lines' total.
proof fn lemma_items_sum_eq_lines(items: Seq<SaleItem>, lines: Seq<SaleLine>)
    requires
        items.len() == lines.len(),
        forall|j: int| 0 <= j < items.len() ==> (#[trigger] items[j]).subtotal as int == lines[j].4,
    ensures
        sum_subtotals(items) == lines_total(lines),
    decreases items.len(),
{
    if items.len() > 0 {
        lemma_items_sum_eq_lines(items.drop_last(), lines.drop_last());
    }
}

/// A committed sale's total is exactly the sum of its items' subtotals,
/// and the change is exactly what was tendered beyond that total.
pub proof fn lemma_sale_totals_consistent(
    sale: Sale,
    st: Store,
    req: CreateSaleRequest,
    now: u64,
    lines: Seq<SaleLine>,
)
    requires
        created_sale_ok(sale, st, req, now, lines),
    ensures
        sale.total as int == sum_subtotals(sale.items@),
        sale.change_amount as int == sale.payment_amount - sale.total,
        sale.payment_amount >= sale.total,
{
    lemma_items_sum_eq_lines(sale.items@, lines);
}

/// Stock is conserved by a sale: each product leaves a successful plan
/// with exactly the quantity the request demanded of it subtracted.
pub proof fn lemma_sale_conserves_stock(
    products: Seq<Product>,
    reqs: Seq<CreateSaleItemRequest>,
    now: u64,
)
    requires
        unique_product_ids(products),
        forall|i: int| 0 <= i < products.len() ==> (#[trigger] products[i]).wf(),
        sale_plan(products, reqs, now) is Ok,
    ensures
        ({
            let (newp, lines) = sale_plan(products, reqs, now)->Ok_0;
            &&& newp.len() == products.len()
            &&& forall|i: int|
                0 <= i < products.len() ==> (#[trigger] newp[i]).stock == products[i].stock
                    - lines_demand(lines, products[i].id)
        }),
    decreases reqs.len(),
{
    let (newp, lines) = sale_plan(products, reqs, now)->Ok_0;
    if reqs.len() == 0 {
        assert forall|i: int| 0 <= i < products.len() implies (#[trigger] newp[i]).stock
            == products[i].stock - lines_demand(lines, products[i].id) by {
            assert(lines.len() == 0);
        }
    } else {
        let step = sale_step(products, reqs[0], now);
        let (p2, line) = step->Ok_0;
        let i0 = index_of_product(products, reqs[0].product_id);
        lemma_sale_plan_props(products, reqs, now);
        lemma_sale_conserves_stock(p2, reqs.skip(1), now);
        let (p3, rest) = sale_plan(p2, reqs.skip(1), now)->Ok_0;
        assert(lines =~= Seq::empty().push(line) + rest);
        assert forall|i: int| 0 <= i < products.len() implies (#[trigger] newp[i]).stock
            == products[i].stock - lines_demand(lines, products[i].id) by {
            lemma_lines_demand_prepend(line, rest, products[i].id);
            assert(p2[i].id == products[i].id);
            if i == i0 {
                assert(p2[i].stock == products[i].stock - reqs[0].quantity);
            } else {
                assert(p2[i] == products[i]);
            }
        }
    }
}

/// Restoration is exact: each product leaves a successful restore plan
/// with exactly the quantity the items held of it added back.
pub proof fn lemma_restore_adds_back(products: Seq<Product>, items: Seq<SaleItem>, now: u64)
    requires
        unique_product_ids(products),
        restore_plan(products, items, now) is Ok,
    ensures
        ({
            let post = restore_plan(products, items, now)->Ok_0;
            &&& post.len() == products.len()
            &&& forall|i: int|
                0 <= i < products.len() ==> (#[trigger] post[i]).id == products[i].id && post[i]
                    .stock == products[i].stock + demand(items, products[i].id)
        }),
    decreases items.len(),
{
    let post = restore_plan(products, items, now)->Ok_0;
    if items.len() == 0 {
        assert forall|i: int| 0 <= i < products.len() implies (#[trigger] post[i]).id
            == products[i].id && post[i].stock == products[i].stock + demand(
            items,
            products[i].id,
        ) by {
            assert(demand(items, products[i].id) == 0);
        }
    } else {
        let step = restore_step(products, items[0], now);
        let p2 = step->Ok_0;
        let i0 = index_of_product(products, items[0].product_id);
        assert(unique_product_ids(p2));
        lemma_restore_adds_back(p2, items.skip(1), now);
        assert forall|i: int| 0 <= i < products.len() implies (#[trigger] post[i]).id
            == products[i].id && post[i].stock == products[i].stock + demand(
            items,
            products[i].id,
        ) by {
            assert(items =~= Seq::empty().push(items[0]) + items.skip(1));
            lemma_items_demand_prepend(items[0], items.skip(1), products[i].id);
            assert(p2[i].id == products[i].id);
            if i == i0 {
                assert(p2[i].stock == products[i].stock + items[0].quantity);
            } else {
                assert(p2[i] == products[i]);
            }
        }
    }
}

/// A successful plan never demanded more of a product than it had at the
/// start: every requested line named an existing product and a quantity
/// within its opening stock.
pub proof fn lemma_plan_ok_demand_bounded(
    products: Seq<Product>,
    reqs: Seq<CreateSaleItemRequest>,
    now: u64,
)
    requires
        unique_product_ids(products),
        forall|i: int| 0 <= i < products.len() ==> (#[trigger] products[i]).wf(),
        sale_plan(products, reqs, now) is Ok,
    ensures
        forall|j: int|
            0 <= j < reqs.len() ==> has_product(products, (#[trigger] reqs[j]).product_id)
                && reqs[j].quantity <= product_at(products, reqs[j].product_id).stock,
    decreases reqs.len(),
{
    if reqs.len() > 0 {
        let step = sale_step(products, reqs[0], now);
        let (p2, line) = step->Ok_0;
        let i0 = index_of_product(products, reqs[0].product_id);
        assert(unique_product_ids(p2));
        lemma_plan_ok_demand_bounded(p2, reqs.skip(1), now);
        assert forall|j: int| 0 <= j < reqs.len() implies has_product(
            products,
            (#[trigger] reqs[j]).product_id,
        ) && reqs[j].quantity <= product_at(products, reqs[j].product_id).stock by {
            if j == 0 {
            } else {
                let q = reqs.skip(1)[j - 1];
                assert(q == reqs[j]);
                assert(has_product(p2, q.product_id));
                let w = index_of_product(p2, q.product_id);
                assert(p2[w].id == q.product_id);
                assert(products[w].id == q.product_id);
                lemma_product_index(products, q.product_id, w);
                assert(product_at(p2, q.product_id) == p2[w]);
                assert(p2[w].stock <= products[w].stock);
            }
        }
    }
}

/// A request that asks for more of any product than its current stock is
/// rejected as a whole: the plan fails, so no sale row, no item row and no
/// stock change becomes visible for any line of the request.
pub proof fn lemma_oversold_request_rejected(
    products: Seq<Product>,
    reqs: Seq<CreateSaleItemRequest>,
    now: u64,
    j: int,
)
    requires
        unique_product_ids(products),
        forall|i: int| 0 <= i < products.len() ==> (#[trigger] products[i]).wf(),
        0 <= j < reqs.len(),
        has_product(products, reqs[j].product_id),
        reqs[j].quantity > product_at(products, reqs[j].product_id).stock,
    ensures
        sale_plan(products, reqs, now) is Err,
{
    if sale_plan(products, reqs, now) is Ok {
        lemma_plan_ok_demand_bounded(products, reqs, now);
    }
}

/// Selling and then cancelling is a round trip for stock: after a
/// successful sale of these lines and a successful restoration of items
/// carrying the same products and quantities, every product holds exactly
/// its pre-sale stock again.
pub proof fn lemma_cancel_restores_stock(
    products: Seq<Product>,
    reqs: Seq<CreateSaleItemRequest>,
    items: Seq<SaleItem>,
    sale_time: u64,
    cancel_time: u64,
)
    requires
        unique_product_ids(products),
        forall|i: int| 0 <= i < products.len() ==> (#[trigger] products[i]).wf(),
        sale_plan(products, reqs, sale_time) is Ok,
        ({
            let (mid, lines) = sale_plan(products, reqs, sale_time)->Ok_0;
            &&& items.len() == lines.len()
            &&& forall|j: int|
                0 <= j < items.len() ==> (#[trigger] items[j]).product_id == lines[j].0
                    && items[j].quantity == lines[j].2
            &&& restore_plan(mid, items, cancel_time) is Ok
        }),
    ensures
        ({
            let (mid, lines) = sale_plan(products, reqs, sale_time)->Ok_0;
            let post = restore_plan(mid, items, cancel_time)->Ok_0;
            &&& post.len() == products.len()
            &&& forall|i: int|
                0 <= i < products.len() ==> (#[trigger] post[i]).stock == products[i].stock
        }),
{
    let (mid, lines) = sale_plan(products, reqs, sale_time)->Ok_0;
    let post = restore_plan(mid, items, cancel_time)->Ok_0;
    lemma_sale_plan_props(products, reqs, sale_time);
    lemma_sale_conserves_stock(products, reqs, sale_time);
    lemma_restore_adds_back(mid, items, cancel_time);
    assert forall|i: int| 0 <= i < products.len() implies (#[trigger] post[i]).stock
        == products[i].stock by {
        lemma_items_demand_eq_lines(items, lines, products[i].id);
        assert(mid[i].id == products[i].id);
        assert(mid[i].stock == products[i].stock - lines_demand(lines, products[i].id));
        assert(post[i].stock == mid[i].stock + demand(items, mid[i].id));
    }
}

} // verus!

//! Sale processing: validation, atomic commit, cancellation, queries.
use vstd::prelude::*;
use crate::AMOUNT_LIMIT;
use crate::errors::PosError;
use crate::product::{Product, opt_view};
use crate::sale::{
    Sale, SaleItem, SaleStatus, CreateSaleRequest, CreateSaleItemRequest, sum_subtotals, sale_like,
    sale_header_like,
};
use crate::store::{
    Store, has_product, index_of_product, unique_product_ids, has_session, has_user,
    user_at, completed_total, find_product_index, find_session_index, find_user_index,
    find_sale_index, has_sale, sale_at, index_of_sale, lemma_product_index, lemma_session_index,
    lemma_user_index, lemma_sale_index,
};

verus! {

/// One validated sale line before it is persisted: product id, snapshot of
/// the product name, quantity, snapshot of the unit price, and the exact
/// subtotal as a mathematical integer.
pub type SaleLine = (u64, Seq<char>, u64, u64, int);

/// The executable counterpart of a line; the subtotal is exact because a
/// `u128` holds any product of two bounded `u64` amounts.
pub type SaleLineExec = (u64, String, u64, u64, u128);

pub open spec fn line_of(l: SaleLineExec) -> SaleLine {
    (l.0, l.1@, l.2, l.3, l.4 as int)
}

pub open spec fn lines_of(ls: Seq<SaleLineExec>) -> Seq<SaleLine> {
    ls.map_values(|l: SaleLineExec| line_of(l))
}

/// Sum of the subtotals of a sequence of validated lines.
pub open spec fn lines_total(lines: Seq<SaleLine>) -> int
    decreases lines.len(),
{
    if lines.len() == 0 {
        0
    } else {
        lines_total(lines.drop_last()) + lines.last().4
    }
}

/// Total quantity a sequence of validated lines demands of one product.
pub open spec fn lines_demand(lines: Seq<SaleLine>, product_id: u64) -> int
    decreases lines.len(),
{
    if lines.len() == 0 {
        0
    } else {
        lines_demand(lines.drop_last(), product_id) + if lines.last().0 == product_id {
            lines.last().2 as int
        } else {
            0
        }
    }
}

/// Validates one requested line against the current products: the product
/// must exist, be active, and have enough stock. On success the product's
/// stock is reduced and a snapshot line is taken at the live price.
pub open spec fn sale_step(products: Seq<Product>, req: CreateSaleItemRequest, now: u64) -> Result<
    (Seq<Product>, SaleLine),
    PosError,
> {
    if !has_product(products, req.product_id) {
        Err(PosError::NotFound)
    } else {
        let i = index_of_product(products, req.product_id);
        let p = products[i];
        if !p.active {
            Err(PosError::ProductInactive)
        } else if p.stock < req.quantity {
            Err(PosError::InsufficientStock)
        } else {
            Ok(
                (
                    products.update(
                        i,
                        (Product { stock: (p.stock - req.quantity) as u64, updated_at: now, ..p }),
                    ),
                    (p.id, p.name@, req.quantity, p.price, p.price as int * req.quantity as int),
                ),
            )
        }
    }
}

/// Validates a whole request line by line, in order, against stocks that
/// already reflect the earlier lines, so a product requested twice cannot
/// be oversold. Returns the evolved products and the snapshot lines, or
/// the first failure.
pub open spec fn sale_plan(
    products: Seq<Product>,
    reqs: Seq<CreateSaleItemRequest>,
    now: u64,
) -> Result<(Seq<Product>, Seq<SaleLine>), PosError>
    decreases reqs.len(),
{
    if reqs.len() == 0 {
        Ok((products, Seq::empty()))
    } else {
        match sale_step(products, reqs[0], now) {
            Err(e) => Err(e),
            Ok((p2, line)) => match sale_plan(p2, reqs.skip(1), now) {
                Err(e) => Err(e),
                Ok((p3, lines)) => Ok((p3, Seq::empty().push(line) + lines)),
            },
        }
    }
}

/// Extends a plan's lines with an already-validated prefix.
pub open spec fn plan_extend(
    plan: Result<(Seq<Product>, Seq<SaleLine>), PosError>,
    prefix: Seq<SaleLine>,
) -> Result<(Seq<Product>, Seq<SaleLine>), PosError> {
    match plan {
        Err(e) => Err(e),
        Ok((p, rest)) => Ok((p, prefix + rest)),
    }
}

/// What a successful plan guarantees: products keep their identity and
/// only lose stock, and every line snapshots an existing product within
/// the machine limits.
pub proof fn lemma_sale_plan_props(products: Seq<Product>, reqs: Seq<CreateSaleItemRequest>, now: u64)
    requires
        unique_product_ids(products),
        forall|i: int| 0 <= i < products.len() ==> (#[trigger] products[i]).wf(),
        sale_plan(products, reqs, now) is Ok,
    ensures
        ({
            let (newp, lines) = sale_plan(products, reqs, now)->Ok_0;
            &&& newp.len() == products.len()
            &&& forall|i: int|
                0 <= i < products.len() ==> (#[trigger] newp[i]).id == products[i].id
                    && newp[i].price == products[i].price && newp[i].name == products[i].name
                    && newp[i].active == products[i].active && newp[i].stock <= products[i].stock
                    && newp[i].wf()
            &&& lines.len() == reqs.len()
            &&& forall|j: int|
                0 <= j < lines.len() ==> (#[trigger] lines[j]).4 == lines[j].2 as int * lines[j].3
                    as int && lines[j].2 <= AMOUNT_LIMIT && lines[j].3 <= AMOUNT_LIMIT
                    && has_product(products, lines[j].0)
        }),
    decreases reqs.len(),
{
    if reqs.len() == 0 {
    } else {
        let step = sale_step(products, reqs[0], now);
        let (p2, line) = step->Ok_0;
        let i = index_of_product(products, reqs[0].product_id);
        assert(p2.len() == products.len());
        assert(unique_product_ids(p2));
        lemma_sale_plan_props(p2, reqs.skip(1), now);
        let (p3, lines) = sale_plan(p2, reqs.skip(1), now)->Ok_0;
        assert(line.2 * line.3 == line.3 * line.2) by (nonlinear_arith);
        assert(has_product(products, line.0)) by {
            assert(products[i].id == line.0);
        }
        assert forall|j: int| 0 <= j < lines.len() implies has_product(
            products,
            (#[trigger] lines[j]).0,
        ) by {
            assert(has_product(p2, lines[j].0));
            let w = choose|w: int| 0 <= w < p2.len() && p2[w].id == lines[j].0;
            assert(products[w].id == lines[j].0);
        }
        let all = sale_plan(products, reqs, now)->Ok_0;
        assert(all.1 =~= Seq::empty().push(line) + lines);
        assert forall|j: int| 0 <= j < all.1.len() implies (#[trigger] all.1[j]).4 == all.1[j].2
            as int * all.1[j].3 as int && all.1[j].2 <= AMOUNT_LIMIT && all.1[j].3 <= AMOUNT_LIMIT
            && has_product(products, all.1[j].0) by {
            if j == 0 {
                assert(all.1[0] == line);
                assert(line.4 == line.2 as int * line.3 as int) by (nonlinear_arith)
                    requires line.4 == line.3 as int * line.2 as int;
            } else {
                assert(all.1[j] == lines[j - 1]);
            }
        }
    }
}

/// Every line's subtotal is at most the sum of all subtotals, when no
/// subtotal is negative.
pub proof fn lemma_line_le_total(lines: Seq<SaleLine>, j: int)
    requires
        forall|k: int| 0 <= k < lines.len() ==> (#[trigger] lines[k]).4 >= 0,
        0 <= j < lines.len(),
    ensures
        lines[j].4 <= lines_total(lines),
        lines_total(lines) >= 0,
    decreases lines.len(),
{
    if lines.len() == 0 {
    } else {
        if j == lines.len() - 1 {
            lemma_lines_total_nonneg(lines.drop_last());
        } else {
            lemma_line_le_total(lines.drop_last(), j);
        }
    }
}

pub proof fn lemma_lines_total_nonneg(lines: Seq<SaleLine>)
    requires
        forall|k: int| 0 <= k < lines.len() ==> (#[trigger] lines[k]).4 >= 0,
    ensures
        lines_total(lines) >= 0,
    decreases lines.len(),
{
    if lines.len() > 0 {
        lemma_lines_total_nonneg(lines.drop_last());
    }
}

/// Validates a request against a private copy of the products. On success
/// hands back the evolved copy, the snapshot lines, and the exact total
/// saturated just past `u64::MAX` (any payment is below a saturated total).
fn plan_sale(products: &Vec<Product>, reqs: &Vec<CreateSaleItemRequest>, now: u64) -> (r: Result<
    (Vec<Product>, Vec<SaleLineExec>, u128),
    PosError,
>)
    requires
        unique_product_ids(products@),
        forall|i: int| 0 <= i < products@.len() ==> (#[trigger] products@[i]).wf(),
    ensures
        match r {
            Ok((cur, lines, total)) => {
                &&& sale_plan(products@, reqs@, now) == Ok::<_, PosError>(
                    (cur@, lines_of(lines@)),
                )
                &&& (total <= u64::MAX ==> total as int == lines_total(lines_of(lines@)))
                &&& (total > u64::MAX ==> lines_total(lines_of(lines@)) > u64::MAX)
            },
            Err(e) => sale_plan(products@, reqs@, now) == Err::<(Seq<Product>, Seq<SaleLine>), _>(
                e,
            ),
        },
{
    let ghost p0 = products@;
    let mut cur = duplicate_products(products);
    let mut lines: Vec<SaleLineExec> = Vec::new();
    let mut total: u128 = 0;
    let sat: u128 = (u64::MAX as u128) + 1;
    let mut k: usize = 0;
    proof {
        assert(lines_of(lines@) =~= Seq::<SaleLine>::empty());
        assert(reqs@.skip(0) =~= reqs@);
        match sale_plan(p0, reqs@, now) {
            Err(e) => {},
            Ok((pf, rest)) => {
                assert(Seq::<SaleLine>::empty() + rest =~= rest);
            },
        }
    }
    while k < reqs.len()
        invariant
            p0 == products@,
            k <= reqs@.len(),
            unique_product_ids(cur@),
            forall|i: int| 0 <= i < cur@.len() ==> (#[trigger] cur@[i]).wf(),
            sale_plan(p0, reqs@, now) == plan_extend(
                sale_plan(cur@, reqs@.skip(k as int), now),
                lines_of(lines@),
            ),
            total <= sat,
            (total < sat ==> total as int == lines_total(lines_of(lines@))),
            (total == sat ==> lines_total(lines_of(lines@)) > u64::MAX),
            sat == (u64::MAX as u128) + 1,
        decreases reqs@.len() - k,
    {
        let ghost cur0 = cur@;
        let ghost lines0 = lines@;
        let pid = reqs[k].product_id;
        let qty = reqs[k].quantity;
        proof {
            assert(reqs@.skip(k as int)[0] == reqs@[k as int]);
        }
        proof {
            assert(reqs@.skip(k as int).len() > 0);
        }
        let idx = match find_product_index(&cur, pid) {
            None => {
                proof {
                    assert(sale_step(cur@, reqs@[k as int], now) == Err::<
                        (Seq<Product>, SaleLine),
                        PosError,
                    >(PosError::NotFound));
                    assert(sale_plan(cur@, reqs@.skip(k as int), now) == Err::<
                        (Seq<Product>, Seq<SaleLine>),
                        PosError,
                    >(PosError::NotFound));
                }
                return Err(PosError::NotFound);
            },
            Some(i) => i,
        };
        proof {
            lemma_product_index(cur@, pid, idx as int);
        }
        if !cur[idx].active {
            return Err(PosError::ProductInactive);
        }
        if cur[idx].stock < qty {
            return Err(PosError::InsufficientStock);
        }
        let price = cur[idx].price;
        let name = cur[idx].name.clone();
        proof {
            assert(qty as int * price as int <= AMOUNT_LIMIT as int * AMOUNT_LIMIT as int)
                by (nonlinear_arith)
                requires
                    0 <= qty as int <= AMOUNT_LIMIT as int,
                    0 <= price as int <= AMOUNT_LIMIT as int,
            ;
        }
        let sub: u128 = (qty as u128) * (price as u128);
        proof {
            assert(sub as int == price as int * qty as int) by (nonlinear_arith)
                requires
                    sub as int == qty as int * price as int,
            ;
        }
        let t2: u128 = total + sub;
        total = if t2 > sat {
            sat
        } else {
            t2
        };
        let mut np = cur[idx].duplicate();
        np.stock = np.stock - qty;
        np.updated_at = now;
        cur[idx] = np;
        lines.push((pid, name, qty, price, sub));
        proof {
            let line = (pid, cur0[idx as int].name@, qty, price, sub as int);
            assert(sale_step(cur0, reqs@[k as int], now) == Ok::<_, PosError>((cur@, line)));
            assert(reqs@.skip(k as int).skip(1) =~= reqs@.skip(k as int + 1));
            assert(lines_of(lines@) =~= lines_of(lines0).push(line));
            assert(lines_of(lines@).drop_last() =~= lines_of(lines0));
            assert(lines_total(lines_of(lines@)) == lines_total(lines_of(lines0)) + sub);
            match sale_plan(cur@, reqs@.skip(k as int + 1), now) {
                Err(e) => {},
                Ok((pf, rest)) => {
                    assert(lines_of(lines0) + (Seq::empty().push(line) + rest) =~= lines_of(
                        lines@,
                    ) + rest);
                },
            }
        }
        k = k + 1;
    }
    proof {
        assert(reqs@.skip(reqs@.len() as int).len() == 0);
        assert(lines_of(lines@) + Seq::<SaleLine>::empty() =~= lines_of(lines@));
    }
    Ok((cur, lines, total))
}

/// The machine limits a sale commit must respect: room in the session's
/// completed-sales total and in the id counters.
pub open spec fn create_sale_limits(st: Store, sid: u64, total: int, n: int) -> bool {
    &&& completed_total(st.sales@, sid) + total <= AMOUNT_LIMIT
    &&& st.next_sale_id < u64::MAX
    &&& st.next_sale_item_id + n <= u64::MAX
}

/// The persisted sale a successful commit produces, described against the
/// store as it was before the commit and the validated lines.
pub open spec fn created_sale_ok(
    sale: Sale,
    st: Store,
    req: CreateSaleRequest,
    now: u64,
    lines: Seq<SaleLine>,
) -> bool {
    &&& sale.id == st.next_sale_id
    &&& sale.cash_register_session_id == req.cash_register_session_id
    &&& sale.user_id == req.user_id
    &&& opt_view(sale.user_name) == Some(user_at(st.users@, req.user_id).user.full_name@)
    &&& sale.total as int == lines_total(lines)
    &&& sale.payment_method@ == req.payment_method@
    &&& sale.payment_amount == req.payment_amount
    &&& sale.change_amount as int == req.payment_amount - lines_total(lines)
    &&& sale.status is Completed
    &&& sale.created_at == now
    &&& sale.items@.len() == lines.len()
    &&& forall|j: int|
        0 <= j < lines.len() ==> ({
            let it = #[trigger] sale.items@[j];
            &&& it.id == st.next_sale_item_id + j
            &&& it.sale_id == sale.id
            &&& it.product_id == lines[j].0
            &&& it.product_name@ == lines[j].1
            &&& it.quantity == lines[j].2
            &&& it.unit_price == lines[j].3
            &&& it.subtotal as int == lines[j].4
        })
}

/// Turns validated lines into persisted sale items with consecutive ids.
fn build_items(lines: &Vec<SaleLineExec>, sale_id: u64, first_id: u64) -> (r: Vec<SaleItem>)
    requires
        lines_total(lines_of(lines@)) <= AMOUNT_LIMIT,
        first_id + lines@.len() <= u64::MAX,
    ensures
        r@.len() == lines@.len(),
        forall|j: int|
            0 <= j < lines@.len() ==> ({
                let it = #[trigger] r@[j];
                let l = lines_of(lines@)[j];
                &&& it.id == first_id + j
                &&& it.sale_id == sale_id
                &&& it.product_id == l.0
                &&& it.product_name@ == l.1
                &&& it.quantity == l.2
                &&& it.unit_price == l.3
                &&& it.subtotal as int == l.4
            }),
        sum_subtotals(r@) == lines_total(lines_of(lines@)),
{
    let mut r: Vec<SaleItem> = Vec::new();
    let mut j: usize = 0;
    proof {
        assert(lines_of(lines@).take(0) =~= Seq::<SaleLine>::empty());
    }
    while j < lines.len()
        invariant
            j <= lines@.len(),
            r@.len() == j,
            lines_total(lines_of(lines@)) <= AMOUNT_LIMIT,
            first_id + lines@.len() <= u64::MAX,
            forall|jj: int|
                0 <= jj < j ==> ({
                    let it = #[trigger] r@[jj];
                    let l = lines_of(lines@)[jj];
                    &&& it.id == first_id + jj
                    &&& it.sale_id == sale_id
                    &&& it.product_id == l.0
                    &&& it.product_name@ == l.1
                    &&& it.quantity == l.2
                    &&& it.unit_price == l.3
                    &&& it.subtotal as int == l.4
                }),
            sum_subtotals(r@) == lines_total(lines_of(lines@).take(j as int)),
        decreases lines@.len() - j,
    {
        proof {
            assert forall|k: int| 0 <= k < lines_of(lines@).len() implies (#[trigger] lines_of(
                lines@,
            )[k]).4 >= 0 by {
                assert(lines_of(lines@)[k].4 == lines@[k].4 as int);
            }
            lemma_line_le_total(lines_of(lines@), j as int);
        }
        let l = &lines[j];
        let item = SaleItem {
            id: first_id + (j as u64),
            sale_id,
            product_id: l.0,
            product_name: l.1.clone(),
            quantity: l.2,
            unit_price: l.3,
            subtotal: l.4 as u64,
        };
        let ghost r0 = r@;
        r.push(item);
        proof {
            assert(r@.drop_last() =~= r0);
            assert(lines_of(lines@).take(j + 1 as int).drop_last() =~= lines_of(lines@).take(
                j as int,
            ));
            assert(lines_of(lines@).take(j + 1 as int).last() == lines_of(lines@)[j as int]);
        }
        j = j + 1;
    }
    proof {
        assert(lines_of(lines@).take(lines@.len() as int) =~= lines_of(lines@));
    }
    r
}

impl Store {
    /// Validates and commits a multi-item sale atomically: the sale header,
    /// its line items and every stock decrement become visible together, or
    /// nothing does.
    ///
    /// Lines are checked in request order against stocks that already count
    /// the earlier lines, each snapshotting the live price; the payment must
    /// cover the accumulated total; the session and acting user must exist;
    /// and the commit must fit the machine limits. The first failure is
    /// returned and the store is left untouched.
    pub fn create_sale(&mut self, request: &CreateSaleRequest, now: u64) -> (r: Result<
        Sale,
        PosError,
    >)
        requires
            old(self).wf(),
        ensures
            final(self).wf(),
            request.payment_amount > AMOUNT_LIMIT ==> r == Err::<Sale, PosError>(
                PosError::LimitExceeded,
            ) && *final(self) == *old(self),
            request.payment_amount <= AMOUNT_LIMIT ==> ({
                let plan = sale_plan(old(self).products@, request.items@, now);
                let sid = request.cash_register_session_id;
                let uid = request.user_id;
                match plan {
                    Err(e) => r == Err::<Sale, PosError>(e) && *final(self) == *old(self),
                    Ok(planned) => ({
                        let newp = planned.0;
                        let lines = planned.1;
                        let total = lines_total(lines);
                        &&& (request.payment_amount < total ==> r == Err::<Sale, PosError>(
                            PosError::InsufficientPayment,
                        ) && *final(self) == *old(self))
                        &&& (total <= request.payment_amount && !has_session(
                            old(self).sessions@,
                            sid,
                        ) ==> r == Err::<Sale, PosError>(PosError::NotFound) && *final(self)
                            == *old(self))
                        &&& (total <= request.payment_amount && has_session(
                            old(self).sessions@,
                            sid,
                        ) && !has_user(old(self).users@, uid) ==> r == Err::<Sale, PosError>(
                            PosError::NotFound,
                        ) && *final(self) == *old(self))
                        &&& (total <= request.payment_amount && has_session(
                            old(self).sessions@,
                            sid,
                        ) && has_user(old(self).users@, uid) && !create_sale_limits(
                            *old(self),
                            sid,
                            total,
                            lines.len() as int,
                        ) ==> r == Err::<Sale, PosError>(PosError::LimitExceeded) && *final(self)
                            == *old(self))
                        &&& (total <= request.payment_amount && has_session(
                            old(self).sessions@,
                            sid,
                        ) && has_user(old(self).users@, uid) && create_sale_limits(
                            *old(self),
                            sid,
                            total,
                            lines.len() as int,
                        ) ==> ({
                            &&& final(self).products@ == newp
                            &&& final(self).sales@.len() == old(self).sales@.len() + 1
                            &&& forall|i: int|
                                0 <= i < old(self).sales@.len() ==> final(self).sales@[i] == old(
                                    self,
                                ).sales@[i]
                            &&& created_sale_ok(
                                final(self).sales@.last(),
                                *old(self),
                                *request,
                                now,
                                lines,
                            )
                            &&& (r matches Ok(s) && sale_like(s, final(self).sales@.last()))
                            &&& final(self).next_sale_id == old(self).next_sale_id + 1
                            &&& final(self).next_sale_item_id == old(self).next_sale_item_id
                                + lines.len()
                            &&& final(self).sessions == old(self).sessions
                            &&& final(self).categories == old(self).categories
                            &&& final(self).users == old(self).users
                            &&& final(self).adjustments == old(self).adjustments
                            &&& final(self).next_product_id == old(self).next_product_id
                            &&& final(self).next_category_id == old(self).next_category_id
                            &&& final(self).next_user_id == old(self).next_user_id
                            &&& final(self).next_session_id == old(self).next_session_id
                            &&& final(self).next_adjustment_id == old(self).next_adjustment_id
                        }))
                    }),
                }
            }),
    {
        if request.payment_amount > AMOUNT_LIMIT {
            return Err(PosError::LimitExceeded);
        }
        let planned = match plan_sale(&self.products, &request.items, now) {
            Err(e) => {
                return Err(e);
            },
            Ok(t) => t,
        };
        let (cur, lines, total_sat) = planned;
        if (request.payment_amount as u128) < total_sat {
            return Err(PosError::InsufficientPayment);
        }
        let total = total_sat as u64;
        let sid = request.cash_register_session_id;
        let uid = request.user_id;
        let sidx = match find_session_index(&self.sessions, sid) {
            None => {
                return Err(PosError::NotFound);
            },
            Some(i) => i,
        };
        proof {
            lemma_session_index(self.sessions@, sid, sidx as int);
        }
        let uidx = match find_user_index(&self.users, uid) {
            None => {
                return Err(PosError::NotFound);
            },
            Some(i) => i,
        };
        proof {
            lemma_user_index(self.users@, uid, uidx as int);
        }
        proof {
            assert(completed_total(self.sales@, sid) <= AMOUNT_LIMIT);
        }
        let totals = crate::store::session_sales_totals(&self.sales, sid);
        let prior = totals.0;
        if self.next_sale_id == u64::MAX {
            return Err(PosError::LimitExceeded);
        }
        let n: u64 = lines.len() as u64;
        if self.next_sale_item_id > u64::MAX - n {
            return Err(PosError::LimitExceeded);
        }
        if prior + total > AMOUNT_LIMIT {
            return Err(PosError::LimitExceeded);
        }
        proof {
            lemma_sale_plan_props(self.products@, request.items@, now);
        }
        let items_v = build_items(&lines, self.next_sale_id, self.next_sale_item_id);
        let user_name = Some(self.users[uidx].user.full_name.clone());
        let sale = Sale {
            id: self.next_sale_id,
            cash_register_session_id: sid,
            user_id: uid,
            user_name,
            total,
            payment_method: request.payment_method.clone(),
            payment_amount: request.payment_amount,
            change_amount: request.payment_amount - total,
            status: SaleStatus::Completed,
            created_at: now,
            items: items_v,
        };
        let ret = sale.duplicate();
        let ghost o = *self;
        self.products = cur;
        self.sales.push(sale);
        self.next_sale_id = self.next_sale_id + 1;
        self.next_sale_item_id = self.next_sale_item_id + n;
        proof {
            crate::store::lemma_same_ids_has_product(o.products@, self.products@);
            assert forall|i: int| 0 <= i < self.sessions@.len() implies completed_total(
                self.sales@,
                (#[trigger] self.sessions@[i]).id,
            ) <= AMOUNT_LIMIT by {
                crate::store::lemma_completed_total_push(
                    o.sales@,
                    self.sales@.last(),
                    self.sessions@[i].id,
                );
            }
            assert(self.wf());
        }
        Ok(ret)
    }
}

/// Returns one item's quantity to its product's stock, unless that would
/// pass the machine limit.
pub open spec fn restore_step(products: Seq<Product>, item: SaleItem, now: u64) -> Result<
    Seq<Product>,
    PosError,
> {
    if !has_product(products, item.product_id) {
        Err(PosError::NotFound)
    } else {
        let i = index_of_product(products, item.product_id);
        let p = products[i];
        if p.stock + item.quantity > AMOUNT_LIMIT {
            Err(PosError::LimitExceeded)
        } else {
            Ok(
                products.update(
                    i,
                    (Product { stock: (p.stock + item.quantity) as u64, updated_at: now, ..p }),
                ),
            )
        }
    }
}

/// Returns every item's quantity to stock, item by item, or fails without
/// describing any change.
pub open spec fn restore_plan(products: Seq<Product>, items: Seq<SaleItem>, now: u64) -> Result<
    Seq<Product>,
    PosError,
>
    decreases items.len(),
{
    if items.len() == 0 {
        Ok(products)
    } else {
        match restore_step(products, items[0], now) {
            Err(e) => Err(e),
            Ok(p2) => restore_plan(p2, items.skip(1), now),
        }
    }
}

/// Applies the restore plan to a private copy of the products.
fn restore_products(products: &Vec<Product>, items: &Vec<SaleItem>, now: u64) -> (r: Result<
    Vec<Product>,
    PosError,
>)
    requires
        unique_product_ids(products@),
        forall|i: int| 0 <= i < products@.len() ==> (#[trigger] products@[i]).wf(),
        forall|j: int| 0 <= j < items@.len() ==> (#[trigger] items@[j]).quantity <= AMOUNT_LIMIT,
    ensures
        match r {
            Ok(cur) => {
                &&& restore_plan(products@, items@, now) == Ok::<_, PosError>(cur@)
                &&& cur@.len() == products@.len()
                &&& forall|i: int|
                    0 <= i < products@.len() ==> (#[trigger] cur@[i]).id == products@[i].id
                        && cur@[i].wf()
            },
            Err(e) => restore_plan(products@, items@, now) == Err::<Seq<Product>, PosError>(e),
        },
{
    let ghost p0 = products@;
    let mut cur = duplicate_products(products);
    let mut k: usize = 0;
    proof {
        assert(items@.skip(0) =~= items@);
    }
    while k < items.len()
        invariant
            p0 == products@,
            k <= items@.len(),
            unique_product_ids(cur@),
            cur@.len() == p0.len(),
            forall|i: int|
                0 <= i < p0.len() ==> (#[trigger] cur@[i]).id == p0[i].id && cur@[i].wf(),
            forall|j: int| 0 <= j < items@.len() ==> (#[trigger] items@[j]).quantity
                <= AMOUNT_LIMIT,
            restore_plan(p0, items@, now) == restore_plan(cur@, items@.skip(k as int), now),
        decreases items@.len() - k,
    {
        let ghost cur0 = cur@;
        let pid = items[k].product_id;
        let qty = items[k].quantity;
        proof {
            assert(items@.skip(k as int)[0] == items@[k as int]);
            assert(items@.skip(k as int).skip(1) =~= items@.skip(k as int + 1));
        }
        let idx = match find_product_index(&cur, pid) {
            None => {
                return Err(PosError::NotFound);
            },
            Some(i) => i,
        };
        proof {
            lemma_product_index(cur@, pid, idx as int);
        }
        let ns = cur[idx].stock + qty;
        if ns > AMOUNT_LIMIT {
            return Err(PosError::LimitExceeded);
        }
        let mut np = cur[idx].duplicate();
        np.stock = ns;
        np.updated_at = now;
        cur[idx] = np;
        proof {
            assert(restore_step(cur0, items@[k as int], now) == Ok::<_, PosError>(cur@));
        }
        k = k + 1;
    }
    proof {
        assert(items@.skip(items@.len() as int).len() == 0);
    }
    Ok(cur)
}

impl Store {
    /// Cancels a completed sale: returns every item's quantity to its
    /// product's stock and marks the sale cancelled, atomically. A sale
    /// already cancelled is refused, so stock can never be restored twice.
    pub fn cancel_sale(&mut self, sale_id: u64, now: u64) -> (r: Result<(), PosError>)
        requires
            old(self).wf(),
        ensures
            final(self).wf(),
            !has_sale(old(self).sales@, sale_id) ==> r == Err::<(), PosError>(PosError::NotFound)
                && *final(self) == *old(self),
            has_sale(old(self).sales@, sale_id) ==> ({
                let s = sale_at(old(self).sales@, sale_id);
                &&& (s.status is Cancelled ==> r == Err::<(), PosError>(
                    PosError::SaleAlreadyCancelled,
                ) && *final(self) == *old(self))
                &&& (s.status is Completed ==> match restore_plan(
                    old(self).products@,
                    s.items@,
                    now,
                ) {
                    Err(e) => r == Err::<(), PosError>(e) && *final(self) == *old(self),
                    Ok(newp) => {
                        &&& r == Ok::<(), PosError>(())
                        &&& final(self).products@ == newp
                        &&& final(self).sales@.len() == old(self).sales@.len()
                        &&& forall|i: int|
                            0 <= i < old(self).sales@.len() && i != index_of_sale(
                                old(self).sales@,
                                sale_id,
                            ) ==> final(self).sales@[i] == old(self).sales@[i]
                        &&& sale_like(
                            final(self).sales@[index_of_sale(old(self).sales@, sale_id)],
                            (Sale { status: SaleStatus::Cancelled, ..s }),
                        )
                        &&& final(self).sessions == old(self).sessions
                        &&& final(self).categories == old(self).categories
                        &&& final(self).users == old(self).users
                        &&& final(self).adjustments == old(self).adjustments
                        &&& final(self).next_product_id == old(self).next_product_id
                        &&& final(self).next_category_id == old(self).next_category_id
                        &&& final(self).next_user_id == old(self).next_user_id
                        &&& final(self).next_session_id == old(self).next_session_id
                        &&& final(self).next_sale_id == old(self).next_sale_id
                        &&& final(self).next_sale_item_id == old(self).next_sale_item_id
                        &&& final(self).next_adjustment_id == old(self).next_adjustment_id
                    },
                })
            }),
    {
        let idx = match find_sale_index(&self.sales, sale_id) {
            None => {
                return Err(PosError::NotFound);
            },
            Some(i) => i,
        };
        proof {
            lemma_sale_index(self.sales@, sale_id, idx as int);
        }
        if self.sales[idx].status == SaleStatus::Cancelled {
            return Err(PosError::SaleAlreadyCancelled);
        }
        let cur = match restore_products(&self.products, &self.sales[idx].items, now) {
            Err(e) => {
                return Err(e);
            },
            Ok(c) => c,
        };
        let mut ns = self.sales[idx].duplicate();
        ns.status = SaleStatus::Cancelled;
        let ghost o = *self;
        self.products = cur;
        self.sales[idx] = ns;
        proof {
            crate::store::lemma_same_ids_has_product(o.products@, self.products@);
            assert forall|i: int| 0 <= i < self.sessions@.len() implies completed_total(
                self.sales@,
                (#[trigger] self.sessions@[i]).id,
            ) <= AMOUNT_LIMIT by {
                crate::store::lemma_completed_total_update(
                    o.sales@,
                    idx as int,
                    self.sales@[idx as int],
                    self.sessions@[i].id,
                );
                crate::store::lemma_completed_take_le(o.sales@, self.sessions@[i].id, 0);
            }
            assert(self.wf());
        }
        Ok(())
    }
}

/// Element-for-element correspondence between two sale lists.
pub open spec fn sales_like(a: Seq<Sale>, b: Seq<Sale>) -> bool {
    a.len() == b.len() && forall|i: int| 0 <= i < a.len() ==> sale_like(#[trigger] a[i], b[i])
}

/// The sales of one session, oldest first.
pub open spec fn sales_of_session(sales: Seq<Sale>, sid: u64) -> Seq<Sale>
    decreases sales.len(),
{
    if sales.len() == 0 {
        Seq::empty()
    } else {
        let rest = sales_of_session(sales.drop_last(), sid);
        if sales.last().cash_register_session_id == sid {
            rest.push(sales.last())
        } else {
            rest
        }
    }
}

/// The sales created within a closed time range, oldest first.
pub open spec fn sales_in_range(sales: Seq<Sale>, start: u64, end: u64) -> Seq<Sale>
    decreases sales.len(),
{
    if sales.len() == 0 {
        Seq::empty()
    } else {
        let rest = sales_in_range(sales.drop_last(), start, end);
        if in_range(sales.last(), start, end) {
            rest.push(sales.last())
        } else {
            rest
        }
    }
}

/// A sale lies in a closed creation-time range.
pub open spec fn in_range(s: Sale, start: u64, end: u64) -> bool {
    start <= s.created_at <= end
}

/// Sum of `total` over completed sales created within the range.
pub open spec fn report_total(sales: Seq<Sale>, start: u64, end: u64) -> int
    decreases sales.len(),
{
    if sales.len() == 0 {
        0
    } else {
        report_total(sales.drop_last(), start, end) + if sales.last().status is Completed
            && in_range(sales.last(), start, end) {
            sales.last().total as int
        } else {
            0
        }
    }
}

/// Count of completed sales created within the range.
pub open spec fn report_count(sales: Seq<Sale>, start: u64, end: u64) -> int
    decreases sales.len(),
{
    if sales.len() == 0 {
        0
    } else {
        report_count(sales.drop_last(), start, end) + if sales.last().status is Completed
            && in_range(sales.last(), start, end) {
            1int
        } else {
            0
        }
    }
}

/// The first list reads the second newest-first, element for element.
pub open spec fn sales_like_rev(a: Seq<Sale>, b: Seq<Sale>) -> bool {
    a.len() == b.len() && forall|i: int|
        0 <= i < a.len() ==> sale_like(#[trigger] a[i], b[b.len() - 1 - i])
}

/// The first list reads the second newest-first, holding header rows only.
pub open spec fn sale_headers_rev(a: Seq<Sale>, b: Seq<Sale>) -> bool {
    a.len() == b.len() && forall|i: int|
        0 <= i < a.len() ==> sale_header_like(#[trigger] a[i], b[b.len() - 1 - i])
}

/// Reverses a sale list, moving the elements.
fn reversed_sales(v: Vec<Sale>) -> (r: Vec<Sale>)
    ensures
        r@.len() == v@.len(),
        forall|i: int| 0 <= i < r@.len() ==> #[trigger] r@[i] == v@[v@.len() - 1 - i],
{
    let ghost v0 = v@;
    let mut v = v;
    let mut r: Vec<Sale> = Vec::new();
    while v.len() > 0
        invariant
            v@ =~= v0.take(v@.len() as int),
            r@.len() + v@.len() == v0.len(),
            forall|i: int| 0 <= i < r@.len() ==> #[trigger] r@[i] == v0[v0.len() - 1 - i],
        decreases v@.len(),
    {
        let ghost l = v@.len() as int;
        match v.pop() {
            Some(s) => {
                proof {
                    assert(v0.take(l).drop_last() =~= v0.take(l - 1));
                    assert(s == v0[l - 1]);
                }
                r.push(s);
            },
            None => {
            },
        }
    }
    r
}

impl Store {
    /// Loads one sale with its items attached.
    pub fn get_sale(&self, id: u64) -> (r: Result<Sale, PosError>)
        requires
            self.wf(),
        ensures
            has_sale(self.sales@, id) ==> (r matches Ok(s) && sale_like(
                s,
                sale_at(self.sales@, id),
            )),
            !has_sale(self.sales@, id) ==> r == Err::<Sale, PosError>(PosError::NotFound),
    {
        let idx = match find_sale_index(&self.sales, id) {
            None => {
                return Err(PosError::NotFound);
            },
            Some(i) => i,
        };
        proof {
            lemma_sale_index(self.sales@, id, idx as int);
        }
        Ok(self.sales[idx].duplicate())
    }

    /// Every sale's header row, newest first; line items are not loaded.
    pub fn get_sales(&self) -> (r: Vec<Sale>)
        requires
            self.wf(),
        ensures
            sale_headers_rev(r@, self.sales@),
            forall|a: int, b: int|
                0 <= a < b < r@.len() ==> (#[trigger] r@[a]).id > (#[trigger] r@[b]).id,
    {
        let mut r: Vec<Sale> = Vec::new();
        let mut i: usize = self.sales.len();
        while i > 0
            invariant
                crate::store::sales_ordered(self.sales@),
                i <= self.sales@.len(),
                r@.len() == self.sales@.len() - i,
                forall|k: int|
                    0 <= k < r@.len() ==> sale_header_like(
                        #[trigger] r@[k],
                        self.sales@[self.sales@.len() - 1 - k],
                    ),
            decreases i,
        {
            i = i - 1;
            r.push(self.sales[i].duplicate_header());
        }
        r
    }

    /// The header rows of one session's sales, newest first; line items
    /// are not loaded.
    pub fn get_sales_by_session(&self, session_id: u64) -> (r: Vec<Sale>)
        ensures
            sale_headers_rev(r@, sales_of_session(self.sales@, session_id)),
    {
        let mut r: Vec<Sale> = Vec::new();
        let mut i: usize = 0;
        while i < self.sales.len()
            invariant
                i <= self.sales@.len(),
                sales_like(r@, sales_of_session(self.sales@.take(i as int), session_id)),
            decreases self.sales@.len() - i,
        {
            proof {
                assert(self.sales@.take(i + 1 as int).drop_last() =~= self.sales@.take(i as int));
                assert(self.sales@.take(i + 1 as int).last() == self.sales@[i as int]);
            }
            if self.sales[i].cash_register_session_id == session_id {
                r.push(self.sales[i].duplicate());
            }
            i = i + 1;
        }
        proof {
            assert(self.sales@.take(self.sales@.len() as int) =~= self.sales@);
        }
        let ghost tmp0 = r@;
        let ghost asc = sales_of_session(self.sales@, session_id);
        let rev = reversed_sales(r);
        let mut out: Vec<Sale> = Vec::new();
        let mut k: usize = 0;
        while k < rev.len()
            invariant
                k <= rev@.len(),
                out@.len() == k,
                rev@.len() == asc.len(),
                forall|m: int|
                    0 <= m < rev@.len() ==> sale_like(#[trigger] rev@[m], asc[asc.len() - 1 - m]),
                forall|m: int|
                    0 <= m < k ==> sale_header_like(#[trigger] out@[m], asc[asc.len() - 1 - m]),
            decreases rev@.len() - k,
        {
            out.push(rev[k].duplicate_header());
            k = k + 1;
        }
        out
    }

    /// The sales created within a closed time range, newest first, each
    /// with its items attached.
    pub fn get_sales_by_date_range(&self, request: &crate::sale::DateRangeRequest) -> (r: Vec<
        Sale,
    >)
        ensures
            sales_like_rev(r@, sales_in_range(self.sales@, request.start_date, request.end_date)),
    {
        let mut r: Vec<Sale> = Vec::new();
        let mut i: usize = 0;
        while i < self.sales.len()
            invariant
                i <= self.sales@.len(),
                sales_like(
                    r@,
                    sales_in_range(
                        self.sales@.take(i as int),
                        request.start_date,
                        request.end_date,
                    ),
                ),
            decreases self.sales@.len() - i,
        {
            proof {
                assert(self.sales@.take(i + 1 as int).drop_last() =~= self.sales@.take(i as int));
                assert(self.sales@.take(i + 1 as int).last() == self.sales@[i as int]);
            }
            if request.start_date <= self.sales[i].created_at && self.sales[i].created_at
                <= request.end_date {
                r.push(self.sales[i].duplicate());
            }
            i = i + 1;
        }
        proof {
            assert(self.sales@.take(self.sales@.len() as int) =~= self.sales@);
        }
        reversed_sales(r)
    }

    /// Aggregates the completed sales of a time range: their summed total,
    /// their count, and the average sale rounded down to a minor unit.
    pub fn get_sales_report(&self, request: &crate::sale::DateRangeRequest) -> (r: Result<
        crate::sale::SalesReport,
        PosError,
    >)
        requires
            self.wf(),
        ensures
            ({
                let total = report_total(self.sales@, request.start_date, request.end_date);
                let count = report_count(self.sales@, request.start_date, request.end_date);
                &&& (total > u64::MAX ==> r == Err::<crate::sale::SalesReport, PosError>(
                    PosError::LimitExceeded,
                ))
                &&& (total <= u64::MAX ==> (r matches Ok(rep) && {
                    &&& rep.total_sales as int == total
                    &&& rep.total_transactions as int == count
                    &&& (count > 0 ==> rep.average_sale as int == total / count)
                    &&& (count == 0 ==> rep.average_sale == 0)
                    &&& sales_like_rev(
                        rep.sales@,
                        sales_in_range(self.sales@, request.start_date, request.end_date),
                    )
                }))
            }),
    {
        let mut total: u128 = 0;
        let mut count: u64 = 0;
        let mut i: usize = 0;
        while i < self.sales.len()
            invariant
                forall|j: int|
                    0 <= j < self.sales@.len() ==> (#[trigger] self.sales@[j]).total
                        <= AMOUNT_LIMIT,
                i <= self.sales@.len(),
                total as int == report_total(
                    self.sales@.take(i as int),
                    request.start_date,
                    request.end_date,
                ),
                count as int == report_count(
                    self.sales@.take(i as int),
                    request.start_date,
                    request.end_date,
                ),
                count <= i,
                total as int <= i as int * AMOUNT_LIMIT as int,
            decreases self.sales@.len() - i,
        {
            proof {
                assert(self.sales@.take(i + 1 as int).drop_last() =~= self.sales@.take(i as int));
                assert(self.sales@.take(i + 1 as int).last() == self.sales@[i as int]);
                assert((i as int + 1) * AMOUNT_LIMIT as int == i as int * AMOUNT_LIMIT as int
                    + AMOUNT_LIMIT as int) by (nonlinear_arith);
            }
            if self.sales[i].status == SaleStatus::Completed && request.start_date
                <= self.sales[i].created_at && self.sales[i].created_at <= request.end_date {
                total = total + (self.sales[i].total as u128);
                count = count + 1;
            }
            i = i + 1;
        }
        proof {
            assert(self.sales@.take(self.sales@.len() as int) =~= self.sales@);
        }
        if total > (u64::MAX as u128) {
            return Err(PosError::LimitExceeded);
        }
        let total64 = total as u64;
        let average: u64 = if count > 0 {
            total64 / count
        } else {
            0
        };
        let sales = self.get_sales_by_date_range(request);
        Ok(
            crate::sale::SalesReport {
                total_sales: total64,
                total_transactions: count,
                average_sale: average,
                sales,
            },
        )
    }
}

/// A sale that the top-products report counts: completed and in range.
pub open spec fn tp_counts(s: Sale, start: u64, end: u64) -> bool {
    s.status is Completed && in_range(s, start, end)
}

/// Total quantity of one product sold by completed sales within the range.
pub open spec fn tp_qty(sales: Seq<Sale>, start: u64, end: u64, pid: u64) -> int
    decreases sales.len(),
{
    if sales.len() == 0 {
        0
    } else {
        tp_qty(sales.drop_last(), start, end, pid) + if tp_counts(sales.last(), start, end) {
            crate::sale::demand(sales.last().items@, pid)
        } else {
            0
        }
    }
}

/// Total revenue of one product from completed sales within the range.
pub open spec fn tp_rev(sales: Seq<Sale>, start: u64, end: u64, pid: u64) -> int
    decreases sales.len(),
{
    if sales.len() == 0 {
        0
    } else {
        tp_rev(sales.drop_last(), start, end, pid) + if tp_counts(sales.last(), start, end) {
            crate::sale::revenue(sales.last().items@, pid)
        } else {
            0
        }
    }
}

/// Some completed sale within the range carries an item of this product.
pub open spec fn tp_occurs(sales: Seq<Sale>, start: u64, end: u64, pid: u64) -> bool {
    exists|i: int, j: int|
        0 <= i < sales.len() && tp_counts(sales[i], start, end) && 0 <= j < sales[i].items@.len()
            && (#[trigger] sales[i].items@[j]).product_id == pid
}

/// An aggregation row while it is being built: product id, name snapshot,
/// and quantity and revenue sums held exactly in 128 bits.
pub type GroupExec = (u64, String, u128, u128);

/// Some group row carries this product id.
pub open spec fn group_has(groups: Seq<GroupExec>, pid: u64) -> bool {
    exists|k: int| 0 <= k < groups.len() && (#[trigger] groups[k]).0 == pid
}

/// Items holding no such product make no demand and earn no revenue on it.
proof fn lemma_demand_absent(items: Seq<SaleItem>, pid: u64)
    requires
        forall|j: int| 0 <= j < items.len() ==> (#[trigger] items[j]).product_id != pid,
    ensures
        crate::sale::demand(items, pid) == 0,
        crate::sale::revenue(items, pid) == 0,
    decreases items.len(),
{
    if items.len() > 0 {
        lemma_demand_absent(items.drop_last(), pid);
    }
}

/// A product that occurs nowhere in range has zero totals.
proof fn lemma_tp_absent(sales: Seq<Sale>, start: u64, end: u64, pid: u64)
    requires
        !tp_occurs(sales, start, end, pid),
    ensures
        tp_qty(sales, start, end, pid) == 0,
        tp_rev(sales, start, end, pid) == 0,
    decreases sales.len(),
{
    if sales.len() > 0 {
        assert(!tp_occurs(sales.drop_last(), start, end, pid)) by {
            if tp_occurs(sales.drop_last(), start, end, pid) {
                let (i, j) = choose|i: int, j: int|
                    0 <= i < sales.drop_last().len() && tp_counts(
                        sales.drop_last()[i],
                        start,
                        end,
                    ) && 0 <= j < sales.drop_last()[i].items@.len() && (#[trigger] sales.drop_last()[
                    i].items@[j]).product_id == pid;
                assert(sales[i].items@[j].product_id == pid);
            }
        }
        lemma_tp_absent(sales.drop_last(), start, end, pid);
        if tp_counts(sales.last(), start, end) {
            assert forall|j: int| 0 <= j < sales.last().items@.len() implies (#[trigger] sales
                .last().items@[j]).product_id != pid by {
                assert(sales[sales.len() - 1].items@[j].product_id != pid);
            }
            lemma_demand_absent(sales.last().items@, pid);
        }
    }
}

/// First group row holding this product id, if any.
fn find_group(groups: &Vec<GroupExec>, pid: u64) -> (r: Option<usize>)
    ensures
        match r {
            Some(k) => k < groups@.len() && groups@[k as int].0 == pid,
            None => !group_has(groups@, pid),
        },
{
    let mut k: usize = 0;
    while k < groups.len()
        invariant
            k <= groups@.len(),
            forall|b: int| 0 <= b < k ==> (#[trigger] groups@[b]).0 != pid,
        decreases groups@.len() - k,
    {
        if groups[k].0 == pid {
            return Some(k);
        }
        k = k + 1;
    }
    None
}

/// A 128-bit running sum that is exact until it passes `u64::MAX`, after
/// which it only records that the true value did too.
pub open spec fn approx(x: u128, v: int) -> bool {
    &&& (x <= u64::MAX ==> x as int == v)
    &&& (x > u64::MAX ==> v > u64::MAX)
    &&& x <= (u64::MAX as u128) + 1
}

/// Groups the items of the counted sales by product.
fn group_sales(sales: &Vec<Sale>, start: u64, end: u64) -> (groups: Vec<GroupExec>)
    requires
        forall|i: int| 0 <= i < sales@.len() ==> crate::store::sale_wf(#[trigger] sales@[i]),
    ensures
        forall|a: int, b: int|
            0 <= a < b < groups@.len() ==> (#[trigger] groups@[a]).0 != (#[trigger] groups@[b]).0,
        forall|k: int|
            0 <= k < groups@.len() ==> approx(
                (#[trigger] groups@[k]).2,
                tp_qty(sales@, start, end, groups@[k].0),
            ) && approx(groups@[k].3, tp_rev(sales@, start, end, groups@[k].0)),
        forall|pid: u64| #[trigger] group_has(groups@, pid) <==> tp_occurs(sales@, start, end, pid),
{
    let sat: u128 = (u64::MAX as u128) + 1;
    let mut groups: Vec<GroupExec> = Vec::new();
    let mut i: usize = 0;
    while i < sales.len()
        invariant
            sat == (u64::MAX as u128) + 1,
            forall|ii: int| 0 <= ii < sales@.len() ==> crate::store::sale_wf(#[trigger] sales@[ii]),
            i <= sales@.len(),
            forall|a: int, b: int|
                0 <= a < b < groups@.len() ==> (#[trigger] groups@[a]).0 != (
                #[trigger] groups@[b]).0,
            forall|k: int|
                0 <= k < groups@.len() ==> approx(
                    (#[trigger] groups@[k]).2,
                    tp_qty(sales@.take(i as int), start, end, groups@[k].0),
                ) && approx(groups@[k].3, tp_rev(sales@.take(i as int), start, end, groups@[k].0)),
            forall|pid: u64| #[trigger] group_has(groups@, pid) <==> tp_occurs(
                sales@.take(i as int),
                start,
                end,
                pid,
            ),
        decreases sales@.len() - i,
    {
        let ghost pre = sales@.take(i as int);
        proof {
            assert(sales@.take(i + 1 as int).drop_last() =~= pre);
            assert(sales@.take(i + 1 as int).last() == sales@[i as int]);
        }
        let counted = sales[i].status == SaleStatus::Completed && start <= sales[i].created_at
            && sales[i].created_at <= end;
        if counted {
            let items_len = sales[i].items.len();
            let mut j: usize = 0;
            while j < items_len
                invariant
                    sat == (u64::MAX as u128) + 1,
                    forall|ii: int|
                        0 <= ii < sales@.len() ==> crate::store::sale_wf(#[trigger] sales@[ii]),
                    i < sales@.len(),
                    pre == sales@.take(i as int),
                    tp_counts(sales@[i as int], start, end),
                    items_len == sales@[i as int].items@.len(),
                    j <= items_len,
                    forall|a: int, b: int|
                        0 <= a < b < groups@.len() ==> (#[trigger] groups@[a]).0 != (
                        #[trigger] groups@[b]).0,
                    forall|k: int|
                        0 <= k < groups@.len() ==> approx(
                            (#[trigger] groups@[k]).2,
                            tp_qty(pre, start, end, groups@[k].0) + crate::sale::demand(
                                sales@[i as int].items@.take(j as int),
                                groups@[k].0,
                            ),
                        ) && approx(
                            groups@[k].3,
                            tp_rev(pre, start, end, groups@[k].0) + crate::sale::revenue(
                                sales@[i as int].items@.take(j as int),
                                groups@[k].0,
                            ),
                        ),
                    forall|pid: u64| #[trigger] group_has(groups@, pid) <==> (tp_occurs(
                        pre,
                        start,
                        end,
                        pid,
                    ) || exists|b: int|
                        0 <= b < j && (#[trigger] sales@[i as int].items@[b]).product_id == pid),
                decreases items_len - j,
            {
                let ghost items = sales@[i as int].items@;
                proof {
                    assert(items.take(j + 1 as int).drop_last() =~= items.take(j as int));
                    assert(items.take(j + 1 as int).last() == items[j as int]);
                }
                let pid = sales[i].items[j].product_id;
                let qty = sales[i].items[j].quantity;
                let sub = sales[i].items[j].subtotal;
                let ghost g0 = groups@;
                match find_group(&groups, pid) {
                    Some(k) => {
                        let raw2 = groups[k].2 + (qty as u128);
                        let raw3 = groups[k].3 + (sub as u128);
                        let e = (
                            groups[k].0,
                            groups[k].1.clone(),
                            if raw2 > sat {
                                sat
                            } else {
                                raw2
                            },
                            if raw3 > sat {
                                sat
                            } else {
                                raw3
                            },
                        );
                        groups[k] = e;
                        proof {
                            assert forall|kk: int| 0 <= kk < groups@.len() implies approx(
                                (#[trigger] groups@[kk]).2,
                                tp_qty(pre, start, end, groups@[kk].0) + crate::sale::demand(
                                    items.take(j + 1 as int),
                                    groups@[kk].0,
                                ),
                            ) && approx(
                                groups@[kk].3,
                                tp_rev(pre, start, end, groups@[kk].0) + crate::sale::revenue(
                                    items.take(j + 1 as int),
                                    groups@[kk].0,
                                ),
                            ) by {
                                if kk == k as int {
                                } else {
                                    assert(groups@[kk] == g0[kk]);
                                    assert(g0[kk].0 != pid);
                                }
                            }
                            assert forall|p: u64| #[trigger] group_has(groups@, p) <==> (tp_occurs(
                                pre,
                                start,
                                end,
                                p,
                            ) || exists|b: int|
                                0 <= b < j + 1 && (#[trigger] sales@[i as int].items@[b]).product_id
                                    == p) by {
                                if group_has(groups@, p) {
                                    let w = choose|w: int|
                                        0 <= w < groups@.len() && (#[trigger] groups@[w]).0 == p;
                                    assert(g0[w].0 == p);
                                    assert(group_has(g0, p));
                                }
                                if group_has(g0, p) {
                                    let w = choose|w: int|
                                        0 <= w < g0.len() && (#[trigger] g0[w]).0 == p;
                                    assert(groups@[w].0 == p);
                                    assert(group_has(groups@, p));
                                }
                                if exists|b: int|
                                    0 <= b < j + 1 && (#[trigger] sales@[i as int].items@[b])
                                        .product_id == p {
                                    let b = choose|b: int|
                                        0 <= b < j + 1 && (#[trigger] sales@[i as int].items@[b])
                                            .product_id == p;
                                    if b == j as int {
                                        assert(groups@[k as int].0 == p);
                                        assert(group_has(groups@, p));
                                    }
                                }
                            }
                        }
                    },
                    None => {
                        proof {
                            assert(!group_has(g0, pid));
                            assert(!tp_occurs(pre, start, end, pid));
                            lemma_tp_absent(pre, start, end, pid);
                            assert forall|b: int| 0 <= b < j implies (#[trigger] items.take(
                                j as int,
                            )[b]).product_id != pid by {
                                if items[b].product_id == pid {
                                    assert(sales@[i as int].items@[b].product_id == pid);
                                    assert(group_has(g0, pid));
                                }
                            }
                            lemma_demand_absent(items.take(j as int), pid);
                        }
                        groups.push(
                            (pid, sales[i].items[j].product_name.clone(), qty as u128, sub as u128),
                        );
                        proof {
                            let n = groups@.len() - 1;
                            assert(groups@.drop_last() =~= g0);
                            assert forall|a: int, b: int|
                                0 <= a < b < groups@.len() implies (#[trigger] groups@[a]).0 != (
                            #[trigger] groups@[b]).0 by {
                                if b == n {
                                    assert(groups@[a] == g0[a]);
                                    if g0[a].0 == pid {
                                        assert(group_has(g0, pid));
                                    }
                                } else {
                                    assert(groups@[a] == g0[a]);
                                    assert(groups@[b] == g0[b]);
                                }
                            }
                            assert forall|kk: int| 0 <= kk < groups@.len() implies approx(
                                (#[trigger] groups@[kk]).2,
                                tp_qty(pre, start, end, groups@[kk].0) + crate::sale::demand(
                                    items.take(j + 1 as int),
                                    groups@[kk].0,
                                ),
                            ) && approx(
                                groups@[kk].3,
                                tp_rev(pre, start, end, groups@[kk].0) + crate::sale::revenue(
                                    items.take(j + 1 as int),
                                    groups@[kk].0,
                                ),
                            ) by {
                                if kk == n {
                                    assert(groups@[kk].0 == pid);
                                    assert(crate::sale::demand(items.take(j as int), pid) == 0);
                                } else {
                                    assert(groups@[kk] == g0[kk]);
                                    assert(g0[kk].0 != pid) by {
                                        if g0[kk].0 == pid {
                                            assert(group_has(g0, pid));
                                        }
                                    }
                                }
                            }
                            assert forall|p: u64| #[trigger] group_has(groups@, p) <==> (tp_occurs(
                                pre,
                                start,
                                end,
                                p,
                            ) || exists|b: int|
                                0 <= b < j + 1 && (#[trigger] sales@[i as int].items@[b]).product_id
                                    == p) by {
                                if group_has(groups@, p) {
                                    let w = choose|w: int|
                                        0 <= w < groups@.len() && (#[trigger] groups@[w]).0 == p;
                                    if w == n {
                                        assert(sales@[i as int].items@[j as int].product_id == p);
                                    } else {
                                        assert(g0[w].0 == p);
                                        assert(group_has(g0, p));
                                    }
                                }
                                if group_has(g0, p) {
                                    let w = choose|w: int|
                                        0 <= w < g0.len() && (#[trigger] g0[w]).0 == p;
                                    assert(groups@[w].0 == p);
                                    assert(group_has(groups@, p));
                                }
                                if exists|b: int|
                                    0 <= b < j + 1 && (#[trigger] sales@[i as int].items@[b])
                                        .product_id == p {
                                    let b = choose|b: int|
                                        0 <= b < j + 1 && (#[trigger] sales@[i as int].items@[b])
                                            .product_id == p;
                                    if b == j as int {
                                        assert(groups@[n].0 == p);
                                        assert(group_has(groups@, p));
                                    }
                                }
                            }
                        }
                    },
                }
                j = j + 1;
            }
            proof {
                assert(sales@[i as int].items@.take(items_len as int) =~= sales@[i as int].items@);
            }
        } else {
            proof {
                assert forall|pid: u64| #[trigger] group_has(groups@, pid) <==> tp_occurs(
                    sales@.take(i + 1 as int),
                    start,
                    end,
                    pid,
                ) by {
                    if tp_occurs(sales@.take(i + 1 as int), start, end, pid) {
                        let (a, b) = choose|a: int, b: int|
                            0 <= a < sales@.take(i + 1 as int).len() && tp_counts(
                                sales@.take(i + 1 as int)[a],
                                start,
                                end,
                            ) && 0 <= b < sales@.take(i + 1 as int)[a].items@.len() && (
                            #[trigger] sales@.take(i + 1 as int)[a].items@[b]).product_id == pid;
                        assert(a < i as int);
                        assert(pre[a].items@[b].product_id == pid);
                    }
                }
            }
        }
        i = i + 1;
    }
    proof {
        assert(sales@.take(sales@.len() as int) =~= sales@);
    }
    groups
}

/// The row is one of the given rows.
pub open spec fn row_from(rows: Seq<crate::sale::TopProduct>, t: crate::sale::TopProduct) -> bool {
    exists|k0: int| 0 <= k0 < rows.len() && rows[k0] == t
}

/// Some report row carries this product id.
pub open spec fn tops_has(tops: Seq<crate::sale::TopProduct>, pid: u64) -> bool {
    exists|k: int| 0 <= k < tops.len() && (#[trigger] tops[k]).product_id == pid
}

/// Converts group rows to report rows, refusing sums past `u64::MAX`.
fn convert_groups(groups: &Vec<GroupExec>) -> (r: Result<Vec<crate::sale::TopProduct>, PosError>)
    ensures
        match r {
            Ok(v) => {
                &&& v@.len() == groups@.len()
                &&& forall|k: int|
                    0 <= k < groups@.len() ==> ({
                        let t = #[trigger] v@[k];
                        &&& t.product_id == groups@[k].0
                        &&& t.product_name == groups@[k].1
                        &&& t.total_quantity as int == groups@[k].2 as int
                        &&& t.total_revenue as int == groups@[k].3 as int
                    })
            },
            Err(e) => e == PosError::LimitExceeded && exists|k: int|
                0 <= k < groups@.len() && ((#[trigger] groups@[k]).2 > u64::MAX || groups@[k].3
                    > u64::MAX),
        },
{
    let cap: u128 = u64::MAX as u128;
    let mut v: Vec<crate::sale::TopProduct> = Vec::new();
    let mut k: usize = 0;
    while k < groups.len()
        invariant
            cap == u64::MAX as u128,
            k <= groups@.len(),
            v@.len() == k,
            forall|kk: int|
                0 <= kk < k ==> ({
                    let t = #[trigger] v@[kk];
                    &&& t.product_id == groups@[kk].0
                    &&& t.product_name == groups@[kk].1
                    &&& t.total_quantity as int == groups@[kk].2 as int
                    &&& t.total_revenue as int == groups@[kk].3 as int
                }),
        decreases groups@.len() - k,
    {
        if groups[k].2 > cap || groups[k].3 > cap {
            return Err(PosError::LimitExceeded);
        }
        v.push(
            crate::sale::TopProduct {
                product_id: groups[k].0,
                product_name: groups[k].1.clone(),
                total_quantity: groups[k].2 as u64,
                total_revenue: groups[k].3 as u64,
            },
        );
        k = k + 1;
    }
    Ok(v)
}

/// Sorts report rows by quantity, largest first, and keeps the first
/// `limit` of them; the rows that were cut off never beat the kept ones.
fn sort_groups_desc(rows: Vec<crate::sale::TopProduct>, limit: u64) -> (r: Vec<
    crate::sale::TopProduct,
>)
    requires
        forall|a: int, b: int|
            0 <= a < b < rows@.len() ==> (#[trigger] rows@[a]).product_id != (
            #[trigger] rows@[b]).product_id,
    ensures
        r@.len() == if limit as int <= rows@.len() as int {
            limit as int
        } else {
            rows@.len() as int
        },
        forall|a: int, b: int|
            0 <= a < b < r@.len() ==> (#[trigger] r@[a]).total_quantity >= (
            #[trigger] r@[b]).total_quantity,
        forall|a: int, b: int|
            0 <= a < b < r@.len() ==> (#[trigger] r@[a]).product_id != (
            #[trigger] r@[b]).product_id,
        forall|k: int| 0 <= k < r@.len() ==> row_from(rows@, #[trigger] r@[k]),
        forall|pid: u64| #[trigger] tops_has(rows@, pid) ==> tops_has(r@, pid) || r@.len()
            == limit as int,
        forall|k0: int|
            0 <= k0 < rows@.len() && !tops_has(r@, (#[trigger] rows@[k0]).product_id) && r@.len()
                > 0 ==> rows@[k0].total_quantity <= r@[r@.len() - 1].total_quantity,
{
    let ghost rows0 = rows@;
    let mut v = rows;
    let mut out: Vec<crate::sale::TopProduct> = Vec::new();
    proof {
        assert forall|k: int| 0 <= k < v@.len() implies row_from(rows0, #[trigger] v@[k]) by {
            assert(rows0[k] == v@[k]);
        }
    }
    while v.len() > 0 && (out.len() as u64) < limit
        invariant
            out@.len() + v@.len() == rows0.len(),
            out@.len() <= limit,
            forall|a: int, b: int|
                0 <= a < b < out@.len() ==> (#[trigger] out@[a]).total_quantity >= (
                #[trigger] out@[b]).total_quantity,
            forall|k: int| 0 <= k < out@.len() ==> row_from(rows0, #[trigger] out@[k]),
            forall|k: int| 0 <= k < v@.len() ==> row_from(rows0, #[trigger] v@[k]),
            forall|a: int, b: int|
                0 <= a < b < out@.len() ==> (#[trigger] out@[a]).product_id != (
                #[trigger] out@[b]).product_id,
            forall|a: int, b: int|
                0 <= a < b < v@.len() ==> (#[trigger] v@[a]).product_id != (
                #[trigger] v@[b]).product_id,
            forall|a: int, b: int|
                0 <= a < out@.len() && 0 <= b < v@.len() ==> (#[trigger] out@[a]).product_id != (
                #[trigger] v@[b]).product_id,
            forall|pid: u64| #[trigger] tops_has(rows0, pid) <==> tops_has(out@, pid) || tops_has(
                v@,
                pid,
            ),
            out@.len() > 0 ==> forall|k: int|
                0 <= k < v@.len() ==> (#[trigger] v@[k]).total_quantity <= out@[out@.len()
                    - 1].total_quantity,
        decreases v@.len(),
    {
        let mut m: usize = 0;
        let mut k: usize = 1;
        while k < v.len()
            invariant
                v@.len() > 0,
                m < k <= v@.len(),
                forall|b: int| 0 <= b < k ==> (#[trigger] v@[b]).total_quantity <= v@[
                    m as int].total_quantity,
            decreases v@.len() - k,
        {
            if v[k].total_quantity > v[m].total_quantity {
                m = k;
            }
            k = k + 1;
        }
        let ghost out0 = out@;
        let ghost v0 = v@;
        let g = v.remove(m);
        out.push(g);
        proof {
            assert(out@.drop_last() =~= out0);
            assert(out@.last() == v0[m as int]);
            assert forall|k: int| 0 <= k < v@.len() implies row_from(rows0, #[trigger] v@[k]) by {
                if k < m as int {
                    assert(v@[k] == v0[k]);
                } else {
                    assert(v@[k] == v0[k + 1]);
                }
            }
            assert forall|a: int, b: int|
                0 <= a < b < v@.len() implies (#[trigger] v@[a]).product_id != (
            #[trigger] v@[b]).product_id by {
                let oa = if a < m as int {
                    a
                } else {
                    a + 1
                };
                let ob = if b < m as int {
                    b
                } else {
                    b + 1
                };
                assert(v@[a] == v0[oa]);
                assert(v@[b] == v0[ob]);
            }
            assert forall|a: int, b: int|
                0 <= a < out@.len() && 0 <= b < v@.len() implies (#[trigger] out@[a]).product_id
                != (#[trigger] v@[b]).product_id by {
                let ob = if b < m as int {
                    b
                } else {
                    b + 1
                };
                assert(v@[b] == v0[ob]);
                if a < out0.len() {
                } else {
                    assert(out@[a] == v0[m as int]);
                }
            }
            assert forall|pid: u64| #[trigger] tops_has(rows0, pid) <==> tops_has(out@, pid)
                || tops_has(v@, pid) by {
                if tops_has(rows0, pid) {
                    assert(tops_has(out0, pid) || tops_has(v0, pid));
                    if tops_has(out0, pid) {
                        let w = choose|w: int|
                            0 <= w < out0.len() && (#[trigger] out0[w]).product_id == pid;
                        assert(out@[w].product_id == pid);
                    } else {
                        let w = choose|w: int|
                            0 <= w < v0.len() && (#[trigger] v0[w]).product_id == pid;
                        if w == m as int {
                            assert(out@[out@.len() - 1].product_id == pid);
                        } else if w < m as int {
                            assert(v@[w].product_id == pid);
                        } else {
                            assert(v@[w - 1].product_id == pid);
                        }
                    }
                }
                if tops_has(out@, pid) {
                    let w = choose|w: int|
                        0 <= w < out@.len() && (#[trigger] out@[w]).product_id == pid;
                    if w < out0.len() {
                        assert(tops_has(rows0, pid));
                    } else {
                        assert(out@[w] == v0[m as int]);
                        assert(v0[m as int].product_id == pid);
                        assert(tops_has(v0, pid));
                        assert(tops_has(rows0, pid));
                    }
                }
                if tops_has(v@, pid) {
                    let w = choose|w: int|
                        0 <= w < v@.len() && (#[trigger] v@[w]).product_id == pid;
                    let ow = if w < m as int {
                        w
                    } else {
                        w + 1
                    };
                    assert(v@[w] == v0[ow]);
                    assert(tops_has(v0, pid));
                    assert(tops_has(rows0, pid));
                }
            }
            assert forall|k: int| 0 <= k < v@.len() implies (#[trigger] v@[k]).total_quantity
                <= out@[out@.len() - 1].total_quantity by {
                let ok = if k < m as int {
                    k
                } else {
                    k + 1
                };
                assert(v@[k] == v0[ok]);
                assert(v0[ok].total_quantity <= v0[m as int].total_quantity);
            }
        }
    }
    proof {
        if v@.len() > 0 {
            assert(out@.len() == limit as int);
        }
        assert forall|k0: int|
            0 <= k0 < rows0.len() && !tops_has(out@, (#[trigger] rows0[k0]).product_id) && out@.len()
                > 0 implies rows0[k0].total_quantity <= out@[out@.len() - 1].total_quantity by {
            let pid = rows0[k0].product_id;
            assert(tops_has(rows0, pid));
            assert(tops_has(v@, pid));
            let w = choose|w: int| 0 <= w < v@.len() && (#[trigger] v@[w]).product_id == pid;
            assert(row_from(rows0, v@[w]));
            let w0 = choose|w0: int| 0 <= w0 < rows0.len() && rows0[w0] == v@[w];
            if w0 != k0 {
                assert(rows0[w0].product_id == rows0[k0].product_id);
                if w0 < k0 {
                    assert(rows0[w0].product_id != rows0[k0].product_id);
                } else {
                    assert(rows0[k0].product_id != rows0[w0].product_id);
                }
            }
            assert(v@[w] == rows0[k0]);
        }
    }
    out
}

impl Store {
    /// The products that sold the most within a time range: one row per
    /// product with its total quantity and revenue over completed sales,
    /// ordered by quantity sold, cut to `limit` rows (ten when absent).
    pub fn get_top_products(&self, start_date: u64, end_date: u64, limit: Option<u64>) -> (r:
        Result<Vec<crate::sale::TopProduct>, PosError>)
        requires
            self.wf(),
        ensures
            ({
                let lim: int = (match limit {
                    Some(l) => l,
                    None => 10u64,
                }) as int;
                match r {
                    Err(e) => e == PosError::LimitExceeded && exists|pid: u64|
                        #[trigger] tp_occurs(self.sales@, start_date, end_date, pid) && (tp_qty(
                            self.sales@,
                            start_date,
                            end_date,
                            pid,
                        ) > u64::MAX || tp_rev(self.sales@, start_date, end_date, pid) > u64::MAX),
                    Ok(v) => {
                        &&& forall|k: int|
                            0 <= k < v@.len() ==> ({
                                let t = #[trigger] v@[k];
                                &&& tp_occurs(self.sales@, start_date, end_date, t.product_id)
                                &&& t.total_quantity as int == tp_qty(
                                    self.sales@,
                                    start_date,
                                    end_date,
                                    t.product_id,
                                )
                                &&& t.total_revenue as int == tp_rev(
                                    self.sales@,
                                    start_date,
                                    end_date,
                                    t.product_id,
                                )
                            })
                        &&& forall|a: int, b: int|
                            0 <= a < b < v@.len() ==> (#[trigger] v@[a]).total_quantity >= (
                            #[trigger] v@[b]).total_quantity
                        &&& forall|a: int, b: int|
                            0 <= a < b < v@.len() ==> (#[trigger] v@[a]).product_id != (
                            #[trigger] v@[b]).product_id
                        &&& v@.len() <= lim
                        &&& forall|pid: u64|
                            #[trigger] tp_occurs(self.sales@, start_date, end_date, pid) ==> (
                            tops_has(v@, pid) || v@.len() == lim)
                        &&& forall|pid: u64|
                            #[trigger] tp_occurs(self.sales@, start_date, end_date, pid)
                                && !tops_has(v@, pid) && v@.len() > 0 ==> tp_qty(
                                self.sales@,
                                start_date,
                                end_date,
                                pid,
                            ) <= v@[v@.len() - 1].total_quantity as int
                    },
                }
            }),
    {
        let lim: u64 = match limit {
            Some(l) => l,
            None => 10,
        };
        let groups = group_sales(&self.sales, start_date, end_date);
        let rows = match convert_groups(&groups) {
            Err(e) => {
                proof {
                    let k = choose|k: int|
                        0 <= k < groups@.len() && ((#[trigger] groups@[k]).2 > u64::MAX
                            || groups@[k].3 > u64::MAX);
                    assert(group_has(groups@, groups@[k].0));
                    assert(tp_occurs(self.sales@, start_date, end_date, groups@[k].0));
                }
                return Err(e);
            },
            Ok(v) => v,
        };
        let ghost groupsv = groups@;
        let ghost rowsv = rows@;
        let out = sort_groups_desc(rows, lim);
        proof {
            assert forall|pid: u64| #[trigger] tops_has(rowsv, pid) <==> group_has(
                groupsv,
                pid,
            ) by {
                if tops_has(rowsv, pid) {
                    let w = choose|w: int|
                        0 <= w < rowsv.len() && (#[trigger] rowsv[w]).product_id == pid;
                    assert(groupsv[w].0 == pid);
                }
                if group_has(groupsv, pid) {
                    let w = choose|w: int| 0 <= w < groupsv.len() && (#[trigger] groupsv[w]).0
                        == pid;
                    assert(rowsv[w].product_id == pid);
                }
            }
            assert forall|k: int| 0 <= k < out@.len() implies ({
                let t = #[trigger] out@[k];
                &&& tp_occurs(self.sales@, start_date, end_date, t.product_id)
                &&& t.total_quantity as int == tp_qty(
                    self.sales@,
                    start_date,
                    end_date,
                    t.product_id,
                )
                &&& t.total_revenue as int == tp_rev(
                    self.sales@,
                    start_date,
                    end_date,
                    t.product_id,
                )
            }) by {
                assert(row_from(rowsv, out@[k]));
                let k0 = choose|k0: int| 0 <= k0 < rowsv.len() && rowsv[k0] == out@[k];
                assert(groupsv[k0].0 == out@[k].product_id);
                assert(group_has(groupsv, out@[k].product_id));
            }
            assert forall|pid: u64|
                #[trigger] tp_occurs(self.sales@, start_date, end_date, pid) implies tops_has(
                out@,
                pid,
            ) || out@.len() == lim as int by {
                assert(group_has(groupsv, pid));
                assert(tops_has(rowsv, pid));
            }
            assert forall|pid: u64|
                #[trigger] tp_occurs(self.sales@, start_date, end_date, pid) && !tops_has(
                    out@,
                    pid,
                ) && out@.len() > 0 implies tp_qty(self.sales@, start_date, end_date, pid) <= out@[
                out@.len() - 1].total_quantity as int by {
                assert(group_has(groupsv, pid));
                assert(tops_has(rowsv, pid));
                let k0 = choose|k0: int|
                    0 <= k0 < rowsv.len() && (#[trigger] rowsv[k0]).product_id == pid;
                assert(rowsv[k0].total_quantity as int == groupsv[k0].2 as int);
                assert(rowsv[k0].total_quantity <= out@[out@.len() - 1].total_quantity);
            }
        }
        Ok(out)
    }
}

/// Copies a product list element for element.
pub(crate) fn duplicate_products(products: &Vec<Product>) -> (r: Vec<Product>)
    ensures
        r@ == products@,
{
    let mut r: Vec<Product> = Vec::new();
    let mut i: usize = 0;
    while i < products.len()
        invariant
            i <= products@.len(),
            r@ =~= products@.take(i as int),
        decreases products@.len() - i,
    {
        r.push(products[i].duplicate());
        proof {
            assert(r@ =~= products@.take(i + 1 as int));
        }
        i = i + 1;
    }
    proof {
        assert(products@.take(products@.len() as int) =~= products@);
    }
    r
}

} // verus!

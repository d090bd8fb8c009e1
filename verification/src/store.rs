//! The single serialized store all engine operations act on.
//!
//! Every operation takes the store exclusively (`&mut self`), so its
//! multi-step reads and writes never interleave with another caller's:
//! each call is one atomic transaction, and on any failure the store is
//! left exactly as it was.
use vstd::prelude::*;
use crate::AMOUNT_LIMIT;
use crate::errors::PosError;
use crate::product::Product;
use crate::category::Category;
use crate::user::{User, is_valid_role};
use crate::cash_register::{CashRegisterSession, SessionStatus};
use crate::sale::{Sale, SaleStatus, sum_subtotals};
use crate::inventory::InventoryAdjustment;

verus! {

/// A user row together with the password hash the caller supplied.
#[derive(Debug)]
pub struct StoredUser {
    pub user: User,
    pub password_hash: String,
}

/// The persistent state: five entity collections and their id counters.
pub struct Store {
    pub products: Vec<Product>,
    pub categories: Vec<Category>,
    pub users: Vec<StoredUser>,
    pub sessions: Vec<CashRegisterSession>,
    pub sales: Vec<Sale>,
    pub adjustments: Vec<InventoryAdjustment>,
    pub next_product_id: u64,
    pub next_category_id: u64,
    pub next_user_id: u64,
    pub next_session_id: u64,
    pub next_sale_id: u64,
    pub next_sale_item_id: u64,
    pub next_adjustment_id: u64,
}

pub open spec fn unique_product_ids(s: Seq<Product>) -> bool {
    forall|i: int, j: int| 0 <= i < j < s.len() ==> s[i].id != s[j].id
}

pub open spec fn has_product(s: Seq<Product>, id: u64) -> bool {
    exists|i: int| 0 <= i < s.len() && s[i].id == id
}

pub open spec fn index_of_product(s: Seq<Product>, id: u64) -> int {
    choose|i: int| 0 <= i < s.len() && s[i].id == id
}

pub open spec fn product_at(s: Seq<Product>, id: u64) -> Product {
    s[index_of_product(s, id)]
}

pub open spec fn unique_category_ids(s: Seq<Category>) -> bool {
    forall|i: int, j: int| 0 <= i < j < s.len() ==> s[i].id != s[j].id
}

pub open spec fn has_category(s: Seq<Category>, id: u64) -> bool {
    exists|i: int| 0 <= i < s.len() && s[i].id == id
}

pub open spec fn index_of_category(s: Seq<Category>, id: u64) -> int {
    choose|i: int| 0 <= i < s.len() && s[i].id == id
}

pub open spec fn category_at(s: Seq<Category>, id: u64) -> Category {
    s[index_of_category(s, id)]
}

pub open spec fn unique_user_ids(s: Seq<StoredUser>) -> bool {
    forall|i: int, j: int| 0 <= i < j < s.len() ==> s[i].user.id != s[j].user.id
}

pub open spec fn has_user(s: Seq<StoredUser>, id: u64) -> bool {
    exists|i: int| 0 <= i < s.len() && s[i].user.id == id
}

pub open spec fn index_of_user(s: Seq<StoredUser>, id: u64) -> int {
    choose|i: int| 0 <= i < s.len() && s[i].user.id == id
}

pub open spec fn user_at(s: Seq<StoredUser>, id: u64) -> StoredUser {
    s[index_of_user(s, id)]
}

pub open spec fn unique_session_ids(s: Seq<CashRegisterSession>) -> bool {
    forall|i: int, j: int| 0 <= i < j < s.len() ==> s[i].id != s[j].id
}

pub open spec fn has_session(s: Seq<CashRegisterSession>, id: u64) -> bool {
    exists|i: int| 0 <= i < s.len() && s[i].id == id
}

pub open spec fn index_of_session(s: Seq<CashRegisterSession>, id: u64) -> int {
    choose|i: int| 0 <= i < s.len() && s[i].id == id
}

pub open spec fn session_at(s: Seq<CashRegisterSession>, id: u64) -> CashRegisterSession {
    s[index_of_session(s, id)]
}

/// Some session anywhere in the store is currently open.
pub open spec fn has_open_session(s: Seq<CashRegisterSession>) -> bool {
    exists|i: int| 0 <= i < s.len() && s[i].status is Open
}

pub open spec fn unique_sale_ids(s: Seq<Sale>) -> bool {
    forall|i: int, j: int| 0 <= i < j < s.len() ==> s[i].id != s[j].id
}

pub open spec fn has_sale(s: Seq<Sale>, id: u64) -> bool {
    exists|i: int| 0 <= i < s.len() && s[i].id == id
}

pub open spec fn index_of_sale(s: Seq<Sale>, id: u64) -> int {
    choose|i: int| 0 <= i < s.len() && s[i].id == id
}

pub open spec fn sale_at(s: Seq<Sale>, id: u64) -> Sale {
    s[index_of_sale(s, id)]
}

pub open spec fn unique_adjustment_ids(s: Seq<InventoryAdjustment>) -> bool {
    forall|i: int, j: int| 0 <= i < j < s.len() ==> s[i].id != s[j].id
}

/// Sales are stored oldest first: ids strictly increase along the list.
pub open spec fn sales_ordered(s: Seq<Sale>) -> bool {
    forall|i: int, j: int| 0 <= i < j < s.len() ==> s[i].id < s[j].id
}

/// Sessions are stored oldest first: ids strictly increase along the list.
pub open spec fn sessions_ordered(s: Seq<CashRegisterSession>) -> bool {
    forall|i: int, j: int| 0 <= i < j < s.len() ==> s[i].id < s[j].id
}

/// Adjustments are stored oldest first: ids strictly increase along the list.
pub open spec fn adjustments_ordered(s: Seq<InventoryAdjustment>) -> bool {
    forall|i: int, j: int| 0 <= i < j < s.len() ==> s[i].id < s[j].id
}

/// Sum of `total` over completed sales belonging to session `sid`.
pub open spec fn completed_total(sales: Seq<Sale>, sid: u64) -> int
    decreases sales.len(),
{
    if sales.len() == 0 {
        0
    } else {
        completed_total(sales.drop_last(), sid) + if sales.last().cash_register_session_id == sid
            && sales.last().status is Completed {
            sales.last().total as int
        } else {
            0
        }
    }
}

/// Count of completed sales belonging to session `sid`.
pub open spec fn completed_count(sales: Seq<Sale>, sid: u64) -> int
    decreases sales.len(),
{
    if sales.len() == 0 {
        0
    } else {
        completed_count(sales.drop_last(), sid) + if sales.last().cash_register_session_id == sid
            && sales.last().status is Completed {
            1int
        } else {
            0
        }
    }
}

/// A persisted sale is internally consistent: its total is the sum of the
/// item subtotals, the change is what was tendered beyond the total, and
/// every item snapshot records `quantity * unit_price`.
pub open spec fn sale_wf(s: Sale) -> bool {
    &&& s.payment_amount <= AMOUNT_LIMIT
    &&& s.total as int == sum_subtotals(s.items@)
    &&& s.total <= s.payment_amount
    &&& s.change_amount as int == s.payment_amount - s.total
    &&& forall|i: int|
        0 <= i < s.items@.len() ==> (#[trigger] s.items@[i]).subtotal as int == s.items@[i].quantity
            as int * s.items@[i].unit_price as int
    &&& forall|i: int| 0 <= i < s.items@.len() ==> (#[trigger] s.items@[i]).sale_id == s.id
    &&& forall|i: int|
        0 <= i < s.items@.len() ==> (#[trigger] s.items@[i]).quantity <= AMOUNT_LIMIT
            && s.items@[i].unit_price <= AMOUNT_LIMIT
}

impl Store {
    /// The store invariant: every constructor establishes it and every
    /// operation preserves it.
    pub open spec fn wf(self) -> bool {
        &&& unique_product_ids(self.products@)
        &&& unique_category_ids(self.categories@)
        &&& unique_user_ids(self.users@)
        &&& unique_session_ids(self.sessions@)
        &&& unique_sale_ids(self.sales@)
        &&& unique_adjustment_ids(self.adjustments@)
        &&& forall|i: int|
            0 <= i < self.products@.len() ==> (#[trigger] self.products@[i]).id
                < self.next_product_id
        &&& forall|i: int|
            0 <= i < self.categories@.len() ==> (#[trigger] self.categories@[i]).id
                < self.next_category_id
        &&& forall|i: int|
            0 <= i < self.users@.len() ==> (#[trigger] self.users@[i]).user.id < self.next_user_id
        &&& forall|i: int|
            0 <= i < self.sessions@.len() ==> (#[trigger] self.sessions@[i]).id
                < self.next_session_id
        &&& forall|i: int|
            0 <= i < self.sales@.len() ==> (#[trigger] self.sales@[i]).id < self.next_sale_id
        &&& forall|i: int|
            0 <= i < self.adjustments@.len() ==> (#[trigger] self.adjustments@[i]).id
                < self.next_adjustment_id
        &&& forall|i: int| 0 <= i < self.products@.len() ==> (#[trigger] self.products@[i]).wf()
        &&& forall|i: int| 0 <= i < self.sessions@.len() ==> (#[trigger] self.sessions@[i]).wf()
        &&& forall|i: int, j: int|
            0 <= i < self.sessions@.len() && 0 <= j < self.sessions@.len()
                && (#[trigger] self.sessions@[i]).status is Open
                && (#[trigger] self.sessions@[j]).status is Open ==> i == j
        &&& forall|i: int| 0 <= i < self.sales@.len() ==> sale_wf(#[trigger] self.sales@[i])
        &&& forall|i: int|
            0 <= i < self.sales@.len() ==> has_session(
                self.sessions@,
                (#[trigger] self.sales@[i]).cash_register_session_id,
            )
        &&& forall|i: int|
            0 <= i < self.sessions@.len() ==> completed_total(
                self.sales@,
                (#[trigger] self.sessions@[i]).id,
            ) <= AMOUNT_LIMIT
        &&& forall|i: int| 0 <= i < self.adjustments@.len() ==> (#[trigger] self.adjustments@[i]).wf()
        &&& forall|i: int|
            0 <= i < self.users@.len() ==> is_valid_role((#[trigger] self.users@[i]).user.role@)
        &&& forall|i: int, j: int|
            0 <= i < self.sales@.len() && 0 <= j < self.sales@[i].items@.len() ==> has_product(
                self.products@,
                (#[trigger] self.sales@[i].items@[j]).product_id,
            )
        &&& forall|i: int|
            0 <= i < self.adjustments@.len() ==> has_product(
                self.products@,
                (#[trigger] self.adjustments@[i]).product_id,
            )
        &&& sales_ordered(self.sales@)
        &&& sessions_ordered(self.sessions@)
        &&& adjustments_ordered(self.adjustments@)
    }

    /// An empty store; identifiers start at one as the schema's
    /// autoincrement columns do.
    pub fn new() -> (r: Store)
        ensures
            r.wf(),
            r.products@.len() == 0,
            r.categories@.len() == 0,
            r.users@.len() == 0,
            r.sessions@.len() == 0,
            r.sales@.len() == 0,
            r.adjustments@.len() == 0,
            r.next_product_id == 1,
            r.next_category_id == 1,
            r.next_user_id == 1,
            r.next_session_id == 1,
            r.next_sale_id == 1,
            r.next_sale_item_id == 1,
            r.next_adjustment_id == 1,
    {
        Store {
            products: Vec::new(),
            categories: Vec::new(),
            users: Vec::new(),
            sessions: Vec::new(),
            sales: Vec::new(),
            adjustments: Vec::new(),
            next_product_id: 1,
            next_category_id: 1,
            next_user_id: 1,
            next_session_id: 1,
            next_sale_id: 1,
            next_sale_item_id: 1,
            next_adjustment_id: 1,
        }
    }

    /// Everything outside the product collection is as it was.
    pub open spec fn only_products_changed(self, new: Store) -> bool {
        &&& new.categories == self.categories
        &&& new.users == self.users
        &&& new.sessions == self.sessions
        &&& new.sales == self.sales
        &&& new.adjustments == self.adjustments
        &&& new.next_product_id == self.next_product_id
        &&& new.next_category_id == self.next_category_id
        &&& new.next_user_id == self.next_user_id
        &&& new.next_session_id == self.next_session_id
        &&& new.next_sale_id == self.next_sale_id
        &&& new.next_sale_item_id == self.next_sale_item_id
        &&& new.next_adjustment_id == self.next_adjustment_id
    }
}

/// What one sale contributes to its session's completed-sales total.
pub open spec fn sale_contrib(s: Sale, sid: u64) -> int {
    if s.cash_register_session_id == sid && s.status is Completed {
        s.total as int
    } else {
        0
    }
}

/// Appending a sale adds exactly its contribution to a session's total.
pub proof fn lemma_completed_total_push(sales: Seq<Sale>, x: Sale, sid: u64)
    ensures
        completed_total(sales.push(x), sid) == completed_total(sales, sid) + sale_contrib(x, sid),
        completed_count(sales.push(x), sid) == completed_count(sales, sid) + if sale_contrib(
            x,
            sid,
        ) == 0 && !(x.cash_register_session_id == sid && x.status is Completed) {
            0int
        } else {
            1int
        },
{
    assert(sales.push(x).drop_last() =~= sales);
}

/// Replacing one sale swaps its old contribution for the new one.
pub proof fn lemma_completed_total_update(sales: Seq<Sale>, i: int, x: Sale, sid: u64)
    requires
        0 <= i < sales.len(),
    ensures
        completed_total(sales.update(i, x), sid) == completed_total(sales, sid) - sale_contrib(
            sales[i],
            sid,
        ) + sale_contrib(x, sid),
    decreases sales.len(),
{
    let u = sales.update(i, x);
    if i == sales.len() - 1 {
        assert(u.drop_last() =~= sales.drop_last());
        assert(u.last() == x);
    } else {
        assert(u.drop_last() =~= sales.drop_last().update(i, x));
        assert(u.last() == sales.last());
        lemma_completed_total_update(sales.drop_last(), i, x, sid);
    }
}

/// A prefix never exceeds the whole session total.
pub proof fn lemma_completed_take_le(sales: Seq<Sale>, sid: u64, i: int)
    requires
        0 <= i <= sales.len(),
    ensures
        completed_total(sales.take(i), sid) <= completed_total(sales, sid),
        completed_total(sales, sid) >= 0,
    decreases sales.len(),
{
    if i == sales.len() {
        assert(sales.take(i) =~= sales);
        lemma_completed_total_nonneg(sales, sid);
    } else {
        assert(sales.drop_last().take(i) =~= sales.take(i));
        lemma_completed_take_le(sales.drop_last(), sid, i);
    }
}

pub proof fn lemma_completed_total_nonneg(sales: Seq<Sale>, sid: u64)
    ensures
        completed_total(sales, sid) >= 0,
    decreases sales.len(),
{
    if sales.len() > 0 {
        lemma_completed_total_nonneg(sales.drop_last(), sid);
    }
}

/// Sums and counts the completed sales of one session in a single pass.
pub(crate) fn session_sales_totals(sales: &Vec<Sale>, sid: u64) -> (r: (u64, u64))
    requires
        completed_total(sales@, sid) <= AMOUNT_LIMIT,
    ensures
        r.0 as int == completed_total(sales@, sid),
        r.1 as int == completed_count(sales@, sid),
{
    let mut total: u64 = 0;
    let mut count: u64 = 0;
    let mut i: usize = 0;
    while i < sales.len()
        invariant
            i <= sales@.len(),
            total as int == completed_total(sales@.take(i as int), sid),
            count as int == completed_count(sales@.take(i as int), sid),
            count <= i,
            completed_total(sales@, sid) <= AMOUNT_LIMIT,
        decreases sales@.len() - i,
    {
        proof {
            assert(sales@.take(i + 1 as int).drop_last() =~= sales@.take(i as int));
            assert(sales@.take(i + 1 as int).last() == sales@[i as int]);
            lemma_completed_take_le(sales@, sid, i + 1 as int);
        }
        if sales[i].cash_register_session_id == sid && sales[i].status
            == SaleStatus::Completed {
            total = total + sales[i].total;
            count = count + 1;
        }
        i = i + 1;
    }
    proof {
        assert(sales@.take(sales@.len() as int) =~= sales@);
    }
    (total, count)
}

/// With unique ids, any index holding `id` is the one the `choose`-based
/// accessors denote.
pub proof fn lemma_product_index(s: Seq<Product>, id: u64, i: int)
    requires
        unique_product_ids(s),
        0 <= i < s.len(),
        s[i].id == id,
    ensures
        has_product(s, id),
        index_of_product(s, id) == i,
        product_at(s, id) == s[i],
{
    assert(has_product(s, id));
    let j = index_of_product(s, id);
    if j != i {
        if j < i {
            assert(s[j].id != s[i].id);
        } else {
            assert(s[i].id != s[j].id);
        }
    }
}

pub proof fn lemma_session_index(s: Seq<CashRegisterSession>, id: u64, i: int)
    requires
        unique_session_ids(s),
        0 <= i < s.len(),
        s[i].id == id,
    ensures
        has_session(s, id),
        index_of_session(s, id) == i,
        session_at(s, id) == s[i],
{
    assert(has_session(s, id));
    let j = index_of_session(s, id);
    if j != i {
        if j < i {
            assert(s[j].id != s[i].id);
        } else {
            assert(s[i].id != s[j].id);
        }
    }
}

pub proof fn lemma_sale_index(s: Seq<Sale>, id: u64, i: int)
    requires
        unique_sale_ids(s),
        0 <= i < s.len(),
        s[i].id == id,
    ensures
        has_sale(s, id),
        index_of_sale(s, id) == i,
        sale_at(s, id) == s[i],
{
    assert(has_sale(s, id));
    let j = index_of_sale(s, id);
    if j != i {
        if j < i {
            assert(s[j].id != s[i].id);
        } else {
            assert(s[i].id != s[j].id);
        }
    }
}

pub proof fn lemma_user_index(s: Seq<StoredUser>, id: u64, i: int)
    requires
        unique_user_ids(s),
        0 <= i < s.len(),
        s[i].user.id == id,
    ensures
        has_user(s, id),
        index_of_user(s, id) == i,
        user_at(s, id) == s[i],
{
    assert(has_user(s, id));
    let j = index_of_user(s, id);
    if j != i {
        if j < i {
            assert(s[j].user.id != s[i].user.id);
        } else {
            assert(s[i].user.id != s[j].user.id);
        }
    }
}

/// Two product lists with the same ids position for position support the
/// same id lookups.
pub proof fn lemma_same_ids_has_product(a: Seq<Product>, b: Seq<Product>)
    requires
        b.len() == a.len(),
        forall|i: int| 0 <= i < a.len() ==> a[i].id == (#[trigger] b[i]).id,
    ensures
        forall|pid: u64| #[trigger] has_product(a, pid) ==> has_product(b, pid),
{
    assert forall|pid: u64| #[trigger] has_product(a, pid) implies has_product(b, pid) by {
        let w = choose|w: int| 0 <= w < a.len() && a[w].id == pid;
        assert(b[w].id == pid);
    }
}

/// Two session lists with the same ids position for position support the
/// same id lookups.
pub proof fn lemma_same_ids_has_session(a: Seq<CashRegisterSession>, b: Seq<CashRegisterSession>)
    requires
        b.len() == a.len(),
        forall|i: int| 0 <= i < a.len() ==> a[i].id == (#[trigger] b[i]).id,
    ensures
        forall|sid: u64| #[trigger] has_session(a, sid) ==> has_session(b, sid),
{
    assert forall|sid: u64| #[trigger] has_session(a, sid) implies has_session(b, sid) by {
        let w = choose|w: int| 0 <= w < a.len() && a[w].id == sid;
        assert(b[w].id == sid);
    }
}

/// A session no sale refers to has an empty completed-sales total and count.
pub proof fn lemma_completed_total_absent(sales: Seq<Sale>, sid: u64)
    requires
        forall|i: int| 0 <= i < sales.len() ==> (#[trigger] sales[i]).cash_register_session_id
            != sid,
    ensures
        completed_total(sales, sid) == 0,
        completed_count(sales, sid) == 0,
    decreases sales.len(),
{
    if sales.len() > 0 {
        lemma_completed_total_absent(sales.drop_last(), sid);
    }
}

pub proof fn lemma_category_index(s: Seq<Category>, id: u64, i: int)
    requires
        unique_category_ids(s),
        0 <= i < s.len(),
        s[i].id == id,
    ensures
        has_category(s, id),
        index_of_category(s, id) == i,
        category_at(s, id) == s[i],
{
    assert(has_category(s, id));
    let j = index_of_category(s, id);
    if j != i {
        if j < i {
            assert(s[j].id != s[i].id);
        } else {
            assert(s[i].id != s[j].id);
        }
    }
}

/// First index holding a category with this id, if any.
pub(crate) fn find_category_index(categories: &Vec<Category>, id: u64) -> (r: Option<usize>)
    ensures
        match r {
            Some(i) => i < categories@.len() && categories@[i as int].id == id,
            None => !has_category(categories@, id),
        },
{
    let mut i: usize = 0;
    while i < categories.len()
        invariant
            i <= categories@.len(),
            forall|j: int| 0 <= j < i ==> categories@[j].id != id,
        decreases categories@.len() - i,
    {
        if categories[i].id == id {
            return Some(i);
        }
        i = i + 1;
    }
    None
}

/// First index holding a product with this id, if any.
pub(crate) fn find_product_index(products: &Vec<Product>, id: u64) -> (r: Option<usize>)
    ensures
        match r {
            Some(i) => i < products@.len() && products@[i as int].id == id,
            None => !has_product(products@, id),
        },
{
    let mut i: usize = 0;
    while i < products.len()
        invariant
            i <= products@.len(),
            forall|j: int| 0 <= j < i ==> products@[j].id != id,
        decreases products@.len() - i,
    {
        if products[i].id == id {
            return Some(i);
        }
        i = i + 1;
    }
    None
}

/// First index holding a session with this id, if any.
pub(crate) fn find_session_index(sessions: &Vec<CashRegisterSession>, id: u64) -> (r: Option<
    usize,
>)
    ensures
        match r {
            Some(i) => i < sessions@.len() && sessions@[i as int].id == id,
            None => !has_session(sessions@, id),
        },
{
    let mut i: usize = 0;
    while i < sessions.len()
        invariant
            i <= sessions@.len(),
            forall|j: int| 0 <= j < i ==> sessions@[j].id != id,
        decreases sessions@.len() - i,
    {
        if sessions[i].id == id {
            return Some(i);
        }
        i = i + 1;
    }
    None
}

/// First index holding a sale with this id, if any.
pub(crate) fn find_sale_index(sales: &Vec<Sale>, id: u64) -> (r: Option<usize>)
    ensures
        match r {
            Some(i) => i < sales@.len() && sales@[i as int].id == id,
            None => !has_sale(sales@, id),
        },
{
    let mut i: usize = 0;
    while i < sales.len()
        invariant
            i <= sales@.len(),
            forall|j: int| 0 <= j < i ==> sales@[j].id != id,
        decreases sales@.len() - i,
    {
        if sales[i].id == id {
            return Some(i);
        }
        i = i + 1;
    }
    None
}

/// First index holding a user with this id, if any.
pub(crate) fn find_user_index(users: &Vec<StoredUser>, id: u64) -> (r: Option<usize>)
    ensures
        match r {
            Some(i) => i < users@.len() && users@[i as int].user.id == id,
            None => !has_user(users@, id),
        },
{
    let mut i: usize = 0;
    while i < users.len()
        invariant
            i <= users@.len(),
            forall|j: int| 0 <= j < i ==> users@[j].user.id != id,
        decreases users@.len() - i,
    {
        if users[i].user.id == id {
            return Some(i);
        }
        i = i + 1;
    }
    None
}

impl Store {
    /// The stock ledger: applies one signed delta to one product's stock
    /// as a single atomic read-modify-write, and returns the new stock.
    ///
    /// A positive delta succeeds unless it would pass the machine limit;
    /// a negative delta fails if it would drive the stock below zero.
    /// On any failure the store is untouched.
    pub fn apply_delta(&mut self, product_id: u64, delta: i64, now: u64) -> (r: Result<
        u64,
        PosError,
    >)
        requires
            old(self).wf(),
        ensures
            final(self).wf(),
            !has_product(old(self).products@, product_id) ==> r == Err::<u64, PosError>(
                PosError::NotFound,
            ) && *final(self) == *old(self),
            has_product(old(self).products@, product_id) ==> ({
                let p = product_at(old(self).products@, product_id);
                let ns = p.stock + delta as int;
                &&& (ns < 0 ==> r == Err::<u64, PosError>(PosError::InsufficientStock)
                    && *final(self) == *old(self))
                &&& (ns > AMOUNT_LIMIT ==> r == Err::<u64, PosError>(PosError::LimitExceeded)
                    && *final(self) == *old(self))
                &&& (0 <= ns <= AMOUNT_LIMIT ==> r == Ok::<u64, PosError>(ns as u64)
                    && final(self).products@ == old(self).products@.update(
                    index_of_product(old(self).products@, product_id),
                    (Product { stock: ns as u64, updated_at: now, ..p }),
                ) && old(self).only_products_changed(*final(self)))
            }),
    {
        let idx = match find_product_index(&self.products, product_id) {
            None => {
                return Err(PosError::NotFound);
            },
            Some(i) => i,
        };
        proof {
            lemma_product_index(self.products@, product_id, idx as int);
        }
        let stock = self.products[idx].stock;
        assert(stock <= AMOUNT_LIMIT);
        if delta >= 0 {
            let d = delta as u64;
            let ns = stock + d;
            if ns > AMOUNT_LIMIT {
                return Err(PosError::LimitExceeded);
            }
            let mut np = self.products[idx].duplicate();
            np.stock = ns;
            np.updated_at = now;
            self.products[idx] = np;
            proof {
                lemma_same_ids_has_product(old(self).products@, self.products@);
            }
            Ok(ns)
        } else {
            if delta < -(AMOUNT_LIMIT as i64) {
                return Err(PosError::InsufficientStock);
            }
            let d = (-delta) as u64;
            if stock < d {
                return Err(PosError::InsufficientStock);
            }
            let ns = stock - d;
            let mut np = self.products[idx].duplicate();
            np.stock = ns;
            np.updated_at = now;
            self.products[idx] = np;
            proof {
                lemma_same_ids_has_product(old(self).products@, self.products@);
            }
            Ok(ns)
        }
    }
}

} // verus!

//! Plain attribute management of products, categories and users. These
//! records are collaborators of the transactional engine: sales and
//! adjustments reference them, so removal is guarded by reference checks.
use vstd::prelude::*;
use crate::AMOUNT_LIMIT;
use crate::errors::PosError;
use crate::product::{Product, CreateProductRequest, UpdateProductRequest, clone_opt_string};
use crate::category::{Category, CreateCategoryRequest, UpdateCategoryRequest};
use crate::user::{User, CreateUserRequest, UpdateUserRequest, is_valid_role};
use vstd::string::StrSliceExecFns;
use crate::store::{
    Store, StoredUser, has_product, product_at, index_of_product, has_category, category_at,
    index_of_category, has_user, user_at, index_of_user, find_product_index, find_category_index,
    find_user_index, lemma_product_index, lemma_category_index, lemma_user_index,
    lemma_same_ids_has_product, unique_product_ids, unique_category_ids, unique_user_ids,
};

verus! {

/// Some product, active or not, carries this barcode, other than the
/// excluded id; the schema's unique barcode column refuses any duplicate.
pub open spec fn barcode_taken(products: Seq<Product>, code: Seq<char>, exclude: Option<u64>) -> bool {
    exists|i: int|
        0 <= i < products.len() && ((#[trigger] products[i]).barcode matches Some(b) && b@ == code)
            && (exclude matches Some(x) ==> products[i].id != x)
}

/// Some category carries this name, other than the excluded id.
pub open spec fn category_name_taken(
    categories: Seq<Category>,
    name: Seq<char>,
    exclude: Option<u64>,
) -> bool {
    exists|i: int|
        0 <= i < categories.len() && (#[trigger] categories[i]).name@ == name && (exclude matches
        Some(x) ==> categories[i].id != x)
}

/// Some user carries this username, other than the excluded id.
pub open spec fn username_taken(users: Seq<StoredUser>, name: Seq<char>, exclude: Option<u64>) -> bool {
    exists|i: int|
        0 <= i < users.len() && (#[trigger] users[i]).user.username@ == name && (exclude matches
        Some(x) ==> users[i].user.id != x)
}

/// The active products, in stored order.
pub open spec fn active_products(products: Seq<Product>) -> Seq<Product>
    decreases products.len(),
{
    if products.len() == 0 {
        Seq::empty()
    } else {
        let rest = active_products(products.drop_last());
        if products.last().active {
            rest.push(products.last())
        } else {
            rest
        }
    }
}

/// Whether any sale line or adjustment references the product.
pub open spec fn product_referenced(st: Store, product_id: u64) -> bool {
    (exists|i: int, j: int|
        0 <= i < st.sales@.len() && 0 <= j < st.sales@[i].items@.len() && (#[trigger] st.sales@[i]
            .items@[j]).product_id == product_id) || (exists|i: int|
        0 <= i < st.adjustments@.len() && (#[trigger] st.adjustments@[i]).product_id == product_id)
}

/// Whether any session, sale or adjustment references the user.
pub open spec fn user_referenced(st: Store, user_id: u64) -> bool {
    ||| exists|i: int|
        0 <= i < st.sessions@.len() && (#[trigger] st.sessions@[i]).user_id == user_id
    ||| exists|i: int| 0 <= i < st.sales@.len() && (#[trigger] st.sales@[i]).user_id == user_id
    ||| exists|i: int|
        0 <= i < st.adjustments@.len() && (#[trigger] st.adjustments@[i]).user_id == user_id
}

/// A product after a partial update: requested fields take their new
/// values, the others keep theirs, and the update time is recorded.
pub open spec fn updated_product(p: Product, req: UpdateProductRequest, now: u64) -> Product {
    Product {
        id: p.id,
        name: match req.name {
            Some(n) => n,
            None => p.name,
        },
        description: match req.description {
            Some(d) => Some(d),
            None => p.description,
        },
        barcode: match req.barcode {
            Some(b) => Some(b),
            None => p.barcode,
        },
        price: match req.price {
            Some(v) => v,
            None => p.price,
        },
        unit: match req.unit {
            Some(u) => u,
            None => p.unit,
        },
        category_id: match req.category_id {
            Some(c) => Some(c),
            None => p.category_id,
        },
        stock: p.stock,
        min_stock: match req.min_stock {
            Some(v) => v,
            None => p.min_stock,
        },
        active: match req.active {
            Some(a) => a,
            None => p.active,
        },
        created_at: p.created_at,
        updated_at: now,
    }
}

/// Code-point order on character sequences: the order the schema's binary
/// text collation sorts names by.
pub open spec fn lex_le(a: Seq<char>, b: Seq<char>) -> bool
    decreases a.len(),
{
    if a.len() == 0 {
        true
    } else if b.len() == 0 {
        false
    } else if (a[0] as u32) < (b[0] as u32) {
        true
    } else if (a[0] as u32) > (b[0] as u32) {
        false
    } else {
        lex_le(a.skip(1), b.skip(1))
    }
}

/// Any two character sequences compare one way or the other.
proof fn lemma_lex_total(a: Seq<char>, b: Seq<char>)
    ensures
        lex_le(a, b) || lex_le(b, a),
    decreases a.len(),
{
    if a.len() > 0 && b.len() > 0 && (a[0] as u32) == (b[0] as u32) {
        lemma_lex_total(a.skip(1), b.skip(1));
    }
}

/// Code-point order chains.
proof fn lemma_lex_trans(a: Seq<char>, b: Seq<char>, c: Seq<char>)
    requires
        lex_le(a, b),
        lex_le(b, c),
    ensures
        lex_le(a, c),
    decreases a.len(),
{
    if a.len() == 0 {
    } else {
        assert(b.len() > 0);
        assert(c.len() > 0);
        if (a[0] as u32) == (b[0] as u32) && (b[0] as u32) == (c[0] as u32) {
            lemma_lex_trans(a.skip(1), b.skip(1), c.skip(1));
        }
    }
}

/// A shared prefix of equal code points does not decide the comparison.
proof fn lemma_lex_skip(a: Seq<char>, b: Seq<char>, j: int)
    requires
        0 <= j <= a.len(),
        j <= b.len(),
        forall|k: int| 0 <= k < j ==> (a[k] as u32) == (#[trigger] b[k] as u32),
    ensures
        lex_le(a, b) == lex_le(a.skip(j), b.skip(j)),
    decreases j,
{
    if j == 0 {
        assert(a.skip(0) =~= a);
        assert(b.skip(0) =~= b);
    } else {
        assert((a[0] as u32) == (b[0] as u32));
        assert(a.skip(1).skip(j - 1) =~= a.skip(j));
        assert(b.skip(1).skip(j - 1) =~= b.skip(j));
        assert forall|k: int| 0 <= k < j - 1 implies (a.skip(1)[k] as u32) == (#[trigger] b.skip(
            1,
        )[k] as u32) by {
            assert(a.skip(1)[k] == a[k + 1]);
            assert(b.skip(1)[k] == b[k + 1]);
        }
        lemma_lex_skip(a.skip(1), b.skip(1), j - 1);
    }
}

/// Compares two strings in code-point order.
fn str_le(a: &str, b: &str) -> (r: bool)
    ensures
        r == lex_le(a@, b@),
{
    let al = a.unicode_len();
    let bl = b.unicode_len();
    let mut j: usize = 0;
    while j < al && j < bl
        invariant
            j <= al,
            j <= bl,
            al == a@.len(),
            bl == b@.len(),
            forall|k: int| 0 <= k < j ==> (a@[k] as u32) == (#[trigger] b@[k] as u32),
        decreases al - j,
    {
        let ca = a.get_char(j) as u32;
        let cb = b.get_char(j) as u32;
        if ca < cb {
            proof {
                lemma_lex_skip(a@, b@, j as int);
                assert(a@.skip(j as int)[0] == a@[j as int]);
                assert(b@.skip(j as int)[0] == b@[j as int]);
            }
            return true;
        }
        if ca > cb {
            proof {
                lemma_lex_skip(a@, b@, j as int);
                assert(a@.skip(j as int)[0] == a@[j as int]);
                assert(b@.skip(j as int)[0] == b@[j as int]);
            }
            return false;
        }
        j = j + 1;
    }
    proof {
        lemma_lex_skip(a@, b@, j as int);
    }
    al <= bl
}

/// Names never decrease along the list.
pub open spec fn products_sorted(s: Seq<Product>) -> bool {
    forall|i: int, j: int| 0 <= i < j < s.len() ==> lex_le(s[i].name@, s[j].name@)
}

/// Names never decrease along the list.
pub open spec fn categories_sorted(s: Seq<Category>) -> bool {
    forall|i: int, j: int| 0 <= i < j < s.len() ==> lex_le(s[i].name@, s[j].name@)
}

/// Sorts products by name in code-point order; ties keep no fixed order,
/// exactly as an order-by clause leaves them open.
fn sort_products_by_name(rows: Vec<Product>) -> (r: Vec<Product>)
    ensures
        r@.to_multiset() == rows@.to_multiset(),
        products_sorted(r@),
{
    broadcast use vstd::seq_lib::group_to_multiset_ensures;
    broadcast use vstd::multiset::group_multiset_axioms;

    let ghost rows0 = rows@;
    let mut v = rows;
    let mut out: Vec<Product> = Vec::new();
    proof {
        assert(out@.to_multiset().add(v@.to_multiset()) =~= rows0.to_multiset());
    }
    while v.len() > 0
        invariant
            out@.to_multiset().add(v@.to_multiset()) == rows0.to_multiset(),
            products_sorted(out@),
            forall|i: int, k: int|
                0 <= i < out@.len() && 0 <= k < v@.len() ==> lex_le(
                    (#[trigger] out@[i]).name@,
                    (#[trigger] v@[k]).name@,
                ),
        decreases v@.len(),
    {
        let mut m: usize = 0;
        let mut k: usize = 1;
        proof {
            lemma_lex_total(v@[0].name@, v@[0].name@);
        }
        while k < v.len()
            invariant
                v@.len() > 0,
                m < k,
                k <= v@.len(),
                m < v@.len(),
                forall|b: int| 0 <= b < k ==> lex_le(v@[m as int].name@, (#[trigger] v@[b]).name@),
            decreases v@.len() - k,
        {
            if !str_le(v[m].name.as_str(), v[k].name.as_str()) {
                proof {
                    lemma_lex_total(v@[m as int].name@, v@[k as int].name@);
                    assert forall|b: int| 0 <= b < k + 1 implies lex_le(
                        v@[k as int].name@,
                        (#[trigger] v@[b]).name@,
                    ) by {
                        if b < k {
                            lemma_lex_trans(v@[k as int].name@, v@[m as int].name@, v@[b].name@);
                        } else {
                            lemma_lex_total(v@[k as int].name@, v@[k as int].name@);
                        }
                    }
                }
                m = k;
            }
            k = k + 1;
        }
        let ghost v0 = v@;
        let ghost out0 = out@;
        let g = v.remove(m);
        out.push(g);
        proof {
            assert(g == v0[m as int]);
            assert(v@ == v0.remove(m as int));
            assert(out@ == out0.push(g));
            vstd::seq_lib::to_multiset_remove(v0, m as int);
            vstd::seq_lib::to_multiset_build(out0, g);
            vstd::seq_lib::to_multiset_contains(v0, g);
            assert(v0.contains(g)) by {
                assert(v0[m as int] == g);
            }
            assert(v0.to_multiset().count(g) > 0);
            assert(out@.to_multiset() =~= out0.to_multiset().insert(g));
            assert(v@.to_multiset() =~= v0.to_multiset().remove(g));
            assert(out@.to_multiset().add(v@.to_multiset()) =~= rows0.to_multiset());
            assert forall|i: int, kk: int|
                0 <= i < out@.len() && 0 <= kk < v@.len() implies lex_le(
                (#[trigger] out@[i]).name@,
                (#[trigger] v@[kk]).name@,
            ) by {
                let okk = if kk < m as int {
                    kk
                } else {
                    kk + 1
                };
                assert(v@[kk] == v0[okk]);
                if i < out0.len() {
                    assert(out@[i] == out0[i]);
                } else {
                    assert(out@[i] == g);
                }
            }
            assert forall|i: int, j: int| 0 <= i < j < out@.len() implies lex_le(
                (#[trigger] out@[i]).name@,
                (#[trigger] out@[j]).name@,
            ) by {
                if j == out@.len() - 1 {
                    assert(out@[i] == out0[i]);
                    assert(out@[j] == g);
                } else {
                    assert(out@[i] == out0[i]);
                    assert(out@[j] == out0[j]);
                }
            }
        }
    }
    out
}

/// Sorts categories by name in code-point order.
fn sort_categories_by_name(rows: Vec<Category>) -> (r: Vec<Category>)
    ensures
        r@.to_multiset() == rows@.to_multiset(),
        categories_sorted(r@),
{
    broadcast use vstd::seq_lib::group_to_multiset_ensures;
    broadcast use vstd::multiset::group_multiset_axioms;

    let ghost rows0 = rows@;
    let mut v = rows;
    let mut out: Vec<Category> = Vec::new();
    proof {
        assert(out@.to_multiset().add(v@.to_multiset()) =~= rows0.to_multiset());
    }
    while v.len() > 0
        invariant
            out@.to_multiset().add(v@.to_multiset()) == rows0.to_multiset(),
            categories_sorted(out@),
            forall|i: int, k: int|
                0 <= i < out@.len() && 0 <= k < v@.len() ==> lex_le(
                    (#[trigger] out@[i]).name@,
                    (#[trigger] v@[k]).name@,
                ),
        decreases v@.len(),
    {
        let mut m: usize = 0;
        let mut k: usize = 1;
        proof {
            lemma_lex_total(v@[0].name@, v@[0].name@);
        }
        while k < v.len()
            invariant
                v@.len() > 0,
                m < k,
                k <= v@.len(),
                m < v@.len(),
                forall|b: int| 0 <= b < k ==> lex_le(v@[m as int].name@, (#[trigger] v@[b]).name@),
            decreases v@.len() - k,
        {
            if !str_le(v[m].name.as_str(), v[k].name.as_str()) {
                proof {
                    lemma_lex_total(v@[m as int].name@, v@[k as int].name@);
                    assert forall|b: int| 0 <= b < k + 1 implies lex_le(
                        v@[k as int].name@,
                        (#[trigger] v@[b]).name@,
                    ) by {
                        if b < k {
                            lemma_lex_trans(v@[k as int].name@, v@[m as int].name@, v@[b].name@);
                        } else {
                            lemma_lex_total(v@[k as int].name@, v@[k as int].name@);
                        }
                    }
                }
                m = k;
            }
            k = k + 1;
        }
        let ghost v0 = v@;
        let ghost out0 = out@;
        let g = v.remove(m);
        out.push(g);
        proof {
            assert(g == v0[m as int]);
            assert(v@ == v0.remove(m as int));
            assert(out@ == out0.push(g));
            vstd::seq_lib::to_multiset_remove(v0, m as int);
            vstd::seq_lib::to_multiset_build(out0, g);
            vstd::seq_lib::to_multiset_contains(v0, g);
            assert(v0.contains(g)) by {
                assert(v0[m as int] == g);
            }
            assert(v0.to_multiset().count(g) > 0);
            assert(out@.to_multiset() =~= out0.to_multiset().insert(g));
            assert(v@.to_multiset() =~= v0.to_multiset().remove(g));
            assert(out@.to_multiset().add(v@.to_multiset()) =~= rows0.to_multiset());
            assert forall|i: int, kk: int|
                0 <= i < out@.len() && 0 <= kk < v@.len() implies lex_le(
                (#[trigger] out@[i]).name@,
                (#[trigger] v@[kk]).name@,
            ) by {
                let okk = if kk < m as int {
                    kk
                } else {
                    kk + 1
                };
                assert(v@[kk] == v0[okk]);
                if i < out0.len() {
                    assert(out@[i] == out0[i]);
                } else {
                    assert(out@[i] == g);
                }
            }
            assert forall|i: int, j: int| 0 <= i < j < out@.len() implies lex_le(
                (#[trigger] out@[i]).name@,
                (#[trigger] out@[j]).name@,
            ) by {
                if j == out@.len() - 1 {
                    assert(out@[i] == out0[i]);
                    assert(out@[j] == g);
                } else {
                    assert(out@[i] == out0[i]);
                    assert(out@[j] == out0[j]);
                }
            }
        }
    }
    out
}

/// A character's code point with an ASCII capital folded to its small
/// letter: the folding the schema's pattern matching applies to searches.
pub open spec fn folded(c: char) -> int {
    if 65 <= c as u32 <= 90 {
        c as u32 + 32
    } else {
        c as u32 as int
    }
}

/// The needle occurs at this position of the haystack, up to ASCII case.
pub open spec fn matches_at_fold(hay: Seq<char>, needle: Seq<char>, i: int) -> bool {
    forall|j: int| 0 <= j < needle.len() ==> folded(hay[i + j]) == folded(#[trigger] needle[j])
}

/// The needle occurs contiguously somewhere in the haystack, up to ASCII
/// case.
pub open spec fn contains_seq(hay: Seq<char>, needle: Seq<char>) -> bool {
    exists|i: int|
        #![trigger matches_at_fold(hay, needle, i)]
        0 <= i && i + needle.len() <= hay.len() && matches_at_fold(hay, needle, i)
}

/// An active product whose name or barcode contains the search term.
pub open spec fn product_matches_term(p: Product, term: Seq<char>) -> bool {
    p.active && (contains_seq(p.name@, term) || (p.barcode matches Some(b) && contains_seq(
        b@,
        term,
    )))
}

/// The active products matching a search term, in stored order.
pub open spec fn matching_products(products: Seq<Product>, term: Seq<char>) -> Seq<Product>
    decreases products.len(),
{
    if products.len() == 0 {
        Seq::empty()
    } else {
        let rest = matching_products(products.drop_last(), term);
        if product_matches_term(products.last(), term) {
            rest.push(products.last())
        } else {
            rest
        }
    }
}

/// Whether the needle occurs at one given position of the haystack, up to
/// ASCII case.
fn match_at(hay: &str, needle: &str, at: usize) -> (r: bool)
    requires
        at + needle@.len() <= hay@.len(),
        hay@.len() <= usize::MAX,
    ensures
        r == matches_at_fold(hay@, needle@, at as int),
{
    let nl = needle.unicode_len();
    let mut j: usize = 0;
    while j < nl
        invariant
            j <= nl,
            nl == needle@.len(),
            at + nl <= hay@.len(),
            hay@.len() <= usize::MAX,
            forall|b: int| 0 <= b < j ==> folded(hay@[at + b]) == folded(#[trigger] needle@[b]),
        decreases nl - j,
    {
        let a = hay.get_char(at + j) as u32;
        let b = needle.get_char(j) as u32;
        let fa = if a >= 65 && a <= 90 {
            a + 32
        } else {
            a
        };
        let fb = if b >= 65 && b <= 90 {
            b + 32
        } else {
            b
        };
        if fa != fb {
            return false;
        }
        j = j + 1;
    }
    true
}

/// Whether the needle occurs anywhere in the haystack, up to ASCII case.
fn contains_str(hay: &str, needle: &str) -> (r: bool)
    ensures
        r == contains_seq(hay@, needle@),
{
    let hl = hay.unicode_len();
    let nl = needle.unicode_len();
    if nl > hl {
        return false;
    }
    let mut i: usize = 0;
    while i < hl - nl
        invariant
            nl <= hl,
            hl == hay@.len(),
            nl == needle@.len(),
            i <= hl - nl,
            forall|a: int|
                #![trigger matches_at_fold(hay@, needle@, a)]
                0 <= a < i ==> !matches_at_fold(hay@, needle@, a),
        decreases hl - nl - i,
    {
        if match_at(hay, needle, i) {
            return true;
        }
        i = i + 1;
    }
    if match_at(hay, needle, i) {
        return true;
    }
    false
}

/// True when an optional barcode equals the given active-barcode search.
fn barcode_matches(p: &Product, code: &String) -> (r: bool)
    ensures
        r == (p.active && (p.barcode matches Some(b) && b@ == code@)),
{
    p.active && match &p.barcode {
        Some(b) => *b == *code,
        None => false,
    }
}

/// True when the product carries exactly this barcode, active or not.
fn barcode_equals(p: &Product, code: &String) -> (r: bool)
    ensures
        r == (p.barcode matches Some(b) && b@ == code@),
{
    match &p.barcode {
        Some(b) => *b == *code,
        None => false,
    }
}

impl Store {
    /// Every product, sorted by name.
    pub fn get_products(&self) -> (r: Vec<Product>)
        ensures
            r@.to_multiset() == self.products@.to_multiset(),
            products_sorted(r@),
    {
        sort_products_by_name(crate::sales::duplicate_products(&self.products))
    }

    /// The active products, sorted by name.
    pub fn get_active_products(&self) -> (r: Vec<Product>)
        ensures
            r@.to_multiset() == active_products(self.products@).to_multiset(),
            products_sorted(r@),
    {
        let mut r: Vec<Product> = Vec::new();
        let mut i: usize = 0;
        while i < self.products.len()
            invariant
                i <= self.products@.len(),
                r@ == active_products(self.products@.take(i as int)),
            decreases self.products@.len() - i,
        {
            proof {
                assert(self.products@.take(i + 1 as int).drop_last() =~= self.products@.take(
                    i as int,
                ));
                assert(self.products@.take(i + 1 as int).last() == self.products@[i as int]);
            }
            if self.products[i].active {
                r.push(self.products[i].duplicate());
            }
            i = i + 1;
        }
        proof {
            assert(self.products@.take(self.products@.len() as int) =~= self.products@);
        }
        sort_products_by_name(r)
    }

    /// Loads one product by id.
    pub fn get_product(&self, id: u64) -> (r: Result<Product, PosError>)
        requires
            self.wf(),
        ensures
            has_product(self.products@, id) ==> r == Ok::<Product, PosError>(
                product_at(self.products@, id),
            ),
            !has_product(self.products@, id) ==> r == Err::<Product, PosError>(PosError::NotFound),
    {
        let idx = match find_product_index(&self.products, id) {
            None => {
                return Err(PosError::NotFound);
            },
            Some(i) => i,
        };
        proof {
            lemma_product_index(self.products@, id, idx as int);
        }
        Ok(self.products[idx].duplicate())
    }

    /// Finds the active product carrying a barcode.
    pub fn find_product_by_barcode(&self, barcode: &String) -> (r: Result<Product, PosError>)
        ensures
            match r {
                Ok(p) => p.active && (p.barcode matches Some(b) && b@ == barcode@) && exists|i: int|
                    0 <= i < self.products@.len() && self.products@[i] == p,
                Err(e) => e == PosError::NotFound && !(exists|i: int|
                    0 <= i < self.products@.len() && (#[trigger] self.products@[i]).active && (
                    self.products@[i].barcode matches Some(b) && b@ == barcode@)),
            },
    {
        let mut i: usize = 0;
        while i < self.products.len()
            invariant
                i <= self.products@.len(),
                forall|j: int|
                    0 <= j < i ==> !((#[trigger] self.products@[j]).active && (self.products@[j]
                        .barcode matches Some(b) && b@ == barcode@)),
            decreases self.products@.len() - i,
        {
            if barcode_matches(&self.products[i], barcode) {
                let p = self.products[i].duplicate();
                proof {
                    assert(self.products@[i as int] == p);
                }
                return Ok(p);
            }
            i = i + 1;
        }
        Err(PosError::NotFound)
    }

    /// The active products whose name or barcode contains the search term,
    /// up to ASCII case, sorted by name and cut to the first twenty of that
    /// order.
    pub fn search_products(&self, term: &String) -> (r: Vec<Product>)
        ensures
            ({
                let matching = matching_products(self.products@, term@);
                exists|full: Seq<Product>|
                    {
                        &&& #[trigger] full.to_multiset() == matching.to_multiset()
                        &&& products_sorted(full)
                        &&& r@ == if full.len() <= 20 {
                            full
                        } else {
                            full.take(20)
                        }
                    }
            }),
    {
        let mut r: Vec<Product> = Vec::new();
        let mut i: usize = 0;
        while i < self.products.len()
            invariant
                i <= self.products@.len(),
                r@ == matching_products(self.products@.take(i as int), term@),
            decreases self.products@.len() - i,
        {
            proof {
                assert(self.products@.take(i + 1 as int).drop_last() =~= self.products@.take(
                    i as int,
                ));
                assert(self.products@.take(i + 1 as int).last() == self.products@[i as int]);
            }
            let p = &self.products[i];
            let hit = p.active && (contains_str(p.name.as_str(), term.as_str()) || match &p
                .barcode {
                Some(b) => contains_str(b.as_str(), term.as_str()),
                None => false,
            });
            if hit {
                r.push(self.products[i].duplicate());
            }
            i = i + 1;
        }
        proof {
            assert(self.products@.take(self.products@.len() as int) =~= self.products@);
        }
        let mut r = sort_products_by_name(r);
        let ghost full = r@;
        if r.len() > 20 {
            r.truncate(20);
            proof {
                assert(full.subrange(0, 20) =~= full.take(20));
            }
        }
        proof {
            let matching = matching_products(self.products@, term@);
            assert(full.to_multiset() == matching.to_multiset());
            assert(products_sorted(full));
            assert(r@ == if full.len() <= 20 {
                full
            } else {
                full.take(20)
            });
        }
        r
    }

    /// Creates a product; a barcode already carried by an active product is
    /// refused as a duplicate key.
    pub fn create_product(&mut self, request: &CreateProductRequest, now: u64) -> (r: Result<
        Product,
        PosError,
    >)
        requires
            old(self).wf(),
        ensures
            final(self).wf(),
            ({
                let code_conflict = (request.barcode matches Some(c) && barcode_taken(
                    old(self).products@,
                    c@,
                    None,
                ));
                let cat_missing = (request.category_id matches Some(c) && !has_category(
                    old(self).categories@,
                    c,
                ));
                let stock0: u64 = match request.stock {
                    Some(s) => s,
                    None => 0,
                };
                let min0: u64 = match request.min_stock {
                    Some(s) => s,
                    None => 0,
                };
                let over = request.price > AMOUNT_LIMIT || stock0 > AMOUNT_LIMIT || min0
                    > AMOUNT_LIMIT || old(self).next_product_id == u64::MAX;
                &&& (code_conflict ==> r == Err::<Product, PosError>(PosError::DuplicateKey)
                    && *final(self) == *old(self))
                &&& (!code_conflict && cat_missing ==> r == Err::<Product, PosError>(
                    PosError::NotFound,
                ) && *final(self) == *old(self))
                &&& (!code_conflict && !cat_missing && over ==> r == Err::<Product, PosError>(
                    PosError::LimitExceeded,
                ) && *final(self) == *old(self))
                &&& (!code_conflict && !cat_missing && !over ==> ({
                    let p = (Product {
                        id: old(self).next_product_id,
                        name: request.name,
                        description: request.description,
                        barcode: request.barcode,
                        price: request.price,
                        unit: request.unit,
                        category_id: request.category_id,
                        stock: stock0,
                        min_stock: min0,
                        active: true,
                        created_at: now,
                        updated_at: now,
                    });
                    &&& r == Ok::<Product, PosError>(p)
                    &&& final(self).products@ == old(self).products@.push(p)
                    &&& final(self).next_product_id == old(self).next_product_id + 1
                    &&& final(self).categories == old(self).categories
                    &&& final(self).users == old(self).users
                    &&& final(self).sessions == old(self).sessions
                    &&& final(self).sales == old(self).sales
                    &&& final(self).adjustments == old(self).adjustments
                    &&& final(self).next_category_id == old(self).next_category_id
                    &&& final(self).next_user_id == old(self).next_user_id
                    &&& final(self).next_session_id == old(self).next_session_id
                    &&& final(self).next_sale_id == old(self).next_sale_id
                    &&& final(self).next_sale_item_id == old(self).next_sale_item_id
                    &&& final(self).next_adjustment_id == old(self).next_adjustment_id
                }))
            }),
    {
        if let Some(code) = &request.barcode {
            let mut i: usize = 0;
            while i < self.products.len()
                invariant
                    *self == *old(self),
                    old(self).wf(),
                    request.barcode is Some,
                    code@ == request.barcode->0@,
                    i <= self.products@.len(),
                    forall|j: int|
                        0 <= j < i ==> !((#[trigger] self.products@[j]).barcode matches Some(b)
                            && b@ == code@),
                decreases self.products@.len() - i,
            {
                if barcode_equals(&self.products[i], code) {
                    proof {
                        assert((#[trigger] self.products@[i as int]).barcode matches Some(b) && b@
                            == request.barcode->0@);
                        assert(barcode_taken(old(self).products@, request.barcode->0@, None));
                    }
                    return Err(PosError::DuplicateKey);
                }
                i = i + 1;
            }
        }
        if let Some(cid) = request.category_id {
            if !self.category_exists(cid) {
                return Err(PosError::NotFound);
            }
        }
        let stock0: u64 = match request.stock {
            Some(s) => s,
            None => 0,
        };
        let min0: u64 = match request.min_stock {
            Some(s) => s,
            None => 0,
        };
        if request.price > AMOUNT_LIMIT || stock0 > AMOUNT_LIMIT || min0 > AMOUNT_LIMIT
            || self.next_product_id == u64::MAX {
            return Err(PosError::LimitExceeded);
        }
        let p = Product {
            id: self.next_product_id,
            name: request.name.clone(),
            description: clone_opt_string(&request.description),
            barcode: clone_opt_string(&request.barcode),
            price: request.price,
            unit: request.unit.clone(),
            category_id: request.category_id,
            stock: stock0,
            min_stock: min0,
            active: true,
            created_at: now,
            updated_at: now,
        };
        let ret = p.duplicate();
        let ghost o = *self;
        self.products.push(p);
        self.next_product_id = self.next_product_id + 1;
        proof {
            assert(self.products@.drop_last() =~= o.products@);
            assert forall|pid: u64| has_product(o.products@, pid) implies has_product(
                self.products@,
                pid,
            ) by {
                let w = choose|w: int| 0 <= w < o.products@.len() && o.products@[w].id == pid;
                assert(self.products@[w].id == pid);
            }
            assert(self.wf());
        }
        Ok(ret)
    }

    /// Updates the given fields of a product; absent fields keep their
    /// value. A barcode already carried by another active product is
    /// refused as a duplicate key.
    pub fn update_product(&mut self, request: &UpdateProductRequest, now: u64) -> (r: Result<
        Product,
        PosError,
    >)
        requires
            old(self).wf(),
        ensures
            final(self).wf(),
            ({
                let code_conflict = (request.barcode matches Some(c) && barcode_taken(
                    old(self).products@,
                    c@,
                    Some(request.id),
                ));
                let cat_missing = (request.category_id matches Some(c) && !has_category(
                    old(self).categories@,
                    c,
                ));
                let over = (request.price matches Some(p) && p > AMOUNT_LIMIT) || (
                request.min_stock matches Some(m) && m > AMOUNT_LIMIT);
                &&& (code_conflict ==> r == Err::<Product, PosError>(PosError::DuplicateKey)
                    && *final(self) == *old(self))
                &&& (!code_conflict && !has_product(old(self).products@, request.id) ==> r
                    == Err::<Product, PosError>(PosError::NotFound) && *final(self) == *old(self))
                &&& (!code_conflict && has_product(old(self).products@, request.id) && cat_missing
                    ==> r == Err::<Product, PosError>(PosError::NotFound) && *final(self) == *old(
                    self,
                ))
                &&& (!code_conflict && has_product(old(self).products@, request.id) && !cat_missing
                    && over ==> r == Err::<Product, PosError>(PosError::LimitExceeded)
                    && *final(self) == *old(self))
                &&& (!code_conflict && has_product(old(self).products@, request.id) && !cat_missing
                    && !over ==> ({
                    let p = product_at(old(self).products@, request.id);
                    let np = updated_product(p, *request, now);
                    &&& r == Ok::<Product, PosError>(np)
                    &&& final(self).products@ == old(self).products@.update(
                        index_of_product(old(self).products@, request.id),
                        np,
                    )
                    &&& old(self).only_products_changed(*final(self))
                }))
            }),
    {
        if let Some(code) = &request.barcode {
            let mut i: usize = 0;
            while i < self.products.len()
                invariant
                    *self == *old(self),
                    old(self).wf(),
                    request.barcode is Some,
                    code@ == request.barcode->0@,
                    i <= self.products@.len(),
                    forall|j: int|
                        0 <= j < i ==> !((#[trigger] self.products@[j]).barcode matches Some(b)
                            && b@ == code@ && self.products@[j].id != request.id),
                decreases self.products@.len() - i,
            {
                if barcode_equals(&self.products[i], code) && self.products[i].id != request.id {
                    proof {
                        assert((#[trigger] self.products@[i as int]).barcode matches Some(b) && b@
                            == request.barcode->0@);
                        assert(barcode_taken(
                            old(self).products@,
                            request.barcode->0@,
                            Some(request.id),
                        ));
                    }
                    return Err(PosError::DuplicateKey);
                }
                i = i + 1;
            }
        }
        let idx = match find_product_index(&self.products, request.id) {
            None => {
                return Err(PosError::NotFound);
            },
            Some(i) => i,
        };
        proof {
            lemma_product_index(self.products@, request.id, idx as int);
        }
        if let Some(cid) = request.category_id {
            if !self.category_exists(cid) {
                return Err(PosError::NotFound);
            }
        }
        let price_over = match request.price {
            Some(p) => p > AMOUNT_LIMIT,
            None => false,
        };
        let min_over = match request.min_stock {
            Some(m) => m > AMOUNT_LIMIT,
            None => false,
        };
        if price_over || min_over {
            return Err(PosError::LimitExceeded);
        }
        let p = &self.products[idx];
        let np = Product {
            id: p.id,
            name: match &request.name {
                Some(n) => n.clone(),
                None => p.name.clone(),
            },
            description: match &request.description {
                Some(d) => Some(d.clone()),
                None => clone_opt_string(&p.description),
            },
            barcode: match &request.barcode {
                Some(b) => Some(b.clone()),
                None => clone_opt_string(&p.barcode),
            },
            price: match request.price {
                Some(v) => v,
                None => p.price,
            },
            unit: match &request.unit {
                Some(u) => u.clone(),
                None => p.unit.clone(),
            },
            category_id: match request.category_id {
                Some(c) => Some(c),
                None => p.category_id,
            },
            stock: p.stock,
            min_stock: match request.min_stock {
                Some(v) => v,
                None => p.min_stock,
            },
            active: match request.active {
                Some(a) => a,
                None => p.active,
            },
            created_at: p.created_at,
            updated_at: now,
        };
        let ret = np.duplicate();
        let ghost o = *self;
        self.products[idx] = np;
        proof {
            lemma_same_ids_has_product(o.products@, self.products@);
            assert(self.wf());
        }
        Ok(ret)
    }

    /// Sets a product's stock to an absolute value; a missing product is
    /// silently left alone, as a zero-row update would be.
    pub fn update_product_stock(&mut self, id: u64, stock: u64, now: u64) -> (r: Result<
        (),
        PosError,
    >)
        requires
            old(self).wf(),
        ensures
            final(self).wf(),
            stock > AMOUNT_LIMIT ==> r == Err::<(), PosError>(PosError::LimitExceeded)
                && *final(self) == *old(self),
            stock <= AMOUNT_LIMIT && !has_product(old(self).products@, id) ==> r == Ok::<
                (),
                PosError,
            >(()) && *final(self) == *old(self),
            stock <= AMOUNT_LIMIT && has_product(old(self).products@, id) ==> ({
                let p = product_at(old(self).products@, id);
                &&& r == Ok::<(), PosError>(())
                &&& final(self).products@ == old(self).products@.update(
                    index_of_product(old(self).products@, id),
                    (Product { stock, updated_at: now, ..p }),
                )
                &&& old(self).only_products_changed(*final(self))
            }),
    {
        if stock > AMOUNT_LIMIT {
            return Err(PosError::LimitExceeded);
        }
        let idx = match find_product_index(&self.products, id) {
            None => {
                return Ok(());
            },
            Some(i) => i,
        };
        proof {
            lemma_product_index(self.products@, id, idx as int);
        }
        let mut np = self.products[idx].duplicate();
        np.stock = stock;
        np.updated_at = now;
        let ghost o = *self;
        self.products[idx] = np;
        proof {
            lemma_same_ids_has_product(o.products@, self.products@);
            assert(self.wf());
        }
        Ok(())
    }

    /// Whether some sale line or adjustment references the product.
    fn product_is_referenced(&self, id: u64) -> (r: bool)
        ensures
            r == product_referenced(*self, id),
    {
        let mut i: usize = 0;
        while i < self.sales.len()
            invariant
                i <= self.sales@.len(),
                forall|a: int, b: int|
                    0 <= a < i && 0 <= b < self.sales@[a].items@.len() ==> (#[trigger] self
                        .sales@[a].items@[b]).product_id != id,
            decreases self.sales@.len() - i,
        {
            let items_len = self.sales[i].items.len();
            let mut j: usize = 0;
            while j < items_len
                invariant
                    i < self.sales@.len(),
                    items_len == self.sales@[i as int].items@.len(),
                    j <= items_len,
                    forall|b: int|
                        0 <= b < j ==> (#[trigger] self.sales@[i as int].items@[b]).product_id
                            != id,
                decreases items_len - j,
            {
                if self.sales[i].items[j].product_id == id {
                    return true;
                }
                j = j + 1;
            }
            i = i + 1;
        }
        let mut i: usize = 0;
        while i < self.adjustments.len()
            invariant
                i <= self.adjustments@.len(),
                forall|a: int, b: int|
                    0 <= a < self.sales@.len() && 0 <= b < self.sales@[a].items@.len() ==> (
                    #[trigger] self.sales@[a].items@[b]).product_id != id,
                forall|a: int|
                    0 <= a < i ==> (#[trigger] self.adjustments@[a]).product_id != id,
            decreases self.adjustments@.len() - i,
        {
            if self.adjustments[i].product_id == id {
                return true;
            }
            i = i + 1;
        }
        false
    }

    /// Removes a product, unless sales history or the audit trail still
    /// references it; removing an absent product is a no-op.
    pub fn delete_product(&mut self, id: u64) -> (r: Result<(), PosError>)
        requires
            old(self).wf(),
        ensures
            final(self).wf(),
            product_referenced(*old(self), id) ==> r == Err::<(), PosError>(
                PosError::ReferencedEntity,
            ) && *final(self) == *old(self),
            !product_referenced(*old(self), id) && !has_product(old(self).products@, id) ==> r
                == Ok::<(), PosError>(()) && *final(self) == *old(self),
            !product_referenced(*old(self), id) && has_product(old(self).products@, id) ==> ({
                &&& r == Ok::<(), PosError>(())
                &&& final(self).products@ == old(self).products@.remove(
                    index_of_product(old(self).products@, id),
                )
                &&& old(self).only_products_changed(*final(self))
            }),
    {
        if self.product_is_referenced(id) {
            return Err(PosError::ReferencedEntity);
        }
        let idx = match find_product_index(&self.products, id) {
            None => {
                return Ok(());
            },
            Some(i) => i,
        };
        proof {
            lemma_product_index(self.products@, id, idx as int);
        }
        let ghost o = *self;
        self.products.remove(idx);
        proof {
            assert(unique_product_ids(self.products@)) by {
                assert forall|a: int, b: int|
                    0 <= a < b < self.products@.len() implies (#[trigger] self.products@[a]).id != (
                #[trigger] self.products@[b]).id by {
                    let oa = if a < idx as int {
                        a
                    } else {
                        a + 1
                    };
                    let ob = if b < idx as int {
                        b
                    } else {
                        b + 1
                    };
                    assert(self.products@[a] == o.products@[oa]);
                    assert(self.products@[b] == o.products@[ob]);
                }
            }
            assert forall|pid: u64|
                has_product(o.products@, pid) && pid != id implies has_product(
                self.products@,
                pid,
            ) by {
                let w = choose|w: int| 0 <= w < o.products@.len() && o.products@[w].id == pid;
                if w < idx as int {
                    assert(self.products@[w].id == pid);
                } else {
                    assert(o.products@[idx as int].id == id);
                    assert(w != idx as int);
                    assert(self.products@[w - 1].id == pid);
                }
            }
            assert(self.wf());
        }
        Ok(())
    }

    /// Every category, sorted by name.
    pub fn get_categories(&self) -> (r: Vec<Category>)
        ensures
            r@.to_multiset() == self.categories@.to_multiset(),
            categories_sorted(r@),
    {
        let mut r: Vec<Category> = Vec::new();
        let mut i: usize = 0;
        while i < self.categories.len()
            invariant
                i <= self.categories@.len(),
                r@ =~= self.categories@.take(i as int),
            decreases self.categories@.len() - i,
        {
            r.push(self.categories[i].duplicate());
            proof {
                assert(r@ =~= self.categories@.take(i + 1 as int));
            }
            i = i + 1;
        }
        proof {
            assert(self.categories@.take(self.categories@.len() as int) =~= self.categories@);
        }
        sort_categories_by_name(r)
    }

    /// Loads one category by id.
    pub fn get_category(&self, id: u64) -> (r: Result<Category, PosError>)
        requires
            self.wf(),
        ensures
            has_category(self.categories@, id) ==> r == Ok::<Category, PosError>(
                category_at(self.categories@, id),
            ),
            !has_category(self.categories@, id) ==> r == Err::<Category, PosError>(
                PosError::NotFound,
            ),
    {
        let idx = match find_category_index(&self.categories, id) {
            None => {
                return Err(PosError::NotFound);
            },
            Some(i) => i,
        };
        proof {
            lemma_category_index(self.categories@, id, idx as int);
        }
        Ok(self.categories[idx].duplicate())
    }

    /// Creates a category; a name already in use is refused.
    pub fn create_category(&mut self, request: &CreateCategoryRequest, now: u64) -> (r: Result<
        Category,
        PosError,
    >)
        requires
            old(self).wf(),
        ensures
            final(self).wf(),
            category_name_taken(old(self).categories@, request.name@, None) ==> r == Err::<
                Category,
                PosError,
            >(PosError::DuplicateKey) && *final(self) == *old(self),
            !category_name_taken(old(self).categories@, request.name@, None) && old(
                self,
            ).next_category_id == u64::MAX ==> r == Err::<Category, PosError>(
                PosError::LimitExceeded,
            ) && *final(self) == *old(self),
            !category_name_taken(old(self).categories@, request.name@, None) && old(
                self,
            ).next_category_id < u64::MAX ==> ({
                let c = (Category {
                    id: old(self).next_category_id,
                    name: request.name,
                    description: request.description,
                    created_at: now,
                });
                &&& r == Ok::<Category, PosError>(c)
                &&& final(self).categories@ == old(self).categories@.push(c)
                &&& final(self).next_category_id == old(self).next_category_id + 1
                &&& final(self).products == old(self).products
                &&& final(self).users == old(self).users
                &&& final(self).sessions == old(self).sessions
                &&& final(self).sales == old(self).sales
                &&& final(self).adjustments == old(self).adjustments
                &&& final(self).next_product_id == old(self).next_product_id
                &&& final(self).next_user_id == old(self).next_user_id
                &&& final(self).next_session_id == old(self).next_session_id
                &&& final(self).next_sale_id == old(self).next_sale_id
                &&& final(self).next_sale_item_id == old(self).next_sale_item_id
                &&& final(self).next_adjustment_id == old(self).next_adjustment_id
            }),
    {
        let mut i: usize = 0;
        while i < self.categories.len()
            invariant
                *self == *old(self),
                old(self).wf(),
                i <= self.categories@.len(),
                forall|j: int| 0 <= j < i ==> (#[trigger] self.categories@[j]).name@
                    != request.name@,
            decreases self.categories@.len() - i,
        {
            if self.categories[i].name == request.name {
                proof {
                    assert((#[trigger] self.categories@[i as int]).name@ == request.name@);
                }
                return Err(PosError::DuplicateKey);
            }
            i = i + 1;
        }
        if self.next_category_id == u64::MAX {
            return Err(PosError::LimitExceeded);
        }
        let c = Category {
            id: self.next_category_id,
            name: request.name.clone(),
            description: clone_opt_string(&request.description),
            created_at: now,
        };
        let ret = c.duplicate();
        let ghost o = *self;
        self.categories.push(c);
        self.next_category_id = self.next_category_id + 1;
        proof {
            assert(self.categories@.drop_last() =~= o.categories@);
            assert(self.wf());
        }
        Ok(ret)
    }

    /// Updates a category's name and description; a name already used by
    /// another category is refused.
    pub fn update_category(&mut self, request: &UpdateCategoryRequest, now: u64) -> (r: Result<
        Category,
        PosError,
    >)
        requires
            old(self).wf(),
        ensures
            final(self).wf(),
            ({
                let name_conflict = (request.name matches Some(n) && category_name_taken(
                    old(self).categories@,
                    n@,
                    Some(request.id),
                ));
                &&& (name_conflict ==> r == Err::<Category, PosError>(PosError::DuplicateKey)
                    && *final(self) == *old(self))
                &&& (!name_conflict && !has_category(old(self).categories@, request.id) ==> r
                    == Err::<Category, PosError>(PosError::NotFound) && *final(self) == *old(self))
                &&& (!name_conflict && has_category(old(self).categories@, request.id) ==> ({
                    let c = category_at(old(self).categories@, request.id);
                    let nc = (Category {
                        id: c.id,
                        name: match request.name {
                            Some(n) => n,
                            None => c.name,
                        },
                        description: match request.description {
                            Some(d) => Some(d),
                            None => c.description,
                        },
                        created_at: c.created_at,
                    });
                    &&& r == Ok::<Category, PosError>(nc)
                    &&& final(self).categories@ == old(self).categories@.update(
                        index_of_category(old(self).categories@, request.id),
                        nc,
                    )
                    &&& final(self).products == old(self).products
                    &&& final(self).users == old(self).users
                    &&& final(self).sessions == old(self).sessions
                    &&& final(self).sales == old(self).sales
                    &&& final(self).adjustments == old(self).adjustments
                    &&& final(self).next_product_id == old(self).next_product_id
                    &&& final(self).next_category_id == old(self).next_category_id
                    &&& final(self).next_user_id == old(self).next_user_id
                    &&& final(self).next_session_id == old(self).next_session_id
                    &&& final(self).next_sale_id == old(self).next_sale_id
                    &&& final(self).next_sale_item_id == old(self).next_sale_item_id
                    &&& final(self).next_adjustment_id == old(self).next_adjustment_id
                }))
            }),
    {
        let _ = now;
        if let Some(name) = &request.name {
            let mut i: usize = 0;
            while i < self.categories.len()
                invariant
                    *self == *old(self),
                    old(self).wf(),
                    request.name is Some,
                    name@ == request.name->0@,
                    i <= self.categories@.len(),
                    forall|j: int|
                        0 <= j < i ==> !((#[trigger] self.categories@[j]).name@ == name@
                            && self.categories@[j].id != request.id),
                decreases self.categories@.len() - i,
            {
                if self.categories[i].name == *name && self.categories[i].id != request.id {
                    proof {
                        assert((#[trigger] self.categories@[i as int]).name@
                            == request.name->0@);
                        assert(category_name_taken(
                            old(self).categories@,
                            request.name->0@,
                            Some(request.id),
                        ));
                    }
                    return Err(PosError::DuplicateKey);
                }
                i = i + 1;
            }
        }
        let idx = match find_category_index(&self.categories, request.id) {
            None => {
                return Err(PosError::NotFound);
            },
            Some(i) => i,
        };
        proof {
            lemma_category_index(self.categories@, request.id, idx as int);
        }
        let c = &self.categories[idx];
        let nc = Category {
            id: c.id,
            name: match &request.name {
                Some(n) => n.clone(),
                None => c.name.clone(),
            },
            description: match &request.description {
                Some(d) => Some(d.clone()),
                None => clone_opt_string(&c.description),
            },
            created_at: c.created_at,
        };
        let ret = nc.duplicate();
        self.categories[idx] = nc;
        proof {
            assert(self.wf());
        }
        Ok(ret)
    }

    /// Removes a category: products that referenced it lose the reference,
    /// exactly as the schema's on-delete rule would null it out.
    pub fn delete_category(&mut self, id: u64) -> (r: Result<(), PosError>)
        requires
            old(self).wf(),
        ensures
            final(self).wf(),
            r == Ok::<(), PosError>(()),
            final(self).products@.len() == old(self).products@.len(),
            forall|i: int|
                0 <= i < old(self).products@.len() ==> final(self).products@[i] == ({
                    let p = #[trigger] old(self).products@[i];
                    if p.category_id == Some(id) {
                        Product { category_id: None, ..p }
                    } else {
                        p
                    }
                }),
            has_category(old(self).categories@, id) ==> final(self).categories@ == old(
                self,
            ).categories@.remove(index_of_category(old(self).categories@, id)),
            !has_category(old(self).categories@, id) ==> final(self).categories == old(
                self,
            ).categories,
            final(self).users == old(self).users,
            final(self).sessions == old(self).sessions,
            final(self).sales == old(self).sales,
            final(self).adjustments == old(self).adjustments,
            final(self).next_product_id == old(self).next_product_id,
            final(self).next_category_id == old(self).next_category_id,
            final(self).next_user_id == old(self).next_user_id,
            final(self).next_session_id == old(self).next_session_id,
            final(self).next_sale_id == old(self).next_sale_id,
            final(self).next_sale_item_id == old(self).next_sale_item_id,
            final(self).next_adjustment_id == old(self).next_adjustment_id,
    {
        let ghost o = *self;
        let mut i: usize = 0;
        while i < self.products.len()
            invariant
                o.wf(),
                i <= self.products@.len(),
                self.products@.len() == o.products@.len(),
                forall|j: int|
                    0 <= j < i ==> self.products@[j] == ({
                        let p = #[trigger] o.products@[j];
                        if p.category_id == Some(id) {
                            Product { category_id: None, ..p }
                        } else {
                            p
                        }
                    }),
                forall|j: int| i <= j < self.products@.len() ==> self.products@[j] == (
                #[trigger] o.products@[j]),
                self.categories == o.categories,
                self.users == o.users,
                self.sessions == o.sessions,
                self.sales == o.sales,
                self.adjustments == o.adjustments,
                self.next_product_id == o.next_product_id,
                self.next_category_id == o.next_category_id,
                self.next_user_id == o.next_user_id,
                self.next_session_id == o.next_session_id,
                self.next_sale_id == o.next_sale_id,
                self.next_sale_item_id == o.next_sale_item_id,
                self.next_adjustment_id == o.next_adjustment_id,
            decreases self.products@.len() - i,
        {
            let matches_cat = match self.products[i].category_id {
                Some(c) => c == id,
                None => false,
            };
            if matches_cat {
                let mut np = self.products[i].duplicate();
                np.category_id = None;
                self.products[i] = np;
            }
            i = i + 1;
        }
        let ghost mid = *self;
        proof {
            assert forall|j: int| 0 <= j < self.products@.len() implies (#[trigger] self.products@[
                j]).id == o.products@[j].id && self.products@[j].wf() by {
                let p = o.products@[j];
                if p.category_id == Some(id) {
                    assert(self.products@[j] == Product { category_id: None, ..p });
                } else {
                    assert(self.products@[j] == p);
                }
            }
            lemma_same_ids_has_product(o.products@, self.products@);
            assert(mid.wf());
        }
        let idx = match find_category_index(&self.categories, id) {
            None => {
                return Ok(());
            },
            Some(i) => i,
        };
        proof {
            lemma_category_index(self.categories@, id, idx as int);
        }
        let ghost before = *self;
        self.categories.remove(idx);
        proof {
            assert(unique_category_ids(self.categories@)) by {
                assert forall|a: int, b: int|
                    0 <= a < b < self.categories@.len() implies (#[trigger] self.categories@[a]).id
                    != (#[trigger] self.categories@[b]).id by {
                    let oa = if a < idx as int {
                        a
                    } else {
                        a + 1
                    };
                    let ob = if b < idx as int {
                        b
                    } else {
                        b + 1
                    };
                    assert(self.categories@[a] == before.categories@[oa]);
                    assert(self.categories@[b] == before.categories@[ob]);
                }
            }
            assert(self.wf());
        }
        Ok(())
    }

    /// Every user, in stored order, without password hashes.
    pub fn get_users(&self) -> (r: Vec<User>)
        ensures
            r@.len() == self.users@.len(),
            forall|i: int| 0 <= i < self.users@.len() ==> r@[i] == (#[trigger] self.users@[i]).user,
    {
        let mut r: Vec<User> = Vec::new();
        let mut i: usize = 0;
        while i < self.users.len()
            invariant
                i <= self.users@.len(),
                r@.len() == i,
                forall|j: int| 0 <= j < i ==> r@[j] == (#[trigger] self.users@[j]).user,
            decreases self.users@.len() - i,
        {
            r.push(self.users[i].user.duplicate());
            i = i + 1;
        }
        r
    }

    /// Loads one user by id, without the password hash.
    pub fn get_user(&self, id: u64) -> (r: Result<User, PosError>)
        requires
            self.wf(),
        ensures
            has_user(self.users@, id) ==> r == Ok::<User, PosError>(user_at(self.users@, id).user),
            !has_user(self.users@, id) ==> r == Err::<User, PosError>(PosError::NotFound),
    {
        let idx = match find_user_index(&self.users, id) {
            None => {
                return Err(PosError::NotFound);
            },
            Some(i) => i,
        };
        proof {
            lemma_user_index(self.users@, id, idx as int);
        }
        Ok(self.users[idx].user.duplicate())
    }

    /// Finds a user by username, handing back the stored password hash for
    /// the caller's credential check.
    pub fn find_by_username(&self, username: &String) -> (r: Option<(User, String)>)
        ensures
            match r {
                Some(pair) => pair.0.username@ == username@ && exists|i: int|
                    0 <= i < self.users@.len() && (#[trigger] self.users@[i]).user == pair.0
                        && self.users@[i].password_hash == pair.1,
                None => !username_taken(self.users@, username@, None),
            },
    {
        let mut i: usize = 0;
        while i < self.users.len()
            invariant
                i <= self.users@.len(),
                forall|j: int| 0 <= j < i ==> (#[trigger] self.users@[j]).user.username@
                    != username@,
            decreases self.users@.len() - i,
        {
            if self.users[i].user.username == *username {
                let u = self.users[i].user.duplicate();
                let h = self.users[i].password_hash.clone();
                proof {
                    assert((#[trigger] self.users@[i as int]).user == u);
                }
                return Some((u, h));
            }
            i = i + 1;
        }
        None
    }

    /// Creates a user with an already-hashed password. The role must be
    /// `admin` or `cashier`, and usernames are unique.
    pub fn create_user(&mut self, request: &CreateUserRequest, now: u64) -> (r: Result<
        User,
        PosError,
    >)
        requires
            old(self).wf(),
        ensures
            final(self).wf(),
            !is_valid_role(request.role@) ==> r == Err::<User, PosError>(PosError::InvalidRole)
                && *final(self) == *old(self),
            is_valid_role(request.role@) && username_taken(
                old(self).users@,
                request.username@,
                None,
            ) ==> r == Err::<User, PosError>(PosError::DuplicateKey) && *final(self) == *old(self),
            is_valid_role(request.role@) && !username_taken(
                old(self).users@,
                request.username@,
                None,
            ) && old(self).next_user_id == u64::MAX ==> r == Err::<User, PosError>(
                PosError::LimitExceeded,
            ) && *final(self) == *old(self),
            is_valid_role(request.role@) && !username_taken(
                old(self).users@,
                request.username@,
                None,
            ) && old(self).next_user_id < u64::MAX ==> ({
                let u = (User {
                    id: old(self).next_user_id,
                    username: request.username,
                    full_name: request.full_name,
                    role: request.role,
                    active: true,
                    created_at: now,
                    updated_at: now,
                });
                &&& r == Ok::<User, PosError>(u)
                &&& final(self).users@ == old(self).users@.push(
                    (StoredUser { user: u, password_hash: request.password }),
                )
                &&& final(self).next_user_id == old(self).next_user_id + 1
                &&& final(self).products == old(self).products
                &&& final(self).categories == old(self).categories
                &&& final(self).sessions == old(self).sessions
                &&& final(self).sales == old(self).sales
                &&& final(self).adjustments == old(self).adjustments
                &&& final(self).next_product_id == old(self).next_product_id
                &&& final(self).next_category_id == old(self).next_category_id
                &&& final(self).next_session_id == old(self).next_session_id
                &&& final(self).next_sale_id == old(self).next_sale_id
                &&& final(self).next_sale_item_id == old(self).next_sale_item_id
                &&& final(self).next_adjustment_id == old(self).next_adjustment_id
            }),
    {
        let admin_s: String = "admin".to_owned();
        let cashier_s: String = "cashier".to_owned();
        if !(request.role == admin_s || request.role == cashier_s) {
            return Err(PosError::InvalidRole);
        }
        let mut i: usize = 0;
        while i < self.users.len()
            invariant
                *self == *old(self),
                old(self).wf(),
                is_valid_role(request.role@),
                i <= self.users@.len(),
                forall|j: int| 0 <= j < i ==> (#[trigger] self.users@[j]).user.username@
                    != request.username@,
            decreases self.users@.len() - i,
        {
            if self.users[i].user.username == request.username {
                proof {
                    assert((#[trigger] self.users@[i as int]).user.username@
                        == request.username@);
                }
                return Err(PosError::DuplicateKey);
            }
            i = i + 1;
        }
        if self.next_user_id == u64::MAX {
            return Err(PosError::LimitExceeded);
        }
        let u = User {
            id: self.next_user_id,
            username: request.username.clone(),
            full_name: request.full_name.clone(),
            role: request.role.clone(),
            active: true,
            created_at: now,
            updated_at: now,
        };
        let ret = u.duplicate();
        let ghost o = *self;
        self.users.push(StoredUser { user: u, password_hash: request.password.clone() });
        self.next_user_id = self.next_user_id + 1;
        proof {
            assert(self.users@.drop_last() =~= o.users@);
            assert(self.wf());
        }
        Ok(ret)
    }

    /// Updates the given fields of a user; absent fields keep their value.
    pub fn update_user(&mut self, request: &UpdateUserRequest, now: u64) -> (r: Result<
        User,
        PosError,
    >)
        requires
            old(self).wf(),
        ensures
            final(self).wf(),
            ({
                let bad_role = (request.role matches Some(ro) && !is_valid_role(ro@));
                let name_conflict = (request.username matches Some(n) && username_taken(
                    old(self).users@,
                    n@,
                    Some(request.id),
                ));
                &&& (bad_role ==> r == Err::<User, PosError>(PosError::InvalidRole)
                    && *final(self) == *old(self))
                &&& (!bad_role && !has_user(old(self).users@, request.id) ==> r == Err::<
                    User,
                    PosError,
                >(PosError::NotFound) && *final(self) == *old(self))
                &&& (!bad_role && has_user(old(self).users@, request.id) && name_conflict ==> r
                    == Err::<User, PosError>(PosError::DuplicateKey) && *final(self) == *old(self))
                &&& (!bad_role && has_user(old(self).users@, request.id) && !name_conflict ==> ({
                    let su = user_at(old(self).users@, request.id);
                    let nu = (User {
                        id: su.user.id,
                        username: match request.username {
                            Some(n) => n,
                            None => su.user.username,
                        },
                        full_name: match request.full_name {
                            Some(n) => n,
                            None => su.user.full_name,
                        },
                        role: match request.role {
                            Some(ro) => ro,
                            None => su.user.role,
                        },
                        active: match request.active {
                            Some(a) => a,
                            None => su.user.active,
                        },
                        created_at: su.user.created_at,
                        updated_at: now,
                    });
                    let nh = match request.password {
                        Some(h) => h,
                        None => su.password_hash,
                    };
                    &&& r == Ok::<User, PosError>(nu)
                    &&& final(self).users@ == old(self).users@.update(
                        index_of_user(old(self).users@, request.id),
                        (StoredUser { user: nu, password_hash: nh }),
                    )
                    &&& final(self).products == old(self).products
                    &&& final(self).categories == old(self).categories
                    &&& final(self).sessions == old(self).sessions
                    &&& final(self).sales == old(self).sales
                    &&& final(self).adjustments == old(self).adjustments
                    &&& final(self).next_product_id == old(self).next_product_id
                    &&& final(self).next_category_id == old(self).next_category_id
                    &&& final(self).next_user_id == old(self).next_user_id
                    &&& final(self).next_session_id == old(self).next_session_id
                    &&& final(self).next_sale_id == old(self).next_sale_id
                    &&& final(self).next_sale_item_id == old(self).next_sale_item_id
                    &&& final(self).next_adjustment_id == old(self).next_adjustment_id
                }))
            }),
    {
        if let Some(role) = &request.role {
            let admin_s: String = "admin".to_owned();
            let cashier_s: String = "cashier".to_owned();
            if !(*role == admin_s || *role == cashier_s) {
                return Err(PosError::InvalidRole);
            }
        }
        let idx = match find_user_index(&self.users, request.id) {
            None => {
                return Err(PosError::NotFound);
            },
            Some(i) => i,
        };
        proof {
            lemma_user_index(self.users@, request.id, idx as int);
        }
        if let Some(name) = &request.username {
            let mut i: usize = 0;
            while i < self.users.len()
                invariant
                    *self == *old(self),
                    old(self).wf(),
                    !(request.role matches Some(ro) && !is_valid_role(ro@)),
                    has_user(old(self).users@, request.id),
                    request.username is Some,
                    name@ == request.username->0@,
                    i <= self.users@.len(),
                    forall|j: int|
                        0 <= j < i ==> !((#[trigger] self.users@[j]).user.username@ == name@
                            && self.users@[j].user.id != request.id),
                decreases self.users@.len() - i,
            {
                if self.users[i].user.username == *name && self.users[i].user.id != request.id {
                    proof {
                        assert((#[trigger] self.users@[i as int]).user.username@
                            == request.username->0@);
                        assert(username_taken(
                            old(self).users@,
                            request.username->0@,
                            Some(request.id),
                        ));
                    }
                    return Err(PosError::DuplicateKey);
                }
                i = i + 1;
            }
            proof {
                lemma_user_index(self.users@, request.id, idx as int);
            }
        }
        let su = &self.users[idx];
        let nu = User {
            id: su.user.id,
            username: match &request.username {
                Some(n) => n.clone(),
                None => su.user.username.clone(),
            },
            full_name: match &request.full_name {
                Some(n) => n.clone(),
                None => su.user.full_name.clone(),
            },
            role: match &request.role {
                Some(ro) => ro.clone(),
                None => su.user.role.clone(),
            },
            active: match request.active {
                Some(a) => a,
                None => su.user.active,
            },
            created_at: su.user.created_at,
            updated_at: now,
        };
        let nh = match &request.password {
            Some(h) => h.clone(),
            None => su.password_hash.clone(),
        };
        let ret = nu.duplicate();
        let ghost o = *self;
        self.users[idx] = StoredUser { user: nu, password_hash: nh };
        proof {
            assert(self.wf());
        }
        Ok(ret)
    }

    /// Whether any session, sale or adjustment references the user.
    fn user_is_referenced(&self, id: u64) -> (r: bool)
        ensures
            r == user_referenced(*self, id),
    {
        let mut i: usize = 0;
        while i < self.sessions.len()
            invariant
                i <= self.sessions@.len(),
                forall|j: int| 0 <= j < i ==> (#[trigger] self.sessions@[j]).user_id != id,
            decreases self.sessions@.len() - i,
        {
            if self.sessions[i].user_id == id {
                return true;
            }
            i = i + 1;
        }
        let mut i: usize = 0;
        while i < self.sales.len()
            invariant
                i <= self.sales@.len(),
                forall|j: int| 0 <= j < self.sessions@.len() ==> (#[trigger] self.sessions@[j])
                    .user_id != id,
                forall|j: int| 0 <= j < i ==> (#[trigger] self.sales@[j]).user_id != id,
            decreases self.sales@.len() - i,
        {
            if self.sales[i].user_id == id {
                return true;
            }
            i = i + 1;
        }
        let mut i: usize = 0;
        while i < self.adjustments.len()
            invariant
                i <= self.adjustments@.len(),
                forall|j: int| 0 <= j < self.sessions@.len() ==> (#[trigger] self.sessions@[j])
                    .user_id != id,
                forall|j: int| 0 <= j < self.sales@.len() ==> (#[trigger] self.sales@[j]).user_id
                    != id,
                forall|j: int| 0 <= j < i ==> (#[trigger] self.adjustments@[j]).user_id != id,
            decreases self.adjustments@.len() - i,
        {
            if self.adjustments[i].user_id == id {
                return true;
            }
            i = i + 1;
        }
        false
    }

    /// Removes a user, unless cash-register sessions, sales or adjustments
    /// still reference them; removing an absent user is a no-op.
    pub fn delete_user(&mut self, id: u64) -> (r: Result<(), PosError>)
        requires
            old(self).wf(),
        ensures
            final(self).wf(),
            user_referenced(*old(self), id) ==> r == Err::<(), PosError>(
                PosError::ReferencedEntity,
            ) && *final(self) == *old(self),
            !user_referenced(*old(self), id) && !has_user(old(self).users@, id) ==> r == Ok::<
                (),
                PosError,
            >(()) && *final(self) == *old(self),
            !user_referenced(*old(self), id) && has_user(old(self).users@, id) ==> ({
                &&& r == Ok::<(), PosError>(())
                &&& final(self).users@ == old(self).users@.remove(
                    index_of_user(old(self).users@, id),
                )
                &&& final(self).products == old(self).products
                &&& final(self).categories == old(self).categories
                &&& final(self).sessions == old(self).sessions
                &&& final(self).sales == old(self).sales
                &&& final(self).adjustments == old(self).adjustments
                &&& final(self).next_product_id == old(self).next_product_id
                &&& final(self).next_category_id == old(self).next_category_id
                &&& final(self).next_user_id == old(self).next_user_id
                &&& final(self).next_session_id == old(self).next_session_id
                &&& final(self).next_sale_id == old(self).next_sale_id
                &&& final(self).next_sale_item_id == old(self).next_sale_item_id
                &&& final(self).next_adjustment_id == old(self).next_adjustment_id
            }),
    {
        if self.user_is_referenced(id) {
            return Err(PosError::ReferencedEntity);
        }
        let idx = match find_user_index(&self.users, id) {
            None => {
                return Ok(());
            },
            Some(i) => i,
        };
        proof {
            lemma_user_index(self.users@, id, idx as int);
        }
        let ghost before = *self;
        self.users.remove(idx);
        proof {
            assert(unique_user_ids(self.users@)) by {
                assert forall|a: int, b: int|
                    0 <= a < b < self.users@.len() implies (#[trigger] self.users@[a]).user.id != (
                #[trigger] self.users@[b]).user.id by {
                    let oa = if a < idx as int {
                        a
                    } else {
                        a + 1
                    };
                    let ob = if b < idx as int {
                        b
                    } else {
                        b + 1
                    };
                    assert(self.users@[a] == before.users@[oa]);
                    assert(self.users@[b] == before.users@[ob]);
                }
            }
            assert forall|j: int| 0 <= j < self.users@.len() implies is_valid_role(
                (#[trigger] self.users@[j]).user.role@,
            ) && self.users@[j].user.id < self.next_user_id by {
                let oj = if j < idx as int {
                    j
                } else {
                    j + 1
                };
                assert(self.users@[j] == before.users@[oj]);
            }
            assert(self.wf());
        }
        Ok(())
    }

    /// Whether a category with this id exists.
    pub fn category_exists(&self, id: u64) -> (r: bool)
        ensures
            r == has_category(self.categories@, id),
    {
        let mut i: usize = 0;
        while i < self.categories.len()
            invariant
                i <= self.categories@.len(),
                forall|j: int| 0 <= j < i ==> (#[trigger] self.categories@[j]).id != id,
            decreases self.categories@.len() - i,
        {
            if self.categories[i].id == id {
                return true;
            }
            i = i + 1;
        }
        false
    }
}

} // verus!

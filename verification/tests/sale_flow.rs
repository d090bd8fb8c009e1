use pos_engine::store::Store;
use pos_engine::errors::PosError;
use pos_engine::product::CreateProductRequest;
use pos_engine::user::CreateUserRequest;
use pos_engine::cash_register::OpenCashRegisterRequest;
use pos_engine::sale::{CreateSaleRequest, CreateSaleItemRequest, SaleStatus};

fn new_store_with_user() -> Store {
    let mut st = Store::new();
    let user = CreateUserRequest {
        username: "cashier1".to_string(),
        password: "hash-of-password".to_string(),
        full_name: "Test Cashier".to_string(),
        role: "cashier".to_string(),
    };
    st.create_user(&user, 1).unwrap();
    st
}

fn add_product(st: &mut Store, name: &str, price: u64, stock: u64) -> u64 {
    let req = CreateProductRequest {
        name: name.to_string(),
        description: None,
        barcode: None,
        price,
        unit: "piece".to_string(),
        category_id: None,
        stock: Some(stock),
        min_stock: None,
    };
    st.create_product(&req, 1).unwrap().id
}

fn open_session(st: &mut Store, opening: u64) -> u64 {
    let req = OpenCashRegisterRequest { user_id: 1, opening_amount: opening, exchange_rate: None };
    st.open_cash_register(&req, 2).unwrap().id
}

fn sale_request(session: u64, payment: u64, items: Vec<(u64, u64)>) -> CreateSaleRequest {
    CreateSaleRequest {
        cash_register_session_id: session,
        user_id: 1,
        payment_method: "cash".to_string(),
        payment_amount: payment,
        items: items
            .into_iter()
            .map(|(product_id, quantity)| CreateSaleItemRequest { product_id, quantity })
            .collect(),
    }
}

#[test]
fn sale_total_is_sum_of_subtotals_and_stock_drops() {
    let mut st = new_store_with_user();
    let apple = add_product(&mut st, "apple", 250, 10);
    let pear = add_product(&mut st, "pear", 300, 7);
    let session = open_session(&mut st, 0);

    let sale = st.create_sale(&sale_request(session, 2000, vec![(apple, 3), (pear, 2)]), 5).unwrap();
    assert_eq!(sale.total, 3 * 250 + 2 * 300);
    let sum: u64 = sale.items.iter().map(|i| i.subtotal).sum();
    assert_eq!(sale.total, sum);
    assert_eq!(sale.items[0].subtotal, 750);
    assert_eq!(sale.items[1].subtotal, 600);
    assert_eq!(st.get_product(apple).unwrap().stock, 7);
    assert_eq!(st.get_product(pear).unwrap().stock, 5);
    assert!(matches!(sale.status, SaleStatus::Completed));
}

#[test]
fn oversold_request_is_fully_rejected() {
    let mut st = new_store_with_user();
    let apple = add_product(&mut st, "apple", 250, 10);
    let pear = add_product(&mut st, "pear", 300, 1);
    let session = open_session(&mut st, 0);

    let r = st.create_sale(&sale_request(session, 100000, vec![(apple, 3), (pear, 2)]), 5);
    assert_eq!(r.unwrap_err(), PosError::InsufficientStock);
    // no stock change for any item of the request, and no sale row
    assert_eq!(st.get_product(apple).unwrap().stock, 10);
    assert_eq!(st.get_product(pear).unwrap().stock, 1);
    assert!(st.get_sales().is_empty());
}

#[test]
fn duplicate_line_demand_is_counted_cumulatively() {
    let mut st = new_store_with_user();
    let apple = add_product(&mut st, "apple", 100, 5);
    let session = open_session(&mut st, 0);

    // 3 + 3 of a product with stock 5 is oversold even though each line fits
    let r = st.create_sale(&sale_request(session, 100000, vec![(apple, 3), (apple, 3)]), 5);
    assert_eq!(r.unwrap_err(), PosError::InsufficientStock);
    assert_eq!(st.get_product(apple).unwrap().stock, 5);

    // 2 + 3 fits exactly
    let sale = st.create_sale(&sale_request(session, 100000, vec![(apple, 2), (apple, 3)]), 5).unwrap();
    assert_eq!(sale.total, 500);
    assert_eq!(st.get_product(apple).unwrap().stock, 0);
}

#[test]
fn insufficient_payment_has_no_side_effects() {
    let mut st = new_store_with_user();
    let apple = add_product(&mut st, "apple", 250, 10);
    let session = open_session(&mut st, 0);

    let r = st.create_sale(&sale_request(session, 700, vec![(apple, 3)]), 5);
    assert_eq!(r.unwrap_err(), PosError::InsufficientPayment);
    assert_eq!(st.get_product(apple).unwrap().stock, 10);
    assert!(st.get_sales().is_empty());
}

#[test]
fn change_is_payment_minus_total() {
    let mut st = new_store_with_user();
    let apple = add_product(&mut st, "apple", 250, 10);
    let session = open_session(&mut st, 0);

    let sale = st.create_sale(&sale_request(session, 1000, vec![(apple, 3)]), 5).unwrap();
    assert_eq!(sale.total, 750);
    assert_eq!(sale.change_amount, 250);
    assert_eq!(sale.payment_amount, 1000);
}

#[test]
fn inactive_product_is_refused() {
    let mut st = new_store_with_user();
    let apple = add_product(&mut st, "apple", 250, 10);
    let update = pos_engine::product::UpdateProductRequest {
        id: apple,
        name: None,
        description: None,
        barcode: None,
        price: None,
        unit: None,
        category_id: None,
        min_stock: None,
        active: Some(false),
    };
    st.update_product(&update, 3).unwrap();
    let session = open_session(&mut st, 0);

    let r = st.create_sale(&sale_request(session, 1000, vec![(apple, 1)]), 5);
    assert_eq!(r.unwrap_err(), PosError::ProductInactive);
}

#[test]
fn unknown_product_and_unknown_session_are_not_found() {
    let mut st = new_store_with_user();
    let apple = add_product(&mut st, "apple", 250, 10);
    let session = open_session(&mut st, 0);

    let r = st.create_sale(&sale_request(session, 1000, vec![(99, 1)]), 5);
    assert_eq!(r.unwrap_err(), PosError::NotFound);

    let r = st.create_sale(&sale_request(42, 1000, vec![(apple, 1)]), 5);
    assert_eq!(r.unwrap_err(), PosError::NotFound);
}

#[test]
fn price_is_snapshotted_at_sale_time() {
    let mut st = new_store_with_user();
    let apple = add_product(&mut st, "apple", 250, 10);
    let session = open_session(&mut st, 0);
    let sale = st.create_sale(&sale_request(session, 1000, vec![(apple, 2)]), 5).unwrap();

    // raise the live price afterwards; the recorded sale keeps the old one
    let update = pos_engine::product::UpdateProductRequest {
        id: apple,
        name: None,
        description: None,
        barcode: None,
        price: Some(999),
        unit: None,
        category_id: None,
        min_stock: None,
        active: None,
    };
    st.update_product(&update, 6).unwrap();
    let loaded = st.get_sale(sale.id).unwrap();
    assert_eq!(loaded.items[0].unit_price, 250);
    assert_eq!(loaded.items[0].subtotal, 500);
}

#[test]
fn cancel_restores_stock_exactly() {
    let mut st = new_store_with_user();
    let apple = add_product(&mut st, "apple", 250, 12);
    let pear = add_product(&mut st, "pear", 300, 9);
    let session = open_session(&mut st, 0);

    let sale = st.create_sale(&sale_request(session, 10000, vec![(apple, 5), (pear, 4)]), 5).unwrap();
    assert_eq!(st.get_product(apple).unwrap().stock, 7);
    assert_eq!(st.get_product(pear).unwrap().stock, 5);

    st.cancel_sale(sale.id, 6).unwrap();
    assert_eq!(st.get_product(apple).unwrap().stock, 12);
    assert_eq!(st.get_product(pear).unwrap().stock, 9);
    assert!(matches!(st.get_sale(sale.id).unwrap().status, SaleStatus::Cancelled));
}

#[test]
fn second_cancellation_is_rejected() {
    let mut st = new_store_with_user();
    let apple = add_product(&mut st, "apple", 250, 12);
    let session = open_session(&mut st, 0);

    let sale = st.create_sale(&sale_request(session, 10000, vec![(apple, 5)]), 5).unwrap();
    st.cancel_sale(sale.id, 6).unwrap();
    assert_eq!(st.get_product(apple).unwrap().stock, 12);

    let r = st.cancel_sale(sale.id, 7);
    assert_eq!(r.unwrap_err(), PosError::SaleAlreadyCancelled);
    // stock is not restored twice
    assert_eq!(st.get_product(apple).unwrap().stock, 12);
}

#[test]
fn cancel_unknown_sale_is_not_found() {
    let mut st = new_store_with_user();
    let r = st.cancel_sale(1, 6);
    assert_eq!(r.unwrap_err(), PosError::NotFound);
}

#[test]
fn payment_beyond_machine_limit_is_refused() {
    let mut st = new_store_with_user();
    let apple = add_product(&mut st, "apple", 250, 10);
    let session = open_session(&mut st, 0);
    let r = st.create_sale(&sale_request(session, u64::MAX, vec![(apple, 1)]), 5);
    assert_eq!(r.unwrap_err(), PosError::LimitExceeded);
}

#[test]
fn sales_queries_filter_by_session_and_date() {
    let mut st = new_store_with_user();
    let apple = add_product(&mut st, "apple", 100, 100);
    let s1 = open_session(&mut st, 0);
    st.create_sale(&sale_request(s1, 1000, vec![(apple, 1)]), 10).unwrap();
    st.create_sale(&sale_request(s1, 1000, vec![(apple, 2)]), 20).unwrap();
    st.close_cash_register(
        &pos_engine::cash_register::CloseCashRegisterRequest { session_id: s1, closing_amount: 300 },
        25,
    )
    .unwrap();
    let s2 = open_session(&mut st, 30);
    st.create_sale(&sale_request(s2, 1000, vec![(apple, 3)]), 40).unwrap();

    assert_eq!(st.get_sales().len(), 3);
    assert_eq!(st.get_sales_by_session(s1).len(), 2);
    assert_eq!(st.get_sales_by_session(s2).len(), 1);
    let range = pos_engine::sale::DateRangeRequest { start_date: 15, end_date: 45 };
    let in_range = st.get_sales_by_date_range(&range);
    assert_eq!(in_range.len(), 2);
    assert_eq!(st.get_sale(1).unwrap().total, 100);
    assert_eq!(st.get_sale(99).unwrap_err(), PosError::NotFound);
}

#[test]
fn sale_lists_come_back_newest_first_as_header_rows() {
    let mut st = new_store_with_user();
    let apple = add_product(&mut st, "apple", 100, 100);
    let session = open_session(&mut st, 0);
    st.create_sale(&sale_request(session, 1000, vec![(apple, 1)]), 10).unwrap();
    st.create_sale(&sale_request(session, 1000, vec![(apple, 2)]), 20).unwrap();

    let all = st.get_sales();
    assert_eq!(all.len(), 2);
    assert_eq!(all[0].id, 2);
    assert_eq!(all[1].id, 1);
    // whole-list queries hand out header rows without the line items
    assert!(all[0].items.is_empty());
    let by_session = st.get_sales_by_session(session);
    assert_eq!(by_session[0].id, 2);
    assert!(by_session[0].items.is_empty());

    // the date-range query attaches the items and also reads newest first
    let range = pos_engine::sale::DateRangeRequest { start_date: 0, end_date: 100 };
    let in_range = st.get_sales_by_date_range(&range);
    assert_eq!(in_range[0].id, 2);
    assert_eq!(in_range[1].id, 1);
    assert_eq!(in_range[0].items.len(), 1);
    assert_eq!(in_range[0].items[0].quantity, 2);
}

#[test]
fn sales_report_totals_and_floor_average() {
    let mut st = new_store_with_user();
    let a = add_product(&mut st, "a", 1000, 100);
    let b = add_product(&mut st, "b", 1001, 100);
    let session = open_session(&mut st, 0);
    st.create_sale(&sale_request(session, 1000, vec![(a, 1)]), 10).unwrap();
    let sale2 = st.create_sale(&sale_request(session, 1001, vec![(b, 1)]), 11).unwrap();
    let cancelled = st.create_sale(&sale_request(session, 5000, vec![(a, 5)]), 12).unwrap();
    st.cancel_sale(cancelled.id, 13).unwrap();
    let _ = sale2;

    let range = pos_engine::sale::DateRangeRequest { start_date: 0, end_date: 100 };
    let report = st.get_sales_report(&range).unwrap();
    // cancelled sales stay out of the totals but remain listed
    assert_eq!(report.total_sales, 2001);
    assert_eq!(report.total_transactions, 2);
    assert_eq!(report.average_sale, 1000); // 2001 / 2 rounded down
    assert_eq!(report.sales.len(), 3);
}

#[test]
fn top_products_are_grouped_and_ordered_by_quantity() {
    let mut st = new_store_with_user();
    let a = add_product(&mut st, "alpha", 100, 100);
    let b = add_product(&mut st, "beta", 200, 100);
    let c = add_product(&mut st, "gamma", 300, 100);
    let session = open_session(&mut st, 0);
    st.create_sale(&sale_request(session, 100000, vec![(a, 2), (b, 5)]), 10).unwrap();
    st.create_sale(&sale_request(session, 100000, vec![(a, 1), (c, 4)]), 11).unwrap();

    let tops = st.get_top_products(0, 100, None).unwrap();
    assert_eq!(tops.len(), 3);
    assert_eq!(tops[0].product_id, b);
    assert_eq!(tops[0].total_quantity, 5);
    assert_eq!(tops[0].total_revenue, 1000);
    assert_eq!(tops[1].product_id, c);
    assert_eq!(tops[1].total_quantity, 4);
    assert_eq!(tops[2].product_id, a);
    assert_eq!(tops[2].total_quantity, 3);
    assert_eq!(tops[2].total_revenue, 300);

    let top_one = st.get_top_products(0, 100, Some(1)).unwrap();
    assert_eq!(top_one.len(), 1);
    assert_eq!(top_one[0].product_id, b);

    // a cancelled sale no longer counts
    st.cancel_sale(1, 20).unwrap();
    let tops = st.get_top_products(0, 100, None).unwrap();
    assert_eq!(tops.len(), 2);
    assert_eq!(tops[0].product_id, c);
}

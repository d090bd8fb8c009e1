use pos_engine::store::Store;
use pos_engine::errors::PosError;
use pos_engine::product::CreateProductRequest;
use pos_engine::user::CreateUserRequest;
use pos_engine::cash_register::{
    OpenCashRegisterRequest, CloseCashRegisterRequest, SessionStatus, DateRangeRequest,
};
use pos_engine::sale::{CreateSaleRequest, CreateSaleItemRequest};
use pos_engine::inventory::CreateInventoryAdjustmentRequest;

fn new_store_with_user() -> Store {
    let mut st = Store::new();
    let user = CreateUserRequest {
        username: "cashier1".to_string(),
        password: "hash-of-password".to_string(),
        full_name: "Test Cashier".to_string(),
        role: "cashier".to_string(),
    };
    st.create_user(&user, 1).unwrap();
    st
}

fn add_product(st: &mut Store, name: &str, price: u64, stock: u64) -> u64 {
    let req = CreateProductRequest {
        name: name.to_string(),
        description: None,
        barcode: None,
        price,
        unit: "piece".to_string(),
        category_id: None,
        stock: Some(stock),
        min_stock: None,
    };
    st.create_product(&req, 1).unwrap().id
}

fn open_request(opening: u64) -> OpenCashRegisterRequest {
    OpenCashRegisterRequest { user_id: 1, opening_amount: opening, exchange_rate: None }
}

#[test]
fn only_one_session_may_be_open() {
    let mut st = new_store_with_user();
    let s = st.open_cash_register(&open_request(5000), 2).unwrap();
    assert!(matches!(s.status, SessionStatus::Open));

    let r = st.open_cash_register(&open_request(100), 3);
    assert_eq!(r.unwrap_err(), PosError::SessionAlreadyOpen);

    st.close_cash_register(
        &CloseCashRegisterRequest { session_id: s.id, closing_amount: 5000 },
        4,
    )
    .unwrap();
    let again = st.open_cash_register(&open_request(100), 5).unwrap();
    assert!(matches!(again.status, SessionStatus::Open));
    assert_ne!(again.id, s.id);
}

#[test]
fn full_register_day_reconciles_to_zero() {
    // open with 100.00; sell 10.00 x 2 paid with 20.00; close with 120.00
    let mut st = new_store_with_user();
    let item = add_product(&mut st, "widget", 1000, 10);
    let session = st.open_cash_register(&open_request(10000), 2).unwrap();

    let sale = st
        .create_sale(
            &CreateSaleRequest {
                cash_register_session_id: session.id,
                user_id: 1,
                payment_method: "cash".to_string(),
                payment_amount: 2000,
                items: vec![CreateSaleItemRequest { product_id: item, quantity: 2 }],
            },
            3,
        )
        .unwrap();
    assert_eq!(sale.change_amount, 0);
    assert_eq!(st.get_product(item).unwrap().stock, 8);

    let summary = st
        .close_cash_register(
            &CloseCashRegisterRequest { session_id: session.id, closing_amount: 12000 },
            4,
        )
        .unwrap();
    assert_eq!(summary.total_sales, 2000);
    assert_eq!(summary.total_transactions, 1);
    assert_eq!(summary.expected_cash, 12000);
    assert_eq!(summary.difference, 0);
    assert!(matches!(summary.session.status, SessionStatus::Closed));
    assert_eq!(summary.session.closing_amount, Some(12000));
}

#[test]
fn closing_twice_or_closing_nothing_fails() {
    let mut st = new_store_with_user();
    let r = st.close_cash_register(&CloseCashRegisterRequest { session_id: 9, closing_amount: 0 }, 2);
    assert_eq!(r.unwrap_err(), PosError::NotFound);

    let s = st.open_cash_register(&open_request(100), 2).unwrap();
    st.close_cash_register(&CloseCashRegisterRequest { session_id: s.id, closing_amount: 40 }, 3)
        .unwrap();
    let r = st.close_cash_register(&CloseCashRegisterRequest { session_id: s.id, closing_amount: 40 }, 4);
    assert_eq!(r.unwrap_err(), PosError::SessionAlreadyClosed);
}

#[test]
fn summary_of_missing_cash_is_negative() {
    let mut st = new_store_with_user();
    let s = st.open_cash_register(&open_request(10000), 2).unwrap();
    let summary = st
        .close_cash_register(&CloseCashRegisterRequest { session_id: s.id, closing_amount: 9000 }, 3)
        .unwrap();
    assert_eq!(summary.expected_cash, 10000);
    assert_eq!(summary.difference, -1000);
}

#[test]
fn summary_can_be_recomputed_without_mutation() {
    let mut st = new_store_with_user();
    let item = add_product(&mut st, "widget", 500, 10);
    let s = st.open_cash_register(&open_request(1000), 2).unwrap();
    st.create_sale(
        &CreateSaleRequest {
            cash_register_session_id: s.id,
            user_id: 1,
            payment_method: "cash".to_string(),
            payment_amount: 500,
            items: vec![CreateSaleItemRequest { product_id: item, quantity: 1 }],
        },
        3,
    )
    .unwrap();

    // open session: closing treated as zero
    let open_summary = st.get_cash_register_summary(s.id).unwrap();
    assert_eq!(open_summary.total_sales, 500);
    assert_eq!(open_summary.expected_cash, 1500);
    assert_eq!(open_summary.total_cash, 0);
    assert_eq!(open_summary.difference, -1500);

    st.close_cash_register(&CloseCashRegisterRequest { session_id: s.id, closing_amount: 1500 }, 4)
        .unwrap();
    let closed_summary = st.get_cash_register_summary(s.id).unwrap();
    assert_eq!(closed_summary.difference, 0);
    assert_eq!(st.get_cash_register_summary(77).unwrap_err(), PosError::NotFound);
}

#[test]
fn session_queries_work() {
    let mut st = new_store_with_user();
    let s1 = st.open_cash_register(&open_request(100), 10).unwrap();
    st.close_cash_register(&CloseCashRegisterRequest { session_id: s1.id, closing_amount: 90 }, 20)
        .unwrap();
    let s2 = st.open_cash_register(&open_request(200), 30).unwrap();

    assert_eq!(st.get_cash_register_sessions().len(), 2);
    assert_eq!(st.get_cash_register_session(s1.id).unwrap().opening_amount, 100);
    assert_eq!(st.get_cash_register_session(99).unwrap_err(), PosError::NotFound);

    let open = st.get_open_cash_register().unwrap();
    assert_eq!(open.id, s2.id);
    let by_user = st.get_open_cash_register_by_user(1).unwrap();
    assert_eq!(by_user.id, s2.id);
    assert!(st.get_open_cash_register_by_user(2).is_none());

    let in_range = st.get_cash_register_sessions_by_date_range(&DateRangeRequest {
        start_date: 5,
        end_date: 25,
    });
    assert_eq!(in_range.len(), 1);
    assert_eq!(in_range[0].id, s1.id);

    // the session list reads newest first
    let all = st.get_cash_register_sessions();
    assert_eq!(all[0].id, s2.id);
    assert_eq!(all[1].id, s1.id);
}

#[test]
fn adjustments_add_positive_and_negative() {
    let mut st = new_store_with_user();
    let item = add_product(&mut st, "widget", 500, 10);

    let add = st
        .create_inventory_adjustment(
            &CreateInventoryAdjustmentRequest {
                product_id: item,
                user_id: 1,
                adjustment_type: "add".to_string(),
                quantity: 5,
                reason: Some("restock".to_string()),
            },
            3,
        )
        .unwrap();
    assert_eq!(add.previous_stock, 10);
    assert_eq!(add.new_stock, 15);
    assert_eq!(st.get_product(item).unwrap().stock, 15);

    let positive = st
        .create_inventory_adjustment(
            &CreateInventoryAdjustmentRequest {
                product_id: item,
                user_id: 1,
                adjustment_type: "positive".to_string(),
                quantity: 1,
                reason: None,
            },
            4,
        )
        .unwrap();
    assert_eq!(positive.new_stock, 16);

    let negative = st
        .create_inventory_adjustment(
            &CreateInventoryAdjustmentRequest {
                product_id: item,
                user_id: 1,
                adjustment_type: "negative".to_string(),
                quantity: 6,
                reason: None,
            },
            5,
        )
        .unwrap();
    assert_eq!(negative.previous_stock, 16);
    assert_eq!(negative.new_stock, 10);
    assert_eq!(st.get_product(item).unwrap().stock, 10);
    assert_eq!(st.get_inventory_adjustments().len(), 3);
}

#[test]
fn negative_adjustment_past_stock_changes_nothing() {
    let mut st = new_store_with_user();
    let item = add_product(&mut st, "widget", 500, 4);

    let r = st.create_inventory_adjustment(
        &CreateInventoryAdjustmentRequest {
            product_id: item,
            user_id: 1,
            adjustment_type: "negative".to_string(),
            quantity: 5,
            reason: None,
        },
        3,
    );
    assert_eq!(r.unwrap_err(), PosError::InsufficientStock);
    // no stock change and no audit row
    assert_eq!(st.get_product(item).unwrap().stock, 4);
    assert!(st.get_inventory_adjustments().is_empty());
}

#[test]
fn unknown_adjustment_type_is_refused() {
    let mut st = new_store_with_user();
    let item = add_product(&mut st, "widget", 500, 4);
    let r = st.create_inventory_adjustment(
        &CreateInventoryAdjustmentRequest {
            product_id: item,
            user_id: 1,
            adjustment_type: "subtract".to_string(),
            quantity: 1,
            reason: None,
        },
        3,
    );
    assert_eq!(r.unwrap_err(), PosError::InvalidAdjustmentType);

    let r = st.create_inventory_adjustment(
        &CreateInventoryAdjustmentRequest {
            product_id: 77,
            user_id: 1,
            adjustment_type: "add".to_string(),
            quantity: 1,
            reason: None,
        },
        3,
    );
    assert_eq!(r.unwrap_err(), PosError::NotFound);
}

#[test]
fn adjustment_queries_filter_by_product_and_date() {
    let mut st = new_store_with_user();
    let a = add_product(&mut st, "a", 500, 10);
    let b = add_product(&mut st, "b", 500, 10);
    for (pid, when) in [(a, 10u64), (b, 20u64), (a, 30u64)] {
        st.create_inventory_adjustment(
            &CreateInventoryAdjustmentRequest {
                product_id: pid,
                user_id: 1,
                adjustment_type: "add".to_string(),
                quantity: 1,
                reason: None,
            },
            when,
        )
        .unwrap();
    }
    assert_eq!(st.get_inventory_adjustments_by_product(a).len(), 2);
    assert_eq!(st.get_inventory_adjustments_by_product(b).len(), 1);
    // newest first, as the audit views list them
    assert_eq!(st.get_inventory_adjustments()[0].created_at, 30);
    assert_eq!(st.get_inventory_adjustments_by_product(a)[0].created_at, 30);
    let range = pos_engine::inventory::GetInventoryAdjustmentsByDateRangeRequest {
        start_date: 15,
        end_date: 35,
    };
    assert_eq!(st.get_inventory_adjustments_by_date_range(&range).len(), 2);
}

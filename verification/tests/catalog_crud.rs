use pos_engine::store::Store;
use pos_engine::errors::PosError;
use pos_engine::product::{CreateProductRequest, UpdateProductRequest};
use pos_engine::category::{CreateCategoryRequest, UpdateCategoryRequest};
use pos_engine::user::{CreateUserRequest, UpdateUserRequest};
use pos_engine::cash_register::OpenCashRegisterRequest;
use pos_engine::sale::{CreateSaleRequest, CreateSaleItemRequest};

fn product_request(name: &str, barcode: Option<&str>, price: u64, stock: u64) -> CreateProductRequest {
    CreateProductRequest {
        name: name.to_string(),
        description: None,
        barcode: barcode.map(|b| b.to_string()),
        price,
        unit: "piece".to_string(),
        category_id: None,
        stock: Some(stock),
        min_stock: None,
    }
}

fn user_request(username: &str, role: &str) -> CreateUserRequest {
    CreateUserRequest {
        username: username.to_string(),
        password: "hash".to_string(),
        full_name: "Someone".to_string(),
        role: role.to_string(),
    }
}

#[test]
fn product_defaults_and_lookup() {
    let mut st = Store::new();
    let p = st.create_product(&product_request("soap", Some("750123"), 350, 0), 9).unwrap();
    assert_eq!(p.id, 1);
    assert!(p.active);
    assert_eq!(p.stock, 0);
    assert_eq!(p.min_stock, 0);
    assert_eq!(p.created_at, 9);
    assert_eq!(st.get_products().len(), 1);
    assert_eq!(st.get_product(1).unwrap().name, "soap");
    assert_eq!(st.get_product(2).unwrap_err(), PosError::NotFound);
    let found = st.find_product_by_barcode(&"750123".to_string()).unwrap();
    assert_eq!(found.id, 1);
    assert_eq!(
        st.find_product_by_barcode(&"000".to_string()).unwrap_err(),
        PosError::NotFound
    );
}

#[test]
fn duplicate_barcode_is_refused() {
    let mut st = Store::new();
    st.create_product(&product_request("soap", Some("750123"), 350, 0), 1).unwrap();
    let r = st.create_product(&product_request("towel", Some("750123"), 100, 0), 2);
    assert_eq!(r.unwrap_err(), PosError::DuplicateKey);

    // a second product may take the barcode through update only if free
    let other = st.create_product(&product_request("towel", None, 100, 0), 3).unwrap();
    let update = UpdateProductRequest {
        id: other.id,
        name: None,
        description: None,
        barcode: Some("750123".to_string()),
        price: None,
        unit: None,
        category_id: None,
        min_stock: None,
        active: None,
    };
    assert_eq!(st.update_product(&update, 4).unwrap_err(), PosError::DuplicateKey);
}

#[test]
fn barcode_of_inactive_product_still_blocks_duplicates() {
    let mut st = Store::new();
    let held = st.create_product(&product_request("soap", Some("750123"), 350, 0), 1).unwrap();
    let off = UpdateProductRequest {
        id: held.id,
        name: None,
        description: None,
        barcode: None,
        price: None,
        unit: None,
        category_id: None,
        min_stock: None,
        active: Some(false),
    };
    st.update_product(&off, 2).unwrap();
    // the unique barcode column refuses the duplicate even though the
    // holder is deactivated
    let r = st.create_product(&product_request("towel", Some("750123"), 100, 0), 3);
    assert_eq!(r.unwrap_err(), PosError::DuplicateKey);
    // while the by-barcode lookup, which serves the till, sees only
    // active products
    assert_eq!(
        st.find_product_by_barcode(&"750123".to_string()).unwrap_err(),
        PosError::NotFound
    );
}

#[test]
fn products_and_categories_come_back_sorted_by_name() {
    let mut st = Store::new();
    st.create_product(&product_request("pear", None, 100, 1), 1).unwrap();
    st.create_product(&product_request("apple", None, 100, 1), 2).unwrap();
    st.create_product(&product_request("mango", None, 100, 1), 3).unwrap();
    let names: Vec<String> = st.get_products().into_iter().map(|p| p.name).collect();
    assert_eq!(names, vec!["apple".to_string(), "mango".to_string(), "pear".to_string()]);
    let active: Vec<String> = st.get_active_products().into_iter().map(|p| p.name).collect();
    assert_eq!(active, vec!["apple".to_string(), "mango".to_string(), "pear".to_string()]);

    st.create_category(&CreateCategoryRequest { name: "drinks".to_string(), description: None }, 4)
        .unwrap();
    st.create_category(&CreateCategoryRequest { name: "bread".to_string(), description: None }, 5)
        .unwrap();
    let cats: Vec<String> = st.get_categories().into_iter().map(|c| c.name).collect();
    assert_eq!(cats, vec!["bread".to_string(), "drinks".to_string()]);
}

#[test]
fn update_product_changes_only_requested_fields() {
    let mut st = Store::new();
    let p = st.create_product(&product_request("soap", None, 350, 7), 1).unwrap();
    let update = UpdateProductRequest {
        id: p.id,
        name: Some("bar soap".to_string()),
        description: None,
        barcode: None,
        price: Some(400),
        unit: None,
        category_id: None,
        min_stock: Some(2),
        active: None,
    };
    let np = st.update_product(&update, 5).unwrap();
    assert_eq!(np.name, "bar soap");
    assert_eq!(np.price, 400);
    assert_eq!(np.min_stock, 2);
    assert_eq!(np.stock, 7);
    assert_eq!(np.unit, "piece");
    assert_eq!(np.updated_at, 5);

    let inactive = UpdateProductRequest {
        id: p.id,
        name: None,
        description: None,
        barcode: None,
        price: None,
        unit: None,
        category_id: None,
        min_stock: None,
        active: Some(false),
    };
    st.update_product(&inactive, 6).unwrap();
    assert_eq!(st.get_active_products().len(), 0);
    assert_eq!(st.get_products().len(), 1);
}

#[test]
fn update_stock_sets_an_absolute_value() {
    let mut st = Store::new();
    let p = st.create_product(&product_request("soap", None, 350, 7), 1).unwrap();
    st.update_product_stock(p.id, 42, 2).unwrap();
    assert_eq!(st.get_product(p.id).unwrap().stock, 42);
    // an unknown id is silently left alone
    st.update_product_stock(99, 5, 3).unwrap();
    assert_eq!(st.get_products().len(), 1);
}

#[test]
fn referenced_product_cannot_be_deleted() {
    let mut st = Store::new();
    st.create_user(&user_request("u", "admin"), 1).unwrap();
    let p = st.create_product(&product_request("soap", None, 350, 7), 1).unwrap();
    st.open_cash_register(
        &OpenCashRegisterRequest { user_id: 1, opening_amount: 0, exchange_rate: None },
        2,
    )
    .unwrap();
    st.create_sale(
        &CreateSaleRequest {
            cash_register_session_id: 1,
            user_id: 1,
            payment_method: "cash".to_string(),
            payment_amount: 350,
            items: vec![CreateSaleItemRequest { product_id: p.id, quantity: 1 }],
        },
        3,
    )
    .unwrap();
    assert_eq!(st.delete_product(p.id).unwrap_err(), PosError::ReferencedEntity);

    let free = st.create_product(&product_request("towel", None, 100, 0), 4).unwrap();
    st.delete_product(free.id).unwrap();
    assert_eq!(st.get_products().len(), 1);
    st.delete_product(99).unwrap(); // deleting nothing is a no-op
}

#[test]
fn category_crud_and_name_conflicts() {
    let mut st = Store::new();
    let c = st
        .create_category(&CreateCategoryRequest { name: "drinks".to_string(), description: None }, 1)
        .unwrap();
    assert_eq!(c.id, 1);
    let r = st.create_category(&CreateCategoryRequest { name: "drinks".to_string(), description: None }, 2);
    assert_eq!(r.unwrap_err(), PosError::DuplicateKey);

    let c2 = st
        .create_category(&CreateCategoryRequest { name: "food".to_string(), description: None }, 3)
        .unwrap();
    let rename = UpdateCategoryRequest { id: c2.id, name: Some("drinks".to_string()), description: None };
    assert_eq!(st.update_category(&rename, 4).unwrap_err(), PosError::DuplicateKey);
    let rename = UpdateCategoryRequest { id: c2.id, name: Some("meals".to_string()), description: None };
    assert_eq!(st.update_category(&rename, 5).unwrap().name, "meals");
    assert_eq!(st.get_categories().len(), 2);
    assert_eq!(st.get_category(1).unwrap().name, "drinks");
    assert_eq!(st.get_category(9).unwrap_err(), PosError::NotFound);
}

#[test]
fn deleting_a_category_clears_product_references() {
    let mut st = Store::new();
    let c = st
        .create_category(&CreateCategoryRequest { name: "drinks".to_string(), description: None }, 1)
        .unwrap();
    let mut req = product_request("cola", None, 100, 5);
    req.category_id = Some(c.id);
    let p = st.create_product(&req, 2).unwrap();
    assert_eq!(p.category_id, Some(c.id));

    st.delete_category(c.id).unwrap();
    assert_eq!(st.get_product(p.id).unwrap().category_id, None);
    assert!(st.get_categories().is_empty());
}

#[test]
fn product_with_unknown_category_is_refused() {
    let mut st = Store::new();
    let mut req = product_request("cola", None, 100, 5);
    req.category_id = Some(8);
    assert_eq!(st.create_product(&req, 1).unwrap_err(), PosError::NotFound);
}

#[test]
fn user_roles_and_username_conflicts() {
    let mut st = Store::new();
    assert_eq!(st.create_user(&user_request("root", "boss"), 1).unwrap_err(), PosError::InvalidRole);
    let u = st.create_user(&user_request("root", "admin"), 1).unwrap();
    assert!(u.active);
    assert_eq!(st.create_user(&user_request("root", "cashier"), 2).unwrap_err(), PosError::DuplicateKey);

    let u2 = st.create_user(&user_request("ana", "cashier"), 3).unwrap();
    let bad = UpdateUserRequest {
        id: u2.id,
        username: None,
        password: None,
        full_name: None,
        role: Some("boss".to_string()),
        active: None,
    };
    assert_eq!(st.update_user(&bad, 4).unwrap_err(), PosError::InvalidRole);
    let steal = UpdateUserRequest {
        id: u2.id,
        username: Some("root".to_string()),
        password: None,
        full_name: None,
        role: None,
        active: None,
    };
    assert_eq!(st.update_user(&steal, 5).unwrap_err(), PosError::DuplicateKey);
    let rename = UpdateUserRequest {
        id: u2.id,
        username: Some("ana2".to_string()),
        password: None,
        full_name: Some("Ana Two".to_string()),
        role: None,
        active: None,
    };
    let nu = st.update_user(&rename, 6).unwrap();
    assert_eq!(nu.username, "ana2");
    assert_eq!(nu.full_name, "Ana Two");
    assert_eq!(st.get_users().len(), 2);
    assert_eq!(st.get_user(u.id).unwrap().username, "root");
    assert_eq!(st.get_user(42).unwrap_err(), PosError::NotFound);
}

#[test]
fn find_by_username_hands_back_the_stored_hash() {
    let mut st = Store::new();
    st.create_user(&user_request("root", "admin"), 1).unwrap();
    let (user, hash) = st.find_by_username(&"root".to_string()).unwrap();
    assert_eq!(user.username, "root");
    assert_eq!(hash, "hash");
    assert!(st.find_by_username(&"ghost".to_string()).is_none());
}

#[test]
fn referenced_user_cannot_be_deleted() {
    let mut st = Store::new();
    st.create_user(&user_request("root", "admin"), 1).unwrap();
    st.open_cash_register(
        &OpenCashRegisterRequest { user_id: 1, opening_amount: 0, exchange_rate: None },
        2,
    )
    .unwrap();
    assert_eq!(st.delete_user(1).unwrap_err(), PosError::ReferencedEntity);

    let other = st.create_user(&user_request("temp", "cashier"), 3).unwrap();
    st.delete_user(other.id).unwrap();
    assert_eq!(st.get_users().len(), 1);
    st.delete_user(42).unwrap();
}

#[test]
fn search_matches_name_or_barcode_of_active_products() {
    let mut st = Store::new();
    st.create_product(&product_request("green apple", Some("111222"), 100, 5), 1).unwrap();
    st.create_product(&product_request("pineapple", None, 100, 5), 2).unwrap();
    st.create_product(&product_request("banana", Some("333111"), 100, 5), 3).unwrap();
    let hidden = st.create_product(&product_request("apple pie", None, 100, 5), 4).unwrap();
    let off = UpdateProductRequest {
        id: hidden.id,
        name: None,
        description: None,
        barcode: None,
        price: None,
        unit: None,
        category_id: None,
        min_stock: None,
        active: Some(false),
    };
    st.update_product(&off, 5).unwrap();

    let by_name = st.search_products(&"apple".to_string());
    assert_eq!(by_name.len(), 2); // the inactive pie is filtered out
    assert_eq!(by_name[0].name, "green apple");
    assert_eq!(by_name[1].name, "pineapple");

    // matching folds ASCII case, as the schema's pattern matching does
    let shouting = st.search_products(&"APPLE".to_string());
    assert_eq!(shouting.len(), 2);
    assert_eq!(shouting[0].name, "green apple");

    // results come back sorted by name
    let by_code = st.search_products(&"111".to_string());
    assert_eq!(by_code.len(), 2);
    assert_eq!(by_code[0].name, "banana");
    assert_eq!(by_code[1].name, "green apple");

    assert!(st.search_products(&"zzz".to_string()).is_empty());
    assert_eq!(st.search_products(&"".to_string()).len(), 3);
}

#[test]
fn amounts_past_the_machine_limit_are_refused() {
    let mut st = Store::new();
    let r = st.create_product(&product_request("gold", None, u64::MAX, 1), 1);
    assert_eq!(r.unwrap_err(), PosError::LimitExceeded);
    let p = st.create_product(&product_request("gold", None, 100, 1), 2).unwrap();
    assert_eq!(st.update_product_stock(p.id, u64::MAX, 3).unwrap_err(), PosError::LimitExceeded);
    st.create_user(&user_request("root", "admin"), 4).unwrap();
    let r = st.open_cash_register(
        &OpenCashRegisterRequest { user_id: 1, opening_amount: u64::MAX, exchange_rate: None },
        5,
    );
    assert_eq!(r.unwrap_err(), PosError::LimitExceeded);
}

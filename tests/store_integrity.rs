use migrator::{seed_customers, seed_products, InsertError, NewOrder, Store};

fn order(customer_id: Option<i64>, product_id: Option<i64>) -> NewOrder {
    NewOrder {
        customer_id,
        product_id,
        quantity: Some(3),
        order_date: Some("2024-05-01".to_string()),
        completion_date: None,
        status: Some("new".to_string()),
        notes: None,
    }
}

#[test]
fn order_with_missing_product_is_rejected() {
    let mut s = Store::new();
    let c = s.insert_customer("Сколково".to_string()).unwrap();
    assert_eq!(s.insert_order(order(Some(c), Some(42))), Err(InsertError::ForeignKeyViolation));
    assert!(s.orders().is_empty());
}

#[test]
fn order_with_missing_customer_is_rejected() {
    let mut s = Store::new();
    let p = s.insert_product("Брус".to_string()).unwrap();
    assert_eq!(s.insert_order(order(Some(7), Some(p))), Err(InsertError::ForeignKeyViolation));
}

#[test]
fn order_with_existing_references_succeeds() {
    let mut s = Store::new();
    let c = s.insert_customer("Мэрия Москвы".to_string()).unwrap();
    let p = s.insert_product("Рейки".to_string()).unwrap();
    assert_eq!(s.insert_order(order(Some(c), Some(p))), Ok(1));
    assert_eq!(s.insert_order(order(None, None)), Ok(2));
    assert_eq!(s.orders().len(), 2);
    assert_eq!(s.orders()[0].fields.product_id, Some(p));
    assert_eq!(s.orders()[0].fields.status.as_deref(), Some("new"));
}

#[test]
fn duplicate_product_name_is_rejected() {
    let mut s = Store::new();
    assert_eq!(s.insert_product("Брус".to_string()), Ok(1));
    assert_eq!(s.insert_product("Брус".to_string()), Err(InsertError::UniqueViolation));
    assert_eq!(s.products().len(), 1);
    // a refused insert does not use up an id
    assert_eq!(s.insert_product("Рейки".to_string()), Ok(2));
}

#[test]
fn duplicate_customer_name_is_accepted() {
    let mut s = Store::new();
    assert_eq!(s.insert_customer("Сколково".to_string()), Ok(1));
    assert_eq!(s.insert_customer("Сколково".to_string()), Ok(2));
    assert!(s.has_customer_named(&"Сколково".to_string()));
    assert!(!s.has_customer_named(&"Брус".to_string()));
    assert_eq!(s.customers().len(), 2);
    assert_eq!(s.customers()[1].name, "Сколково");
}

#[test]
fn seed_rows_insert_once_and_rerun_is_ignored() {
    let mut s = Store::new();
    for (k, name) in seed_customers().into_iter().enumerate() {
        assert_eq!(s.insert_customer_or_ignore(name.to_string()), Ok(Some(k as i64 + 1)));
    }
    for (k, name) in seed_products().into_iter().enumerate() {
        assert_eq!(s.insert_product_or_ignore(name.to_string()), Ok(Some(k as i64 + 1)));
    }
    assert_eq!(s.customers().len(), 2);
    assert_eq!(s.products().len(), 6);
    for name in seed_products() {
        assert_eq!(s.insert_product_or_ignore(name.to_string()), Ok(None));
    }
    assert_eq!(s.products().len(), 6);
    for name in seed_customers() {
        assert_eq!(s.insert_customer_or_ignore(name.to_string()), Ok(None));
    }
    assert_eq!(s.customers().len(), 2);
    assert_eq!(s.customers()[0].name, "Мэрия Москвы");
    assert_eq!(s.customers()[1].name, "Сколково");
    for name in seed_products() {
        assert_eq!(s.insert_product(name.to_string()), Err(InsertError::UniqueViolation));
    }
}

#[test]
fn lookups_by_id_and_name() {
    let mut s = Store::new();
    s.insert_product("Пеллеты".to_string()).unwrap();
    s.insert_customer("Сколково".to_string()).unwrap();
    assert!(s.has_product(1));
    assert!(!s.has_product(2));
    assert!(s.has_customer(1));
    assert!(!s.has_customer(0));
    assert!(s.has_product_named(&"Пеллеты".to_string()));
    assert!(!s.has_product_named(&"Брус".to_string()));
}

#[test]
fn orders_are_found_by_customer_and_product() {
    let mut s = Store::new();
    let a = s.insert_customer("a".to_string()).unwrap();
    let b = s.insert_customer("b".to_string()).unwrap();
    let p = s.insert_product("p".to_string()).unwrap();
    let q = s.insert_product("q".to_string()).unwrap();
    s.insert_order(order(Some(a), Some(p))).unwrap();
    s.insert_order(order(Some(b), Some(p))).unwrap();
    s.insert_order(order(Some(a), Some(q))).unwrap();
    s.insert_order(order(None, Some(q))).unwrap();
    assert_eq!(s.orders_for_customer(a), vec![1, 3]);
    assert_eq!(s.orders_for_customer(b), vec![2]);
    assert_eq!(s.orders_for_product(p), vec![1, 2]);
    assert_eq!(s.orders_for_product(q), vec![3, 4]);
    assert!(s.orders_for_customer(99).is_empty());
}

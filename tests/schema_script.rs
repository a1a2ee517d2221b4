use migrator::{migrations, seed_customers, seed_products, MigrationKind, CREATE_INITIAL_TABLES, DATABASE_URL};

fn table_body<'a>(sql: &'a str, table: &str) -> &'a str {
    let head = format!("CREATE TABLE IF NOT EXISTS {} (", table);
    let start = sql.find(&head).expect("table missing") + head.len();
    let end = start + sql[start..].find(");").expect("unterminated table");
    &sql[start..end]
}

#[test]
fn migration_list_holds_the_initial_tables() {
    let ms = migrations();
    assert_eq!(ms.len(), 1);
    assert_eq!(ms[0].version, 1);
    assert_eq!(ms[0].description, "create initial tables");
    assert_eq!(ms[0].kind, MigrationKind::Up);
    assert_eq!(ms[0].sql, CREATE_INITIAL_TABLES);
    assert_eq!(DATABASE_URL, "sqlite:database.db");
}

#[test]
fn script_creates_exactly_three_tables() {
    let names: Vec<&str> = CREATE_INITIAL_TABLES
        .split("CREATE TABLE IF NOT EXISTS ")
        .skip(1)
        .map(|s| s.split_whitespace().next().unwrap())
        .collect();
    assert_eq!(names, vec!["products", "customers", "orders"]);
}

#[test]
fn script_declares_columns_and_constraints() {
    let products = table_body(CREATE_INITIAL_TABLES, "products");
    assert!(products.contains("id INTEGER PRIMARY KEY AUTOINCREMENT"));
    assert!(products.contains("name TEXT UNIQUE NOT NULL"));

    let customers = table_body(CREATE_INITIAL_TABLES, "customers");
    assert!(customers.contains("id INTEGER PRIMARY KEY AUTOINCREMENT"));
    assert!(customers.contains("name TEXT NOT NULL"));
    assert!(!customers.contains("UNIQUE"));

    let orders = table_body(CREATE_INITIAL_TABLES, "orders");
    for col in [
        "id INTEGER PRIMARY KEY AUTOINCREMENT",
        "customer_id INTEGER",
        "product_id INTEGER",
        "quantity INTEGER",
        "order_date TEXT",
        "completion_date TEXT",
        "status TEXT",
        "notes TEXT",
        "FOREIGN KEY (customer_id) REFERENCES customers(id)",
        "FOREIGN KEY (product_id) REFERENCES products(id)",
    ] {
        assert!(orders.contains(col), "missing {}", col);
    }
}

#[test]
fn seed_lists() {
    assert_eq!(seed_customers(), vec!["Мэрия Москвы", "Сколково"]);
    let products = seed_products();
    assert_eq!(products.len(), 6);
    assert_eq!(products[0], "Сырые пиломатериалы");
    assert_eq!(products[5], "Пеллеты");
}

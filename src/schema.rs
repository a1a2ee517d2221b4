use vstd::prelude::*;
use crate::migration::{Migration, MigrationKind, versions, valid_versions};

verus! {

/// The store that the application opens, relative to its data directory.
pub const DATABASE_URL: &'static str = "sqlite:database.db";

/// Version 1: products, customers and orders. Every table is created with
/// `IF NOT EXISTS`, so the script can run again over tables that already
/// exist without error.
pub const CREATE_INITIAL_TABLES: &'static str = r#"
CREATE TABLE IF NOT EXISTS products (
  id INTEGER PRIMARY KEY AUTOINCREMENT,
  name TEXT UNIQUE NOT NULL
);

CREATE TABLE IF NOT EXISTS customers (
  id INTEGER PRIMARY KEY AUTOINCREMENT,
  name TEXT NOT NULL
);

CREATE TABLE IF NOT EXISTS orders (
  id INTEGER PRIMARY KEY AUTOINCREMENT,
  customer_id INTEGER,
  product_id INTEGER,
  quantity INTEGER,
  order_date TEXT,
  completion_date TEXT,
  status TEXT,
  notes TEXT,
  FOREIGN KEY (customer_id) REFERENCES customers(id),
  FOREIGN KEY (product_id) REFERENCES products(id)
);
"#;

/// Sample customers that a store may be seeded with.
pub fn seed_customers() -> (r: Vec<&'static str>)
    ensures
        r@ == seq!["Мэрия Москвы", "Сколково"],
{
    vec!["Мэрия Москвы", "Сколково"]
}

/// Sample products that a store may be seeded with.
pub fn seed_products() -> (r: Vec<&'static str>)
    ensures
        r@ == seq![
            "Сырые пиломатериалы",
            "Сухие пиломатериалы",
            "Строганные доски",
            "Рейки",
            "Брус",
            "Пеллеты",
        ],
{
    vec![
        "Сырые пиломатериалы",
        "Сухие пиломатериалы",
        "Строганные доски",
        "Рейки",
        "Брус",
        "Пеллеты",
    ]
}

/// The application's migration list, in ascending version order.
pub fn migrations() -> (r: Vec<Migration>)
    ensures
        r@.len() == 1,
        r@[0].version == 1,
        r@[0].description == "create initial tables",
        r@[0].sql == CREATE_INITIAL_TABLES,
        r@[0].kind == MigrationKind::Up,
        valid_versions(versions(r@)),
{
    let r = vec![
        Migration {
            version: 1,
            description: "create initial tables",
            sql: CREATE_INITIAL_TABLES,
            kind: MigrationKind::Up,
        },
    ];
    assert(versions(r@)[0] == 1);
    r
}

} // verus!

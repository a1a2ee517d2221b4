//! Schema and start-up migrations of a small order-keeping application:
//! the migration list and its checks, the decisions of a migration run, and an
//! in-memory store that enforces the schema's constraints.

pub mod migration;
pub mod migrator;
pub mod schema;
pub mod store;

pub use migration::{Migration, MigrationKind, MigrateError, validate_migrations};
pub use migrator::{Action, Event, Migrator, Phase};
pub use schema::{CREATE_INITIAL_TABLES, DATABASE_URL, migrations, seed_customers, seed_products};
pub use store::{Customer, InsertError, NewOrder, Order, Product, Store};

//! Transparent JSON wrappers for database columns.
pub mod array;
pub mod sqlx;

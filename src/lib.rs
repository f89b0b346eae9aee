//! A fixed set of restaurant tables, each holding an ordered list of ordered
//! menu items, shared by many concurrent callers with one lock per table, and
//! the checks that gate every request before it reaches the tables.
pub mod item;
pub mod store;
pub mod table;
pub mod validate;

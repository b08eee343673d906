//! A verified model of a key-value table store.
//!
//! The library models the five operations a table-store client exercises —
//! list tables, put, get, update and delete — over items made of tagged
//! attribute values. Each operation carries a contract that pins down, over
//! mathematical maps, exactly which rows the store holds afterwards and on
//! which inputs a validation error comes back.

pub mod attr;
pub mod item;
pub mod laws;
pub mod store;
pub mod table;
pub mod users;

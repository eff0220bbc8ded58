//! An in-memory hash table with separate chaining: string keys, a row of
//! slots, and values of one type or, type-erased, of several.

pub mod bucket;
pub mod hashing;
pub mod node;
pub mod pobj;
pub mod slots;
pub mod table;
pub mod traits;

//! Storage functionality for a beacon node.
//!
//! - `KeyValueStore`: what a store of bytes does, in columns and under keys.
//! - `ItemStore`: the same for items, which are serialized to bytes.
//! - `MemoryStore`: an in-memory store. Used for testing.
//!
//! What holds of all stores and items is stated and proved in `laws`, and how calls and their results
//! relate in `calls`.
pub mod bytes;
pub mod calls;
pub mod column;
pub mod errors;
pub mod hash;
pub mod item;
pub mod item_store;
pub mod keys;
pub mod kv;
pub mod laws;
pub mod memory_store;
pub mod ops;
mod table;

pub use crate::column::{DBColumn, ParseError};
pub use crate::errors::Error;
pub use crate::hash::Hash256;
pub use crate::item::StoreItem;
pub use crate::item_store::ItemStore;
pub use crate::keys::{get_col_from_key, get_key_for_col, Key};
pub use crate::kv::{ColumnIter, ColumnKeyIter, KeyValueStore, RawEntryIter, RawKeyIter};
pub use crate::memory_store::MemoryStore;
pub use crate::ops::{DatabaseBlock, EthSpec, KeyValueStoreOp, Slot, StoreOp};

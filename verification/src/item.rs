//! Items that can be stored.
use vstd::prelude::*;

use crate::column::DBColumn;
use crate::errors::Error;
use crate::hash::Hash256;
use crate::keys::{db_key, get_key_for_col};
use crate::ops::KeyValueStoreOp;

verus! {

/// An item that may be stored in a `Store` by serializing and deserializing from bytes.
///
/// The specification functions have bodies for the sake of implementations outside verified code,
/// which leave them out; a verified implementation gives its own.
pub trait StoreItem: Sized {
    /// The column in which items of this kind are placed.
    open spec fn column() -> DBColumn {
        arbitrary()
    }

    /// The bytes that stand for `self` in the database.
    open spec fn encoding(&self) -> Seq<u8> {
        arbitrary()
    }

    /// Whether `r` is the outcome of reading an item of this kind from `bytes`.
    open spec fn decodes_as(bytes: Seq<u8>, r: Result<Self, Error>) -> bool {
        true
    }

    /// Identifies which column this item should be placed in.
    fn db_column() -> (r: DBColumn)
        ensures
            r == Self::column(),
    ;

    /// Serialize `self` as bytes.
    fn as_store_bytes(&self) -> (r: Vec<u8>)
        ensures
            r@ == self.encoding(),
    ;

    /// De-serialize `self` from bytes.
    fn from_store_bytes(bytes: &[u8]) -> (r: Result<Self, Error>)
        ensures
            Self::decodes_as(bytes@, r),
    ;

    /// The operation that stores `self` under `key`.
    fn as_kv_store_op(&self, key: Hash256) -> (r: KeyValueStoreOp)
        ensures
            r is PutKeyValue,
            r->PutKeyValue_0@ == db_key(Self::column().name(), key@),
            r->PutKeyValue_1@ == self.encoding(),
    {
        let column: &'static str = Self::db_column().into();
        let db_key = get_key_for_col(column, key.as_bytes());
        KeyValueStoreOp::PutKeyValue(db_key, self.as_store_bytes())
    }
}

/// The database key under which an item of the kind `I` is stored as `key`.
pub open spec fn item_key<I: StoreItem>(key: Seq<u8>) -> Seq<u8> {
    db_key(I::column().name(), key)
}

/// Whether `r` is the outcome of reading an item where the database holds `stored`.
pub open spec fn retrieves_as<I: StoreItem>(
    stored: Option<Seq<u8>>,
    r: Result<Option<I>, Error>,
) -> bool {
    match stored {
        None => r == Ok::<Option<I>, Error>(None),
        Some(bytes) => match r {
            Ok(Some(item)) => I::decodes_as(bytes, Ok(item)),
            Ok(None) => false,
            Err(error) => I::decodes_as(bytes, Err(error)),
        },
    }
}

/// The bytes of a value that was read, if there was one.
pub open spec fn bytes_read(value: Option<Vec<u8>>) -> Option<Seq<u8>> {
    match value {
        None => None,
        Some(bytes) => Some(bytes@),
    }
}

/// Whether `r` is what becomes of `read`, the outcome of a read of the database: a failed read stays
/// that failure, and a value that was read, or is missing, gives an item accordingly.
pub open spec fn handles_read<I: StoreItem>(
    read: Result<Option<Vec<u8>>, Error>,
    r: Result<Option<I>, Error>,
) -> bool {
    match read {
        Err(error) => r == Err::<Option<I>, Error>(error),
        Ok(value) => retrieves_as(bytes_read(value), r),
    }
}

/// The item that a read of the database gave: a failed read stays that failure, a missing value is
/// a missing item, and bytes are decoded.
pub fn retrieve_item<I: StoreItem>(read: Result<Option<Vec<u8>>, Error>) -> (r: Result<
    Option<I>,
    Error,
>)
    ensures
        handles_read(read, r),
{
    match read {
        Err(error) => Err(error),
        Ok(None) => Ok(None),
        Ok(Some(bytes)) => match I::from_store_bytes(bytes.as_slice()) {
            Ok(item) => Ok(Some(item)),
            Err(error) => Err(error),
        },
    }
}

} // verus!

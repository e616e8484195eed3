//! Stores of items.
use vstd::prelude::*;

use crate::errors::Error;
use crate::hash::Hash256;
use crate::item::{handles_read, item_key, retrieve_item, retrieves_as, StoreItem};
use crate::kv::{changes_one_entry, lookup, KeyValueStore, Operation};
use crate::ops::EthSpec;

verus! {

/// The write of `item` under `key`.
pub open spec fn put_operation<I: StoreItem>(key: Seq<u8>, item: &I) -> Operation {
    Operation::PutBytes { column: I::column().name(), key, value: item.encoding() }
}

/// The write of `item` under `key` with a flush.
pub open spec fn put_sync_operation<I: StoreItem>(key: Seq<u8>, item: &I) -> Operation {
    Operation::PutBytesSync { column: I::column().name(), key, value: item.encoding() }
}

/// The removal of the item of the kind `I` under `key`.
pub open spec fn delete_operation<I: StoreItem>(key: Seq<u8>) -> Operation {
    Operation::KeyDelete { column: I::column().name(), key }
}

/// A key-value store whose values are items, each in the column of its kind.
pub trait ItemStore<E: EthSpec>: KeyValueStore<E> + Sync + Send + Sized + 'static {
    /// Store an item in `Self`.
    fn put<I: StoreItem>(&mut self, key: &Hash256, item: &I) -> (r: Result<(), Error>)
        ensures
            changes_one_entry(
                old(self).contents(),
                old(self).contents().insert(item_key::<I>(key@), item.encoding()),
                final(self).contents(),
                r,
            ),
            final(self).history() == old(self).history().push((put_operation(key@, item), r)),
            Self::operation_gives(put_operation(key@, item), r),
            r matches Err(error) ==> Self::fails_with(error),
    {
        let column: &'static str = I::db_column().into();
        let key = key.as_bytes();

        self.put_bytes(column, key, item.as_store_bytes().as_slice())
    }

    /// Store an item in `Self` and flush the store to disk.
    fn put_sync<I: StoreItem>(&mut self, key: &Hash256, item: &I) -> (r: Result<(), Error>)
        ensures
            changes_one_entry(
                old(self).contents(),
                old(self).contents().insert(item_key::<I>(key@), item.encoding()),
                final(self).contents(),
                r,
            ),
            r is Ok ==> final(self).flushed() == final(self).contents(),
            final(self).history() == old(self).history().push((put_sync_operation(key@, item), r)),
            Self::operation_gives(put_sync_operation(key@, item), r),
            r matches Err(error) ==> Self::fails_with(error),
    {
        let column: &'static str = I::db_column().into();
        let key = key.as_bytes();

        self.put_bytes_sync(column, key, item.as_store_bytes().as_slice())
    }

    /// Retrieve an item from `Self`.
    fn get<I: StoreItem>(&self, key: &Hash256) -> (r: Result<Option<I>, Error>)
        ensures
            exists|read: Result<Option<Vec<u8>>, Error>| #[trigger]
                self.get_gives(I::column().name(), key@, read) && handles_read(read, r),
            retrieves_as(lookup(self.contents(), item_key::<I>(key@)), r) || (
            r matches Err(error) && Self::fails_with(error)),
    {
        let column: &'static str = I::db_column().into();
        let key = key.as_bytes();

        retrieve_item(self.get_bytes(column, key))
    }

    /// Returns `true` if the given key represents an item in `Self`.
    fn item_exists<I: StoreItem>(&self, key: &Hash256) -> (r: Result<bool, Error>)
        ensures
            r matches Ok(found) ==> found == self.contents().dom().contains(
                item_key::<I>(key@),
            ),
            self.exists_gives(I::column().name(), key@, r),
            r matches Err(error) ==> Self::fails_with(error),
    {
        let column: &'static str = I::db_column().into();
        let key = key.as_bytes();

        self.key_exists(column, key)
    }

    /// Remove an item from `Self`.
    fn delete<I: StoreItem>(&mut self, key: &Hash256) -> (r: Result<(), Error>)
        ensures
            changes_one_entry(
                old(self).contents(),
                old(self).contents().remove(item_key::<I>(key@)),
                final(self).contents(),
                r,
            ),
            final(self).history() == old(self).history().push((delete_operation::<I>(key@), r)),
            Self::operation_gives(delete_operation::<I>(key@), r),
            r matches Err(error) ==> Self::fails_with(error),
    {
        let column: &'static str = I::db_column().into();
        let key = key.as_bytes();

        self.key_delete(column, key)
    }
}

} // verus!

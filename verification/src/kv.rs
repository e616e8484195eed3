//! Key-value stores.
use vstd::prelude::*;

use crate::bytes::{precedes, zeros};
use crate::column::DBColumn;
use crate::errors::Error;
use crate::item::bytes_read;
use crate::keys::{db_key, Key};
use crate::ops::{apply_batch, Contents, EthSpec, KeyValueStoreOp};

verus! {

/// The entries of a column in the order of their keys: each is a key and its value, or the reason
/// why it could not be read.
pub type ColumnIter<K> = Vec<Result<(K, Vec<u8>), Error>>;

/// The keys of a column in their order.
pub type ColumnKeyIter<K> = Vec<Result<K, Error>>;

/// Entries of a column, with their keys as bytes.
pub type RawEntryIter = Vec<Result<(Vec<u8>, Vec<u8>), Error>>;

/// Keys of a column, as bytes.
pub type RawKeyIter = Vec<Result<Vec<u8>, Error>>;

/// What `db` holds under the database key `key`, if anything.
pub open spec fn lookup(db: Contents, key: Seq<u8>) -> Option<Seq<u8>> {
    if db.dom().contains(key) {
        Some(db[key])
    } else {
        None
    }
}

/// Whether `keys` are the keys of `column` in `db` that do not come before `from`, all of them, in
/// ascending order.
pub open spec fn is_column_listing(
    db: Contents,
    column: DBColumn,
    from: Seq<u8>,
    keys: Seq<Seq<u8>>,
) -> bool {
    &&& forall|i: int, j: int|
        0 <= i < j < keys.len() ==> precedes(#[trigger] keys[i], #[trigger] keys[j])
    &&& forall|i: int|
        0 <= i < keys.len() ==> db.dom().contains(db_key(column.name(), #[trigger] keys[i]))
            && !precedes(keys[i], from)
    &&& forall|key: Seq<u8>|
        #[trigger] db.dom().contains(db_key(column.name(), key)) && !precedes(key, from)
            ==> keys.contains(key)
}

/// Whether `r` is what an iteration gives for the entry of `column` in `db` with the key `key`.
pub open spec fn is_entry<K: Key>(
    db: Contents,
    column: DBColumn,
    key: Seq<u8>,
    r: Result<(K, Vec<u8>), Error>,
) -> bool {
    match r {
        Ok((read, value)) => K::reads_as(key, Ok(read)) && value@ == db[db_key(
            column.name(),
            key,
        )],
        Err(error) => K::reads_as(key, Err(error)),
    }
}

/// Whether `entries` are the entries of `column` in `db` whose keys do not come before `from`, all
/// of them, in the ascending order of their keys.
pub open spec fn lists_entries<K: Key>(
    db: Contents,
    column: DBColumn,
    from: Seq<u8>,
    entries: Seq<Result<(K, Vec<u8>), Error>>,
) -> bool {
    exists|keys: Seq<Seq<u8>>|
        {
            &&& #[trigger] is_column_listing(db, column, from, keys)
            &&& entries.len() == keys.len()
            &&& forall|i: int|
                0 <= i < keys.len() ==> is_entry(db, column, keys[i], #[trigger] entries[i])
        }
}

/// Whether `keys` are the keys of `column` in `db`, all of them, in ascending order.
pub open spec fn lists_keys<K: Key>(
    db: Contents,
    column: DBColumn,
    read: Seq<Result<K, Error>>,
) -> bool {
    exists|keys: Seq<Seq<u8>>|
        {
            &&& #[trigger] is_column_listing(db, column, Seq::empty(), keys)
            &&& read.len() == keys.len()
            &&& forall|i: int| 0 <= i < keys.len() ==> K::reads_as(keys[i], #[trigger] read[i])
        }
}

/// What a database comes upon at one step of an iteration: the bytes of a key within its column and
/// of its value, or a failure.
pub type FoundEntry = Result<(Seq<u8>, Seq<u8>), Error>;

/// Whether `entries` is what becomes of `found`: a failure stays that failure, and the bytes of a key
/// are read as a key.
pub open spec fn reads_found<K: Key>(
    found: Seq<FoundEntry>,
    entries: Seq<Result<(K, Vec<u8>), Error>>,
) -> bool {
    &&& entries.len() == found.len()
    &&& forall|i: int|
        0 <= i < found.len() ==> match (found[i], #[trigger] entries[i]) {
            (Ok(bytes), Ok(entry)) => K::reads_as(bytes.0, Ok(entry.0)) && entry.1@ == bytes.1,
            (Ok(bytes), Err(error)) => K::reads_as(bytes.0, Err(error)),
            (Err(failure), entry) => entry == Err::<(K, Vec<u8>), Error>(failure),
        }
}

/// Whether `found` are the entries of `column` in `db` whose keys do not come before `from`, all of
/// them, in the ascending order of their keys.
pub open spec fn finds_entries(
    db: Contents,
    column: DBColumn,
    from: Seq<u8>,
    found: Seq<FoundEntry>,
) -> bool {
    exists|keys: Seq<Seq<u8>>|
        {
            &&& #[trigger] is_column_listing(db, column, from, keys)
            &&& found.len() == keys.len()
            &&& forall|i: int|
                0 <= i < keys.len() ==> #[trigger] found[i] == Ok::<(Seq<u8>, Seq<u8>), Error>(
                    (keys[i], db[db_key(column.name(), keys[i])]),
                )
        }
}

/// Whether `r` is what an iteration gives for some entry of `column` in `db` whose key does not come
/// before `from`.
pub open spec fn is_some_entry<K: Key>(
    db: Contents,
    column: DBColumn,
    from: Seq<u8>,
    r: Result<(K, Vec<u8>), Error>,
) -> bool {
    exists|key: Seq<u8>|
        {
            &&& #[trigger] db.dom().contains(db_key(column.name(), key))
            &&& !precedes(key, from)
            &&& is_entry(db, column, key, r)
        }
}

/// Whether `r` is the outcome of reading some key of `column` in `db`.
pub open spec fn is_some_key<K: Key>(
    db: Contents,
    column: DBColumn,
    r: Result<K, Error>,
) -> bool {
    exists|key: Seq<u8>|
        #[trigger] db.dom().contains(db_key(column.name(), key)) && K::reads_as(key, r)
}

/// Whether a change of one entry, from `before` to `changed`, that reported `r` can have left `after`:
/// a change that succeeded was made, and one that failed was made or was not.
pub open spec fn changes_one_entry(
    before: Contents,
    changed: Contents,
    after: Contents,
    r: Result<(), Error>,
) -> bool {
    after == changed || (r is Err && after == before)
}

/// A call that changes a store, or asks its database to do so, with what was handed to it.
pub enum Operation {
    PutBytes { column: Seq<char>, key: Seq<u8>, value: Seq<u8> },
    PutBytesSync { column: Seq<char>, key: Seq<u8>, value: Seq<u8> },
    Sync,
    KeyDelete { column: Seq<char>, key: Seq<u8> },
    DoAtomically { batch: Seq<KeyValueStoreOp> },
    CompactColumn(DBColumn),
}

/// A call that was made, and what it returned.
pub type Event = (Operation, Result<(), Error>);

/// The columns that `KeyValueStore::compact` goes through, in its order.
pub open spec fn compaction_plan() -> Seq<DBColumn> {
    seq![DBColumn::BeaconState, DBColumn::BeaconStateSummary, DBColumn::BeaconBlock]
}

/// The compaction of the column at `i` in the plan.
pub open spec fn planned_compaction(i: int) -> Operation {
    Operation::CompactColumn(compaction_plan()[i])
}

/// The compactions of the first `done` columns of the plan, all of which succeeded.
pub open spec fn compacted(done: int) -> Seq<Event> {
    Seq::new(done as nat, |i: int| (planned_compaction(i), Ok(())))
}

/// Whether a store whose history went from `before` to `after` compacted the columns of the plan in
/// their order, each once, up to the first failure, and returned what the last compaction did.
pub open spec fn compacts_in_turn(
    before: Seq<Event>,
    after: Seq<Event>,
    r: Result<(), Error>,
) -> bool {
    match r {
        Ok(_) => after == before + compacted(compaction_plan().len() as int),
        Err(_) => exists|done: int|
            0 <= done < compaction_plan().len() && after == before + (#[trigger] compacted(
                done,
            )).push((planned_compaction(done), r)),
    }
}

/// A store of byte strings, in columns and under keys.
///
/// An operation on a database may fail at any time for reasons of the database. A failed write of
/// one entry has either happened or not; a failed batch has not happened.
///
/// The operations that change the store, or what the disk knows of it, take it exclusively. The
/// specification functions have bodies for the sake of implementations outside verified code,
/// which leave them out; a verified implementation gives its own.
pub trait KeyValueStore<E: EthSpec>: Sync + Send + Sized + 'static {
    /// What the store holds.
    open spec fn contents(&self) -> Contents {
        arbitrary()
    }

    /// What the store held at its last flush. Where nothing is kept back there is nothing to
    /// flush, and this is what the store holds.
    open spec fn flushed(&self) -> Contents {
        arbitrary()
    }

    /// The operations that were called on the store, one after the other, with what they returned.
    open spec fn history(&self) -> Seq<Event> {
        arbitrary()
    }

    /// Whether `error` is one with which the operations of stores of this kind may fail. An
    /// operation of a store for which there is no such error succeeds.
    open spec fn fails_with(error: Error) -> bool {
        true
    }

    /// Whether `operation` can return `r` on a store of this kind.
    open spec fn operation_gives(operation: Operation, r: Result<(), Error>) -> bool {
        true
    }

    /// Whether `get_bytes` can return `r` for `column` and `key`.
    open spec fn get_gives(
        &self,
        column: Seq<char>,
        key: Seq<u8>,
        r: Result<Option<Vec<u8>>, Error>,
    ) -> bool {
        true
    }

    /// Whether `key_exists` can return `r` for `column` and `key`.
    open spec fn exists_gives(
        &self,
        column: Seq<char>,
        key: Seq<u8>,
        r: Result<bool, Error>,
    ) -> bool {
        true
    }

    /// Whether `iter_column_from` can come upon `found` for `column` and `from`.
    open spec fn iteration_gives(
        &self,
        column: DBColumn,
        from: Seq<u8>,
        found: Seq<FoundEntry>,
    ) -> bool {
        true
    }

    /// Retrieve some bytes in `column` with `key`.
    fn get_bytes(&self, column: &str, key: &[u8]) -> (r: Result<Option<Vec<u8>>, Error>)
        ensures
            r matches Ok(value) ==> bytes_read(value) == lookup(
                self.contents(),
                db_key(column@, key@),
            ),
            self.get_gives(column@, key@, r),
            r matches Err(error) ==> Self::fails_with(error),
    ;

    /// Store some `value` in `column`, indexed with `key`.
    fn put_bytes(&mut self, column: &str, key: &[u8], value: &[u8]) -> (r: Result<(), Error>)
        ensures
            changes_one_entry(
                old(self).contents(),
                old(self).contents().insert(db_key(column@, key@), value@),
                final(self).contents(),
                r,
            ),
            final(self).history() == old(self).history().push(
                (Operation::PutBytes { column: column@, key: key@, value: value@ }, r),
            ),
            Self::operation_gives((Operation::PutBytes { column: column@, key: key@, value: value@ }), r),
            r matches Err(error) ==> Self::fails_with(error),
    ;

    /// Same as put_bytes() but also force a flush to disk
    fn put_bytes_sync(&mut self, column: &str, key: &[u8], value: &[u8]) -> (r: Result<(), Error>)
        ensures
            changes_one_entry(
                old(self).contents(),
                old(self).contents().insert(db_key(column@, key@), value@),
                final(self).contents(),
                r,
            ),
            r is Ok ==> final(self).flushed() == final(self).contents(),
            final(self).history() == old(self).history().push(
                (Operation::PutBytesSync { column: column@, key: key@, value: value@ }, r),
            ),
            Self::operation_gives((Operation::PutBytesSync { column: column@, key: key@, value: value@ }), r),
            r matches Err(error) ==> Self::fails_with(error),
    ;

    /// Flush to disk.  See
    /// https://chromium.googlesource.com/external/leveldb/+/HEAD/doc/index.md#synchronous-writes
    /// for details.
    fn sync(&mut self) -> (r: Result<(), Error>)
        ensures
            r is Ok ==> final(self).flushed() == final(self).contents(),
            final(self).contents() == old(self).contents(),
            final(self).history() == old(self).history().push((Operation::Sync, r)),
            Self::operation_gives(Operation::Sync, r),
            r matches Err(error) ==> Self::fails_with(error),
    ;

    /// Return `true` if `key` exists in `column`.
    fn key_exists(&self, column: &str, key: &[u8]) -> (r: Result<bool, Error>)
        ensures
            r matches Ok(found) ==> found == self.contents().dom().contains(db_key(column@, key@)),
            self.exists_gives(column@, key@, r),
            r matches Err(error) ==> Self::fails_with(error),
    ;

    /// Removes `key` from `column`.
    fn key_delete(&mut self, column: &str, key: &[u8]) -> (r: Result<(), Error>)
        ensures
            changes_one_entry(
                old(self).contents(),
                old(self).contents().remove(db_key(column@, key@)),
                final(self).contents(),
                r,
            ),
            final(self).history() == old(self).history().push(
                (Operation::KeyDelete { column: column@, key: key@ }, r),
            ),
            Self::operation_gives((Operation::KeyDelete { column: column@, key: key@ }), r),
            r matches Err(error) ==> Self::fails_with(error),
    ;

    /// Execute either all of the operations in `batch` or none at all, returning an error.
    fn do_atomically(&mut self, batch: Vec<KeyValueStoreOp>) -> (r: Result<(), Error>)
        ensures
            r is Ok ==> final(self).contents() == apply_batch(old(self).contents(), batch@),
            r is Err ==> final(self).contents() == old(self).contents(),
            final(self).history() == old(self).history().push(
                (Operation::DoAtomically { batch: batch@ }, r),
            ),
            Self::operation_gives((Operation::DoAtomically { batch: batch@ }), r),
            r matches Err(error) ==> Self::fails_with(error),
    ;

    /// Compact a single column in the database, freeing space used by deleted items.
    fn compact_column(&mut self, column: DBColumn) -> (r: Result<(), Error>)
        ensures
            final(self).contents() == old(self).contents(),
            final(self).history() == old(self).history().push((Operation::CompactColumn(column), r)),
            Self::operation_gives(Operation::CompactColumn(column), r),
            r matches Err(error) ==> Self::fails_with(error),
    ;

    /// Compact a default set of columns that are likely to free substantial space.
    ///
    /// The first column that cannot be compacted ends it.
    fn compact(&mut self) -> (r: Result<(), Error>)
        ensures
            compacts_in_turn(old(self).history(), final(self).history(), r),
            r is Ok ==> forall|i: int|
                0 <= i < compaction_plan().len() ==> Self::operation_gives(
                    #[trigger] planned_compaction(i),
                    Ok(()),
                ),
            r is Err ==> exists|done: int|
                {
                    &&& 0 <= done < compaction_plan().len()
                    &&& final(self).history() == old(self).history() + (#[trigger] compacted(
                        done,
                    )).push((planned_compaction(done), r))
                    &&& Self::operation_gives(planned_compaction(done), r)
                    &&& forall|i: int|
                        0 <= i < done ==> Self::operation_gives(
                            #[trigger] planned_compaction(i),
                            Ok(()),
                        )
                },
            final(self).contents() == old(self).contents(),
            r matches Err(error) ==> Self::fails_with(error),
    {
        // Compact state and block related columns as they are likely to have the most churn,
        // i.e. entries being created and deleted.
        let columns = [
            DBColumn::BeaconState,
            DBColumn::BeaconStateSummary,
            DBColumn::BeaconBlock,
        ];
        assert(columns@ =~= compaction_plan());
        let mut i: usize = 0;
        assert(self.history() =~= old(self).history() + compacted(0));
        while i < columns.len()
            invariant
                i <= 3,
                columns@ == compaction_plan(),
                self.contents() == old(self).contents(),
                self.history() == old(self).history() + compacted(i as int),
                forall|j: int|
                    0 <= j < i ==> Self::operation_gives(
                        #[trigger] planned_compaction(j),
                        Ok(()),
                    ),
            decreases 3 - i,
        {
            let outcome = self.compact_column(columns[i]);
            assert(self.history() =~= old(self).history() + compacted(i as int).push(
                (planned_compaction(i as int), outcome),
            ));
            outcome?;
            i = i + 1;
            assert(compacted(i as int) =~= compacted(i - 1).push(
                (planned_compaction(i - 1), Ok(())),
            ));
        }
        Ok(())
    }

    /// Iterate through all keys and values in a particular column.
    ///
    /// The iteration starts from the key of the column's size that is all zeros.
    fn iter_column<K: Key>(&self, column: DBColumn) -> (r: ColumnIter<K>)
        ensures
            exists|found: Seq<FoundEntry>| #[trigger]
                self.iteration_gives(column, zeros(column.key_len()), found) && reads_found(
                    found,
                    r@,
                ),
            (forall|i: int|
                0 <= i < r@.len() ==> !(#[trigger] r@[i] matches Err(error) && Self::fails_with(
                    error,
                ))) ==> lists_entries(self.contents(), column, zeros(column.key_len()), r@),
            forall|i: int|
                0 <= i < r@.len() ==> is_some_entry(
                    self.contents(),
                    column,
                    zeros(column.key_len()),
                    #[trigger] r@[i],
                ) || (r@[i] matches Err(error) && Self::fails_with(error)),
    {
        let from = vec![0u8; column.key_size()];
        assert(from@ =~= zeros(column.key_len()));
        self.iter_column_from(column, from.as_slice())
    }

    /// Iterate through all keys and values in a column from a given starting point.
    fn iter_column_from<K: Key>(&self, column: DBColumn, from: &[u8]) -> (r: ColumnIter<K>)
        ensures
            exists|found: Seq<FoundEntry>| #[trigger]
                self.iteration_gives(column, from@, found) && reads_found(found, r@),
            (forall|i: int|
                0 <= i < r@.len() ==> !(#[trigger] r@[i] matches Err(error) && Self::fails_with(
                    error,
                ))) ==> lists_entries(self.contents(), column, from@, r@),
            forall|i: int|
                0 <= i < r@.len() ==> is_some_entry(
                    self.contents(),
                    column,
                    from@,
                    #[trigger] r@[i],
                ) || (r@[i] matches Err(error) && Self::fails_with(error)),
    ;

    fn iter_raw_entries(&self, _column: DBColumn, _prefix: &[u8]) -> (r: RawEntryIter)
        default_ensures
            r@.len() == 0,
    {
        Vec::new()
    }

    fn iter_raw_keys(&self, _column: DBColumn, _prefix: &[u8]) -> (r: RawKeyIter)
        default_ensures
            r@.len() == 0,
    {
        Vec::new()
    }

    /// Iterate through all keys in a particular column.
    fn iter_column_keys<K: Key>(&self, column: DBColumn) -> (r: ColumnKeyIter<K>)
        ensures
            (forall|i: int|
                0 <= i < r@.len() ==> !(#[trigger] r@[i] matches Err(error) && Self::fails_with(
                    error,
                ))) ==> lists_keys(self.contents(), column, r@),
            forall|i: int|
                0 <= i < r@.len() ==> is_some_key(self.contents(), column, #[trigger] r@[i]) || (
                r@[i] matches Err(error) && Self::fails_with(error)),
    ;
}

} // verus!

//! A store in memory.
use vstd::prelude::*;

use std::marker::PhantomData;

use crate::column::DBColumn;
use crate::errors::Error;
use crate::item::bytes_read;
use crate::item_store::ItemStore;
use crate::keys::{db_key, get_key_for_col, Key};
use crate::kv::{
    finds_entries, is_column_listing, is_entry, is_some_entry, lookup, reads_found, ColumnIter,
    ColumnKeyIter, Event, FoundEntry, KeyValueStore, Operation,
};
use crate::ops::{apply_batch, Contents, EthSpec, KeyValueStoreOp};
use crate::table::{
    column_range, contents_of, enter, erase, find, keys_between, lemma_holds_entry, sorted, Entry,
};

verus! {

/// An in-memory store. Used for testing.
///
/// It keeps its entries in the order of their database keys, and its operations never fail.
#[verifier::reject_recursive_types(E)]
pub struct MemoryStore<E: EthSpec> {
    entries: Vec<Entry>,
    past: Ghost<Seq<Event>>,
    network: PhantomData<E>,
}

impl<E: EthSpec> MemoryStore<E> {
    #[verifier::type_invariant]
    spec fn is_sorted(&self) -> bool {
        sorted(self.entries@)
    }

    /// A store that holds nothing.
    pub fn open() -> (r: Self)
        ensures
            r.contents() == Contents::empty(),
            r.history() == Seq::<Event>::empty(),
    {
        let entries: Vec<Entry> = Vec::new();
        assert(contents_of(entries@) =~= Contents::empty());
        MemoryStore { entries, past: Ghost(Seq::empty()), network: PhantomData }
    }

    /// Enter `value` in `column`, indexed with `key`.
    fn set(&mut self, column: &str, key: &[u8], value: &[u8])
        ensures
            final(self).contents() == old(self).contents().insert(db_key(column@, key@), value@),
            final(self).history() == old(self).history(),
    {
        proof {
            use_type_invariant(&*self);
        }
        let mut entries: Vec<Entry> = Vec::new();
        std::mem::swap(&mut entries, &mut self.entries);
        enter(&mut entries, get_key_for_col(column, key), vstd::slice::slice_to_vec(value));
        self.entries = entries;
    }

    /// Add to the history that `operation` succeeded.
    fn record(&mut self, operation: Ghost<Operation>)
        ensures
            final(self).contents() == old(self).contents(),
            final(self).history() == old(self).history().push((operation@, Ok(()))),
    {
        proof {
            use_type_invariant(&*self);
        }
        self.past = Ghost(self.past@.push((operation@, Ok(()))));
    }
}

impl<E: EthSpec> KeyValueStore<E> for MemoryStore<E> {
    closed spec fn contents(&self) -> Contents {
        contents_of(self.entries@)
    }

    open spec fn flushed(&self) -> Contents {
        self.contents()
    }

    closed spec fn history(&self) -> Seq<Event> {
        self.past@
    }

    open spec fn fails_with(error: Error) -> bool {
        false
    }

    open spec fn operation_gives(operation: Operation, r: Result<(), Error>) -> bool {
        r is Ok
    }

    open spec fn get_gives(
        &self,
        column: Seq<char>,
        key: Seq<u8>,
        r: Result<Option<Vec<u8>>, Error>,
    ) -> bool {
        r matches Ok(value) && bytes_read(value) == lookup(self.contents(), db_key(column, key))
    }

    open spec fn exists_gives(
        &self,
        column: Seq<char>,
        key: Seq<u8>,
        r: Result<bool, Error>,
    ) -> bool {
        r == Ok::<bool, Error>(self.contents().dom().contains(db_key(column, key)))
    }

    open spec fn iteration_gives(
        &self,
        column: DBColumn,
        from: Seq<u8>,
        found: Seq<FoundEntry>,
    ) -> bool {
        finds_entries(self.contents(), column, from, found)
    }

    fn get_bytes(&self, column: &str, key: &[u8]) -> (r: Result<Option<Vec<u8>>, Error>) {
        proof {
            use_type_invariant(self);
        }
        match find(&self.entries, get_key_for_col(column, key).as_slice()) {
            Some(i) => Ok(Some(vstd::slice::slice_to_vec(self.entries[i].1.as_slice()))),
            None => Ok(None),
        }
    }

    fn put_bytes(&mut self, column: &str, key: &[u8], value: &[u8]) -> (r: Result<(), Error>) {
        self.set(column, key, value);
        self.record(
            Ghost(Operation::PutBytes { column: column@, key: key@, value: value@ }),
        );
        Ok(())
    }

    fn put_bytes_sync(&mut self, column: &str, key: &[u8], value: &[u8]) -> (r: Result<(), Error>) {
        self.set(column, key, value);
        self.record(
            Ghost(Operation::PutBytesSync { column: column@, key: key@, value: value@ }),
        );
        assert(self.flushed() == self.contents());
        Ok(())
    }

    fn sync(&mut self) -> (r: Result<(), Error>) {
        self.record(Ghost(Operation::Sync));
        assert(self.flushed() == self.contents());
        Ok(())
    }

    fn key_exists(&self, column: &str, key: &[u8]) -> (r: Result<bool, Error>) {
        proof {
            use_type_invariant(self);
        }
        Ok(find(&self.entries, get_key_for_col(column, key).as_slice()).is_some())
    }

    fn key_delete(&mut self, column: &str, key: &[u8]) -> (r: Result<(), Error>) {
        proof {
            use_type_invariant(&*self);
        }
        let mut entries: Vec<Entry> = Vec::new();
        std::mem::swap(&mut entries, &mut self.entries);
        erase(&mut entries, get_key_for_col(column, key).as_slice());
        self.entries = entries;
        self.record(Ghost(Operation::KeyDelete { column: column@, key: key@ }));
        Ok(())
    }

    fn do_atomically(&mut self, batch: Vec<KeyValueStoreOp>) -> (r: Result<(), Error>) {
        proof {
            use_type_invariant(&*self);
        }
        let ghost ops = batch@;
        let mut entries: Vec<Entry> = Vec::new();
        std::mem::swap(&mut entries, &mut self.entries);
        let ghost db = contents_of(entries@);
        assert(ops.take(0) =~= Seq::empty());
        for op in iter: batch
            invariant
                sorted(entries@),
                iter.seq() == ops,
                contents_of(entries@) == apply_batch(db, ops.take(iter.index())),
        {
            proof {
                assert(ops.take(iter.index() + 1).drop_last() =~= ops.take(iter.index()));
                assert(op == ops[iter.index()]);
            }
            match op {
                KeyValueStoreOp::PutKeyValue(key, value) => {
                    enter(&mut entries, key, value);
                },
                KeyValueStoreOp::DeleteKey(key) => {
                    erase(&mut entries, key.as_slice());
                },
            }
        }
        assert(ops.take(ops.len() as int) =~= ops);
        self.entries = entries;
        self.record(Ghost(Operation::DoAtomically { batch: ops }));
        Ok(())
    }

    fn compact_column(&mut self, column: DBColumn) -> (r: Result<(), Error>) {
        self.record(Ghost(Operation::CompactColumn(column)));
        Ok(())
    }

    fn iter_column_from<K: Key>(&self, column: DBColumn, from: &[u8]) -> (r: ColumnIter<K>) {
        proof {
            use_type_invariant(self);
        }
        let (start, end) = column_range(&self.entries, column, from);
        let head: usize = column.as_bytes().len();
        let ghost db = self.contents();
        let ghost keys = keys_between(self.entries@, column, start as int, end as int);
        let mut r: ColumnIter<K> = Vec::new();
        let mut i: usize = start;
        while i < end
            invariant
                sorted(self.entries@),
                db == contents_of(self.entries@),
                keys == keys_between(self.entries@, column, start as int, end as int),
                is_column_listing(db, column, from@, keys),
                head == column.prefix().len(),
                start <= i <= end <= self.entries@.len(),
                forall|j: int|
                    start <= j < end ==> column.prefix().is_prefix_of(
                        (#[trigger] self.entries@[j]).0@,
                    ),
                r@.len() == i - start,
                forall|j: int|
                    0 <= j < r@.len() ==> is_entry(db, column, keys[j], #[trigger] r@[j]),
            decreases end - i,
        {
            let entry = &self.entries[i];
            let key = entry.0.as_slice();
            let read = K::from_bytes(vstd::slice::slice_subrange(key, head, key.len()));
            let value = vstd::slice::slice_to_vec(entry.1.as_slice());
            proof {
                lemma_holds_entry(self.entries@, i as int);
                assert(keys[i - start] =~= key@.subrange(head as int, key@.len() as int));
                assert(key@ =~= db_key(column.name(), keys[i - start]));
            }
            match read {
                Ok(key) => r.push(Ok((key, value))),
                Err(error) => r.push(Err(error)),
            }
            i = i + 1;
        }
        assert forall|j: int| 0 <= j < r@.len() implies is_some_entry(
            db,
            column,
            from@,
            #[trigger] r@[j],
        ) by {
            assert(is_entry(db, column, keys[j], r@[j]));
            assert(db.dom().contains(db_key(column.name(), keys[j])));
        }
        proof {
            let found: Seq<FoundEntry> = Seq::new(
                keys.len(),
                |j: int| Ok((keys[j], db[db_key(column.name(), keys[j])])),
            );
            assert(finds_entries(db, column, from@, found));
            assert(reads_found(found, r@));
            assert(self.iteration_gives(column, from@, found));
        }
        r
    }

    fn iter_column_keys<K: Key>(&self, column: DBColumn) -> (r: ColumnKeyIter<K>) {
        let from: Vec<u8> = Vec::new();
        let entries: ColumnIter<K> = self.iter_column_from(column, from.as_slice());
        let ghost all = entries@;
        let mut r: ColumnKeyIter<K> = Vec::new();
        for entry in iter: entries
            invariant
                iter.seq() == all,
                r@.len() == iter.index(),
                forall|j: int|
                    0 <= j < r@.len() ==> #[trigger] r@[j] == key_of_entry(all[j]),
        {
            match entry {
                Ok((key, _)) => r.push(Ok(key)),
                Err(error) => r.push(Err(error)),
            }
        }
        r
    }
}

/// The key of an entry.
spec fn key_of_entry<K>(entry: Result<(K, Vec<u8>), Error>) -> Result<K, Error> {
    match entry {
        Ok((key, _)) => Ok(key),
        Err(error) => Err(error),
    }
}

impl<E: EthSpec> ItemStore<E> for MemoryStore<E> {

}

} // verus!

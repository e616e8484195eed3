//! What callers see: how the results of calls depend on what was handed to them, and how the results
//! of several calls on one store relate.
//!
//! Each law takes the arguments and the results of calls, as `call_ensures` relates them. A store that
//! a call changes is written `old(store)` before the call and `final(store)` after it. Calls on a
//! database may fail at any time; a law speaks of the results of those that did not.
use vstd::prelude::*;
use vstd::utf8::*;

use crate::bytes::{
    big_endian, bytes_equal, bytes_precede, has_head, order_is_lexicographic, order_is_numeric,
    precedes, precedes_zeros, zeros,
};
use crate::column::{DBColumn, ParseError};
use crate::errors::Error;
use crate::hash::Hash256;
use crate::item::{item_key, retrieve_item, StoreItem};
use crate::item_store::ItemStore;
use crate::keys::{db_key, get_col_from_key, get_key_for_col, Key};
use crate::kv::{
    changes_one_entry, is_column_listing, is_entry, lists_entries, lists_keys, ColumnIter, ColumnKeyIter, KeyValueStore, Operation, RawEntryIter,
    RawKeyIter,
};
use crate::laws::{
    batch_leaves_other_keys_alone, column_is_the_text_of_three_bytes,
    compaction_goes_through_states_and_blocks, last_operation_decides,
    listing_is_ascending_and_exact, listing_is_unique, text_names_at_most_one_column,
};
use crate::memory_store::MemoryStore;
use crate::ops::{Contents, EthSpec, KeyValueStoreOp};

verus! {

/// Bytes that were written under a key of a column are read back there, and the key exists. This holds
/// of all columns, keys and values, of whatever lengths.
pub proof fn written_bytes_are_read_back<E: EthSpec, S: KeyValueStore<E>>(
    store: &mut S,
    column: &str,
    key: &[u8],
    value: &[u8],
    read: Result<Option<Vec<u8>>, Error>,
    found: Result<bool, Error>,
)
    requires
        call_ensures(S::put_bytes, (store, column, key, value), Ok(())) || call_ensures(
            S::put_bytes_sync,
            (store, column, key, value),
            Ok(()),
        ),
        call_ensures(S::get_bytes, (final(store), column, key), read),
        call_ensures(S::key_exists, (final(store), column, key), found),
    ensures
        read is Ok ==> read->Ok_0 is Some && read->Ok_0->0@ == value@,
        found is Ok ==> found->Ok_0,
{
}

/// What was removed is read no more, and does not exist.
pub proof fn removed_bytes_are_gone<E: EthSpec, S: KeyValueStore<E>>(
    store: &mut S,
    column: &str,
    key: &[u8],
    read: Result<Option<Vec<u8>>, Error>,
    found: Result<bool, Error>,
)
    requires
        call_ensures(S::key_delete, (store, column, key), Ok(())),
        call_ensures(S::get_bytes, (final(store), column, key), read),
        call_ensures(S::key_exists, (final(store), column, key), found),
    ensures
        read is Ok ==> read->Ok_0 is None,
        found is Ok ==> !found->Ok_0,
{
}

/// Something is read under a key if and only if the key exists.
pub proof fn something_is_read_where_it_exists<E: EthSpec, S: KeyValueStore<E>>(
    store: &S,
    column: &str,
    key: &[u8],
    read: Result<Option<Vec<u8>>, Error>,
    found: Result<bool, Error>,
)
    requires
        call_ensures(S::get_bytes, (store, column, key), read),
        call_ensures(S::key_exists, (store, column, key), found),
    ensures
        read is Ok && found is Ok ==> (read->Ok_0 is Some <==> found->Ok_0),
{
}

/// A write or a removal, whether it succeeds or fails, leaves alone whatever has another database key,
/// that is, other bytes of the column's name and the key together.
pub proof fn other_entries_are_left_alone<E: EthSpec, S: KeyValueStore<E>>(
    store: &mut S,
    column: &str,
    key: &[u8],
    value: &[u8],
    done: Result<(), Error>,
    other_column: &str,
    other_key: &[u8],
    read_before: Result<Option<Vec<u8>>, Error>,
    read_after: Result<Option<Vec<u8>>, Error>,
    found_before: Result<bool, Error>,
    found_after: Result<bool, Error>,
)
    requires
        call_ensures(S::put_bytes, (store, column, key, value), done) || call_ensures(
            S::put_bytes_sync,
            (store, column, key, value),
            done,
        ) || call_ensures(S::key_delete, (store, column, key), done),
        encode_utf8(column@) + key@ != encode_utf8(other_column@) + other_key@,
        call_ensures(S::get_bytes, (old(store), other_column, other_key), read_before),
        call_ensures(S::get_bytes, (final(store), other_column, other_key), read_after),
        call_ensures(S::key_exists, (old(store), other_column, other_key), found_before),
        call_ensures(S::key_exists, (final(store), other_column, other_key), found_after),
    ensures
        read_before is Ok && read_after is Ok ==> match (read_before->Ok_0, read_after->Ok_0) {
            (Some(before), Some(after)) => before@ == after@,
            (None, None) => true,
            _ => false,
        },
        found_before is Ok && found_after is Ok ==> found_before->Ok_0 == found_after->Ok_0,
{
}

/// After a write that failed, what is read is what was written, or what was read before.
pub proof fn failed_write_was_made_or_not<E: EthSpec, S: KeyValueStore<E>>(
    store: &mut S,
    column: &str,
    key: &[u8],
    value: &[u8],
    done: Result<(), Error>,
    read_before: Result<Option<Vec<u8>>, Error>,
    read_after: Result<Option<Vec<u8>>, Error>,
)
    requires
        call_ensures(S::put_bytes, (store, column, key, value), done) || call_ensures(
            S::put_bytes_sync,
            (store, column, key, value),
            done,
        ),
        call_ensures(S::get_bytes, (old(store), column, key), read_before),
        call_ensures(S::get_bytes, (final(store), column, key), read_after),
    ensures
        read_before is Ok && read_after is Ok ==> match read_after->Ok_0 {
            Some(after) => after@ == value@ || (read_before->Ok_0 is Some
                && read_before->Ok_0->0@ == after@),
            None => read_before->Ok_0 is None,
        },
{
}

/// After a batch that succeeded, its last operation on a database key decides what is read there: the
/// value that it put, or nothing where it deleted, whatever the key.
pub proof fn batch_is_carried_out<E: EthSpec, S: KeyValueStore<E>>(
    store: &mut S,
    batch: Vec<KeyValueStoreOp>,
    i: int,
    column: &str,
    key: &[u8],
    read: Result<Option<Vec<u8>>, Error>,
    found: Result<bool, Error>,
)
    requires
        call_ensures(S::do_atomically, (store, batch), Ok(())),
        0 <= i < batch@.len(),
        match batch@[i] {
            KeyValueStoreOp::PutKeyValue(k, _) => k@ == encode_utf8(column@) + key@,
            KeyValueStoreOp::DeleteKey(k) => k@ == encode_utf8(column@) + key@,
        },
        forall|j: int|
            i < j < batch@.len() ==> match #[trigger] batch@[j] {
                KeyValueStoreOp::PutKeyValue(k, _) => k@ != encode_utf8(column@) + key@,
                KeyValueStoreOp::DeleteKey(k) => k@ != encode_utf8(column@) + key@,
            },
        call_ensures(S::get_bytes, (final(store), column, key), read),
        call_ensures(S::key_exists, (final(store), column, key), found),
    ensures
        match batch@[i] {
            KeyValueStoreOp::PutKeyValue(_, value) => {
                &&& read is Ok ==> read->Ok_0 is Some && read->Ok_0->0@ == value@
                &&& found is Ok ==> found->Ok_0
            },
            KeyValueStoreOp::DeleteKey(_) => {
                &&& read is Ok ==> read->Ok_0 is None
                &&& found is Ok ==> !found->Ok_0
            },
        },
{
    last_operation_decides(old(store).contents(), batch@, i, encode_utf8(column@) + key@);
}

/// A batch of one operation puts the value, or deletes the key, of that operation.
pub proof fn batch_of_one_is_carried_out<E: EthSpec, S: KeyValueStore<E>>(
    store: &mut S,
    batch: Vec<KeyValueStoreOp>,
    op: KeyValueStoreOp,
    column: &str,
    key: &[u8],
    read: Result<Option<Vec<u8>>, Error>,
    found: Result<bool, Error>,
)
    requires
        call_ensures(S::do_atomically, (store, batch), Ok(())),
        batch@ == seq![op],
        call_ensures(S::get_bytes, (final(store), column, key), read),
        call_ensures(S::key_exists, (final(store), column, key), found),
    ensures
        match op {
            KeyValueStoreOp::PutKeyValue(k, value) => k@ == encode_utf8(column@) + key@ ==> {
                &&& read is Ok ==> read->Ok_0 is Some && read->Ok_0->0@ == value@
                &&& found is Ok ==> found->Ok_0
            },
            KeyValueStoreOp::DeleteKey(k) => k@ == encode_utf8(column@) + key@ ==> {
                &&& read is Ok ==> read->Ok_0 is None
                &&& found is Ok ==> !found->Ok_0
            },
        },
{
    if match op {
        KeyValueStoreOp::PutKeyValue(k, _) => k@ == encode_utf8(column@) + key@,
        KeyValueStoreOp::DeleteKey(k) => k@ == encode_utf8(column@) + key@,
    } {
        batch_is_carried_out::<E, S>(store, batch, 0, column, key, read, found);
    }
}

/// A batch that failed changes nothing that is read, and one that succeeded changes nothing but what its
/// operations are on.
pub proof fn batch_leaves_the_rest_alone<E: EthSpec, S: KeyValueStore<E>>(
    store: &mut S,
    batch: Vec<KeyValueStoreOp>,
    done: Result<(), Error>,
    column: &str,
    key: &[u8],
    read_before: Result<Option<Vec<u8>>, Error>,
    read_after: Result<Option<Vec<u8>>, Error>,
    found_before: Result<bool, Error>,
    found_after: Result<bool, Error>,
)
    requires
        call_ensures(S::do_atomically, (store, batch), done),
        done is Err || forall|j: int|
            0 <= j < batch@.len() ==> match #[trigger] batch@[j] {
                KeyValueStoreOp::PutKeyValue(k, _) => k@ != encode_utf8(column@) + key@,
                KeyValueStoreOp::DeleteKey(k) => k@ != encode_utf8(column@) + key@,
            },
        call_ensures(S::get_bytes, (old(store), column, key), read_before),
        call_ensures(S::get_bytes, (final(store), column, key), read_after),
        call_ensures(S::key_exists, (old(store), column, key), found_before),
        call_ensures(S::key_exists, (final(store), column, key), found_after),
    ensures
        read_before is Ok && read_after is Ok ==> match (read_before->Ok_0, read_after->Ok_0) {
            (Some(before), Some(after)) => before@ == after@,
            (None, None) => true,
            _ => false,
        },
        found_before is Ok && found_after is Ok ==> found_before->Ok_0 == found_after->Ok_0,
{
    if done is Ok {
        batch_leaves_other_keys_alone(
            old(store).contents(),
            batch@,
            encode_utf8(column@) + key@,
        );
    }
}

/// A flush or a compaction changes nothing that is read.
pub proof fn upkeep_changes_no_entry<E: EthSpec, S: KeyValueStore<E>>(
    store: &mut S,
    compacted: DBColumn,
    done: Result<(), Error>,
    column: &str,
    key: &[u8],
    read_before: Result<Option<Vec<u8>>, Error>,
    read_after: Result<Option<Vec<u8>>, Error>,
    found_before: Result<bool, Error>,
    found_after: Result<bool, Error>,
)
    requires
        call_ensures(S::sync, (store,), done) || call_ensures(
            S::compact_column,
            (store, compacted),
            done,
        ) || call_ensures(S::compact, (store,), done),
        call_ensures(S::get_bytes, (old(store), column, key), read_before),
        call_ensures(S::get_bytes, (final(store), column, key), read_after),
        call_ensures(S::key_exists, (old(store), column, key), found_before),
        call_ensures(S::key_exists, (final(store), column, key), found_after),
    ensures
        final(store).contents() == old(store).contents(),
        read_before is Ok && read_after is Ok ==> match (read_before->Ok_0, read_after->Ok_0) {
            (Some(before), Some(after)) => before@ == after@,
            (None, None) => true,
            _ => false,
        },
        found_before is Ok && found_after is Ok ==> found_before->Ok_0 == found_after->Ok_0,
{
}

/// An iteration that reads keys as bytes, and meets no failure, gives whole entries, with ascending keys
/// none of which comes before the starting point.
pub proof fn iteration_ascends_from_its_start<E: EthSpec, S: KeyValueStore<E>>(
    store: &S,
    column: DBColumn,
    from: &[u8],
    entries: ColumnIter<Vec<u8>>,
    i: int,
    j: int,
)
    requires
        call_ensures(S::iter_column_from::<Vec<u8>>, (store, column, from), entries),
        forall|n: int|
            0 <= n < entries@.len() ==> !(#[trigger] entries@[n] matches Err(error)
                && S::fails_with(error)),
        0 <= i < j < entries@.len(),
    ensures
        entries@[i] is Ok,
        entries@[j] is Ok,
        precedes(entries@[i]->Ok_0.0@, entries@[j]->Ok_0.0@),
        !precedes(entries@[i]->Ok_0.0@, from@),
        !precedes(entries@[j]->Ok_0.0@, from@),
{
    let keys = lemma_listed_entries(store.contents(), column, from@, entries@);
    assert(is_entry(store.contents(), column, keys[i], entries@[i]));
    assert(is_entry(store.contents(), column, keys[j], entries@[j]));
}

/// An iteration that reads keys as bytes, and meets no failure, gives exactly the entries that exist from
/// its starting point on, each with the value that is read under its key.
pub proof fn iteration_gives_what_exists<E: EthSpec, S: KeyValueStore<E>>(
    store: &S,
    column: DBColumn,
    from: &[u8],
    entries: ColumnIter<Vec<u8>>,
    name: &str,
    key: &[u8],
    read: Option<Vec<u8>>,
    found: bool,
)
    requires
        call_ensures(S::iter_column_from::<Vec<u8>>, (store, column, from), entries),
        forall|n: int|
            0 <= n < entries@.len() ==> !(#[trigger] entries@[n] matches Err(error)
                && S::fails_with(error)),
        name@ == column.name(),
        call_ensures(S::get_bytes, (store, name, key), Ok(read)),
        call_ensures(S::key_exists, (store, name, key), Ok(found)),
    ensures
        forall|i: int|
            0 <= i < entries@.len() && (#[trigger] entries@[i])->Ok_0.0@ == key@ ==> found
                && !precedes(key@, from@) && entries@[i] is Ok && read is Some
                && entries@[i]->Ok_0.1@ == read->0@,
        found && !precedes(key@, from@) ==> exists|i: int|
            0 <= i < entries@.len() && #[trigger] entries@[i] is Ok && entries@[i]->Ok_0.0@
                == key@ && read is Some && entries@[i]->Ok_0.1@ == read->0@,
{
    let db = store.contents();
    let keys = lemma_listed_entries(db, column, from@, entries@);
    listing_is_ascending_and_exact(db, column, from@, keys);
    assert forall|i: int|
        0 <= i < entries@.len() && (#[trigger] entries@[i])->Ok_0.0@ == key@ implies found
        && !precedes(key@, from@) && entries@[i] is Ok && read is Some && entries@[i]->Ok_0.1@
        == read->0@ by {
        assert(is_entry(db, column, keys[i], entries@[i]));
        assert(keys.contains(keys[i]));
    }
    if found && !precedes(key@, from@) {
        assert(keys.contains(key@));
        let i = choose|i: int| 0 <= i < keys.len() && keys[i] == key@;
        assert(is_entry(db, column, keys[i], entries@[i]));
        assert(entries@[i] is Ok);
    }
}

/// Where the keys of a column are numbers in big-endian form, all of one length, an iteration from a
/// number on gives the entries whose numbers are not less, in the ascending order of their numbers.
pub proof fn iteration_follows_the_numbers<E: EthSpec, S: KeyValueStore<E>>(
    store: &S,
    column: DBColumn,
    from: &[u8],
    entries: ColumnIter<Vec<u8>>,
    name: &str,
    key: &[u8],
    found: bool,
    i: int,
    j: int,
)
    requires
        call_ensures(S::iter_column_from::<Vec<u8>>, (store, column, from), entries),
        forall|n: int|
            0 <= n < entries@.len() ==> (#[trigger] entries@[n] matches Ok((k, _)) && k@.len()
                == from@.len()),
        name@ == column.name(),
        key@.len() == from@.len(),
        call_ensures(S::key_exists, (store, name, key), Ok(found)),
    ensures
        0 <= i < entries@.len() ==> big_endian(entries@[i]->Ok_0.0@) >= big_endian(from@),
        0 <= i < j < entries@.len() ==> big_endian(entries@[i]->Ok_0.0@) < big_endian(
            entries@[j]->Ok_0.0@,
        ),
        found && big_endian(key@) >= big_endian(from@) <==> exists|n: int|
            0 <= n < entries@.len() && (#[trigger] entries@[n])->Ok_0.0@ == key@,
{
    let db = store.contents();
    let keys = lemma_listed_entries(db, column, from@, entries@);
    listing_is_ascending_and_exact(db, column, from@, keys);
    assert forall|n: int| 0 <= n < entries@.len() implies (#[trigger] entries@[n])->Ok_0.0@
        == keys[n] && keys.contains(keys[n]) by {
        assert(is_entry(db, column, keys[n], entries@[n]));
    }
    if 0 <= i < entries@.len() {
        order_is_numeric(entries@[i]->Ok_0.0@, from@);
        if i < j < entries@.len() {
            order_is_numeric(entries@[i]->Ok_0.0@, entries@[j]->Ok_0.0@);
        }
    }
    order_is_numeric(key@, from@);
    if keys.contains(key@) {
        let n = choose|n: int| 0 <= n < keys.len() && keys[n] == key@;
        assert(entries@[n]->Ok_0.0@ == key@);
    }
}

/// An iteration that reads keys as hashes, and meets no failure, gives the hash and the value of every
/// entry from its starting point on whose key has 32 bytes, and an error for every other; nothing else
/// has a place in it.
pub proof fn iteration_of_hashes_gives_what_exists<E: EthSpec, S: KeyValueStore<E>>(
    store: &S,
    column: DBColumn,
    from: &[u8],
    entries: ColumnIter<Hash256>,
    name: &str,
    key: &[u8],
    read: Option<Vec<u8>>,
    found: bool,
)
    requires
        call_ensures(S::iter_column_from::<Hash256>, (store, column, from), entries),
        forall|n: int|
            0 <= n < entries@.len() ==> !(#[trigger] entries@[n] matches Err(error)
                && S::fails_with(error)),
        name@ == column.name(),
        call_ensures(S::get_bytes, (store, name, key), Ok(read)),
        call_ensures(S::key_exists, (store, name, key), Ok(found)),
    ensures
        forall|i: int|
            0 <= i < entries@.len() ==> #[trigger] entries@[i] is Ok || entries@[i]->Err_0
                == Error::InvalidKey,
        forall|i: int|
            0 <= i < entries@.len() && #[trigger] entries@[i] is Ok && entries@[i]->Ok_0.0@
                == key@ ==> found && !precedes(key@, from@) && read is Some
                && entries@[i]->Ok_0.1@ == read->0@,
        found && !precedes(key@, from@) && key@.len() == 32 ==> exists|i: int|
            0 <= i < entries@.len() && #[trigger] entries@[i] is Ok && entries@[i]->Ok_0.0@
                == key@ && read is Some && entries@[i]->Ok_0.1@ == read->0@,
        found && !precedes(key@, from@) && key@.len() != 32 ==> exists|i: int|
            0 <= i < entries@.len() && #[trigger] entries@[i] is Err,
        forall|i: int, j: int|
            0 <= i < j < entries@.len() && #[trigger] entries@[i] is Ok
                && #[trigger] entries@[j] is Ok ==> precedes(
                entries@[i]->Ok_0.0@,
                entries@[j]->Ok_0.0@,
            ),
{
    let db = store.contents();
    let keys = lemma_listed_entries(db, column, from@, entries@);
    listing_is_ascending_and_exact(db, column, from@, keys);
    assert forall|i: int| 0 <= i < entries@.len() implies keys.contains(keys[i]) && is_entry(
        db,
        column,
        keys[i],
        #[trigger] entries@[i],
    ) by {}
    if found && !precedes(key@, from@) {
        assert(keys.contains(key@));
        let i = choose|i: int| 0 <= i < keys.len() && keys[i] == key@;
        assert(is_entry(db, column, keys[i], entries@[i]));
        if key@.len() == 32 {
            assert(entries@[i] is Ok);
        } else {
            assert(entries@[i] is Err);
        }
    }
}

/// An iteration through a whole column that reads keys as bytes, and meets no failure, gives every entry
/// that exists, but for those whose key is a string of zeros that is shorter than the keys of the column;
/// it gives nothing else, and its keys ascend.
pub proof fn iteration_goes_through_the_column<E: EthSpec, S: KeyValueStore<E>>(
    store: &S,
    column: DBColumn,
    entries: ColumnIter<Vec<u8>>,
    name: &str,
    key: &[u8],
    read: Option<Vec<u8>>,
    found: bool,
    size: usize,
)
    requires
        lists_entries(store.contents(), column, zeros(column.key_len()), entries@),
        name@ == column.name(),
        call_ensures(S::get_bytes, (store, name, key), Ok(read)),
        call_ensures(S::key_exists, (store, name, key), Ok(found)),
        call_ensures(DBColumn::key_size, (column,), size),
    ensures
        found && !(key@.len() < size && forall|n: int|
            0 <= n < key@.len() ==> #[trigger] key@[n] == 0) <==> exists|i: int|
            0 <= i < entries@.len() && #[trigger] entries@[i] is Ok && entries@[i]->Ok_0.0@
                == key@ && read is Some && entries@[i]->Ok_0.1@ == read->0@,
        forall|i: int| 0 <= i < entries@.len() ==> #[trigger] entries@[i] is Ok,
        forall|i: int, j: int|
            0 <= i < j < entries@.len() ==> precedes(
                (#[trigger] entries@[i])->Ok_0.0@,
                (#[trigger] entries@[j])->Ok_0.0@,
            ),
{
    let db = store.contents();
    let from = zeros(column.key_len());
    let keys = lemma_listed_entries(db, column, from, entries@);
    listing_is_ascending_and_exact(db, column, from, keys);
    precedes_zeros(key@, column.key_len());
    if forall|n: int| 0 <= n < key@.len() ==> #[trigger] key@[n] == 0 {
        assert(key@ =~= zeros(key@.len()));
    }
    assert forall|i: int| 0 <= i < entries@.len() implies keys.contains(keys[i]) && is_entry(
        db,
        column,
        keys[i],
        #[trigger] entries@[i],
    ) by {}
    if keys.contains(key@) {
        let i = choose|i: int| 0 <= i < keys.len() && keys[i] == key@;
        assert(entries@[i] is Ok);
    }
}

/// An iteration through the keys of a column, as bytes, that meets no failure gives every key that
/// exists and no other, in ascending order.
pub proof fn keys_given_are_those_that_exist<E: EthSpec, S: KeyValueStore<E>>(
    store: &S,
    column: DBColumn,
    keys: ColumnKeyIter<Vec<u8>>,
    name: &str,
    key: &[u8],
    found: bool,
)
    requires
        call_ensures(S::iter_column_keys::<Vec<u8>>, (store, column), keys),
        forall|n: int|
            0 <= n < keys@.len() ==> !(#[trigger] keys@[n] matches Err(error) && S::fails_with(
                error,
            )),
        name@ == column.name(),
        call_ensures(S::key_exists, (store, name, key), Ok(found)),
    ensures
        found <==> exists|i: int|
            0 <= i < keys@.len() && #[trigger] keys@[i] is Ok && keys@[i]->Ok_0@ == key@,
        forall|i: int| 0 <= i < keys@.len() ==> #[trigger] keys@[i] is Ok,
        forall|i: int, j: int|
            0 <= i < j < keys@.len() ==> precedes(
                (#[trigger] keys@[i])->Ok_0@,
                (#[trigger] keys@[j])->Ok_0@,
            ),
{
    let listed = lemma_listed_keys(store.contents(), column, keys@);
    listing_is_ascending_and_exact(store.contents(), column, Seq::empty(), listed);
    assert forall|i: int| 0 <= i < keys@.len() implies listed.contains(listed[i])
        && #[trigger] keys@[i] is Ok && keys@[i]->Ok_0@ == listed[i] by {
        assert(<Vec<u8> as Key>::reads_as(listed[i], keys@[i]));
    }
    if found {
        assert(listed.contains(key@));
        let i = choose|i: int| 0 <= i < listed.len() && listed[i] == key@;
        assert(keys@[i] is Ok);
    }
}

/// An iteration through the keys of a column, as hashes, that meets no failure gives every key that
/// exists and has 32 bytes, and an error for every other key; nothing else has a place in it.
pub proof fn hashes_given_are_those_that_exist<E: EthSpec, S: KeyValueStore<E>>(
    store: &S,
    column: DBColumn,
    keys: ColumnKeyIter<Hash256>,
    name: &str,
    key: &[u8],
    found: bool,
)
    requires
        call_ensures(S::iter_column_keys::<Hash256>, (store, column), keys),
        forall|n: int|
            0 <= n < keys@.len() ==> !(#[trigger] keys@[n] matches Err(error) && S::fails_with(
                error,
            )),
        name@ == column.name(),
        call_ensures(S::key_exists, (store, name, key), Ok(found)),
    ensures
        found && key@.len() == 32 <==> exists|i: int|
            0 <= i < keys@.len() && #[trigger] keys@[i] is Ok && keys@[i]->Ok_0@ == key@,
        found && key@.len() != 32 ==> exists|i: int|
            0 <= i < keys@.len() && #[trigger] keys@[i] is Err,
        forall|i: int|
            0 <= i < keys@.len() ==> #[trigger] keys@[i] is Ok || keys@[i]->Err_0
                == Error::InvalidKey,
        forall|i: int, j: int|
            0 <= i < j < keys@.len() && #[trigger] keys@[i] is Ok && #[trigger] keys@[j] is Ok
                ==> precedes(keys@[i]->Ok_0@, keys@[j]->Ok_0@),
{
    let listed = lemma_listed_keys(store.contents(), column, keys@);
    listing_is_ascending_and_exact(store.contents(), column, Seq::empty(), listed);
    assert forall|i: int| 0 <= i < keys@.len() implies listed.contains(listed[i])
        && Hash256::reads_as(listed[i], #[trigger] keys@[i]) by {}
    if found {
        assert(listed.contains(key@));
        let i = choose|i: int| 0 <= i < listed.len() && listed[i] == key@;
        assert(Hash256::reads_as(listed[i], keys@[i]));
        if key@.len() == 32 {
            assert(keys@[i] is Ok);
        } else {
            assert(keys@[i] is Err);
        }
    }
}

/// The keys of a column and its entries from the very first key on, both read as bytes and without
/// failure, are as many, and agree place by place.
pub proof fn keys_given_are_those_of_the_entries<E: EthSpec, S: KeyValueStore<E>>(
    store: &S,
    column: DBColumn,
    from: &[u8],
    keys: ColumnKeyIter<Vec<u8>>,
    entries: ColumnIter<Vec<u8>>,
    i: int,
)
    requires
        from@.len() == 0,
        call_ensures(S::iter_column_keys::<Vec<u8>>, (store, column), keys),
        call_ensures(S::iter_column_from::<Vec<u8>>, (store, column, from), entries),
        forall|n: int| 0 <= n < keys@.len() ==> #[trigger] keys@[n] is Ok,
        forall|n: int| 0 <= n < entries@.len() ==> #[trigger] entries@[n] is Ok,
    ensures
        keys@.len() == entries@.len(),
        0 <= i < keys@.len() ==> keys@[i]->Ok_0@ == entries@[i]->Ok_0.0@,
{
    let db = store.contents();
    assert(from@ =~= Seq::empty());
    let a = lemma_listed_keys(db, column, keys@);
    let b = lemma_listed_entries(db, column, from@, entries@);
    listing_is_unique(db, column, Seq::empty(), a, b);
    if 0 <= i < keys@.len() {
        assert(<Vec<u8> as Key>::reads_as(a[i], keys@[i]));
        assert(is_entry(db, column, b[i], entries@[i]));
    }
}

/// Compacting the default set of columns compacts states, summaries of states and blocks, in this order
/// and each once, up to the first failure, which it returns.
pub proof fn compaction_stops_at_the_first_failure<E: EthSpec, S: KeyValueStore<E>>(
    store: &mut S,
    r: Result<(), Error>,
)
    requires
        call_ensures(S::compact, (store,), r),
    ensures
        ({
            let before = old(store).history();
            let after = final(store).history();
            let state = Operation::CompactColumn(DBColumn::BeaconState);
            let summary = Operation::CompactColumn(DBColumn::BeaconStateSummary);
            let block = Operation::CompactColumn(DBColumn::BeaconBlock);
            match r {
                Ok(_) => after == before.push((state, Ok(()))).push((summary, Ok(()))).push(
                    (block, Ok(())),
                ),
                Err(_) => {
                    ||| after == before.push((state, r))
                    ||| after == before.push((state, Ok(()))).push((summary, r))
                    ||| after == before.push((state, Ok(()))).push((summary, Ok(()))).push(
                        (block, r),
                    )
                },
            }
        }),
{
    compaction_goes_through_states_and_blocks(old(store).history(), final(store).history(), r);
}

/// A store that was just opened holds nothing: no key exists, nothing is read, and iterations are empty.
pub proof fn opened_store_is_empty<E: EthSpec>(
    store: &MemoryStore<E>,
    column: &str,
    key: &[u8],
    read: Result<Option<Vec<u8>>, Error>,
    found: Result<bool, Error>,
    iterated: DBColumn,
    from: &[u8],
    entries: ColumnIter<Vec<u8>>,
    keys: ColumnKeyIter<Vec<u8>>,
)
    requires
        call_ensures(MemoryStore::<E>::open, (), *store),
        call_ensures(MemoryStore::<E>::get_bytes, (store, column, key), read),
        call_ensures(MemoryStore::<E>::key_exists, (store, column, key), found),
        call_ensures(
            MemoryStore::<E>::iter_column_from::<Vec<u8>>,
            (store, iterated, from),
            entries,
        ),
        call_ensures(MemoryStore::<E>::iter_column_keys::<Vec<u8>>, (store, iterated), keys),
    ensures
        read == Ok::<Option<Vec<u8>>, Error>(None),
        found == Ok::<bool, Error>(false),
        entries@.len() == 0,
        keys@.len() == 0,
{
    let a = lemma_listed_entries(store.contents(), iterated, from@, entries@);
    let b = lemma_listed_keys(store.contents(), iterated, keys@);
    assert(a.len() > 0 ==> store.contents().dom().contains(db_key(iterated.name(), a[0])));
    assert(b.len() > 0 ==> store.contents().dom().contains(db_key(iterated.name(), b[0])));
}

/// Reading from a store in memory never fails, nor does asking whether a key exists.
pub proof fn reading_memory_succeeds<E: EthSpec>(
    store: &MemoryStore<E>,
    column: &str,
    key: &[u8],
    read: Result<Option<Vec<u8>>, Error>,
    found: Result<bool, Error>,
)
    requires
        call_ensures(MemoryStore::<E>::get_bytes, (store, column, key), read),
        call_ensures(MemoryStore::<E>::key_exists, (store, column, key), found),
    ensures
        read is Ok,
        found is Ok,
        read->Ok_0 is Some <==> found->Ok_0,
{
}

/// No change of a store in memory fails.
pub proof fn changing_memory_succeeds<E: EthSpec>(
    store: &mut MemoryStore<E>,
    column: &str,
    key: &[u8],
    value: &[u8],
    batch: Vec<KeyValueStoreOp>,
    compacted: DBColumn,
    r: Result<(), Error>,
)
    requires
        call_ensures(MemoryStore::<E>::put_bytes, (store, column, key, value), r) || call_ensures(
            MemoryStore::<E>::put_bytes_sync,
            (store, column, key, value),
            r,
        ) || call_ensures(MemoryStore::<E>::key_delete, (store, column, key), r) || call_ensures(
            MemoryStore::<E>::do_atomically,
            (store, batch),
            r,
        ) || call_ensures(MemoryStore::<E>::sync, (store,), r) || call_ensures(
            MemoryStore::<E>::compact_column,
            (store, compacted),
            r,
        ) || call_ensures(MemoryStore::<E>::compact, (store,), r),
    ensures
        r is Ok,
{
    if r is Err {
        assert(!MemoryStore::<E>::fails_with(r->Err_0));
    }
}

/// Iterations of a store in memory meet no failure: a key is always read as bytes, and is read as a hash
/// unless it has not 32 bytes.
pub proof fn iterating_memory_succeeds<E: EthSpec>(
    store: &MemoryStore<E>,
    column: DBColumn,
    from: &[u8],
    entries: ColumnIter<Vec<u8>>,
    keys: ColumnKeyIter<Vec<u8>>,
    hashes: ColumnKeyIter<Hash256>,
    i: int,
)
    requires
        call_ensures(
            MemoryStore::<E>::iter_column_from::<Vec<u8>>,
            (store, column, from),
            entries,
        ),
        call_ensures(MemoryStore::<E>::iter_column_keys::<Vec<u8>>, (store, column), keys),
        call_ensures(MemoryStore::<E>::iter_column_keys::<Hash256>, (store, column), hashes),
    ensures
        0 <= i < entries@.len() ==> entries@[i] is Ok,
        0 <= i < keys@.len() ==> keys@[i] is Ok,
        hashes@.len() == keys@.len(),
        0 <= i < keys@.len() && keys@[i]->Ok_0@.len() == 32 ==> hashes@[i] is Ok
            && hashes@[i]->Ok_0@ == keys@[i]->Ok_0@,
        0 <= i < keys@.len() && keys@[i]->Ok_0@.len() != 32 ==> hashes@[i] == Err::<
            Hash256,
            Error,
        >(Error::InvalidKey),
{
    let db = store.contents();
    let a = lemma_listed_entries(db, column, from@, entries@);
    let b = lemma_listed_keys(db, column, keys@);
    let c = lemma_listed_keys(db, column, hashes@);
    listing_is_unique(db, column, Seq::empty(), b, c);
    if 0 <= i < entries@.len() {
        assert(is_entry(db, column, a[i], entries@[i]));
    }
    if 0 <= i < keys@.len() {
        assert(<Vec<u8> as Key>::reads_as(b[i], keys@[i]));
        assert(Hash256::reads_as(c[i], hashes@[i]));
    }
}

/// A store in memory has no raw entries and no raw keys to iterate through.
pub proof fn raw_iterations_of_memory_are_empty<E: EthSpec>(
    store: &MemoryStore<E>,
    column: DBColumn,
    prefix: &[u8],
    entries: RawEntryIter,
    keys: RawKeyIter,
)
    requires
        call_ensures(MemoryStore::<E>::iter_raw_entries, (store, column, prefix), entries),
        call_ensures(MemoryStore::<E>::iter_raw_keys, (store, column, prefix), keys),
    ensures
        entries@.len() == 0,
        keys@.len() == 0,
{
}

/// The bytes of an item that was put are those that are read in the column of its kind under its key.
pub proof fn item_is_stored_as_its_bytes<E: EthSpec, S: ItemStore<E>, I: StoreItem>(
    store: &S,
    before: Contents,
    key: Hash256,
    item: I,
    name: &str,
    bytes: &[u8],
    read: Result<Option<Vec<u8>>, Error>,
    found: Result<bool, Error>,
)
    requires
        changes_one_entry(
            before,
            before.insert(item_key::<I>(key@), item.encoding()),
            store.contents(),
            Ok(()),
        ),
        name@ == I::column().name(),
        bytes@ == key@,
        call_ensures(S::get_bytes, (store, name, bytes), read),
        call_ensures(S::key_exists, (store, name, bytes), found),
    ensures
        read is Ok ==> read->Ok_0 is Some && read->Ok_0->0@ == item.encoding(),
        found is Ok ==> found->Ok_0,
{
}

/// The operation that an item makes of itself, carried out, stores the bytes of the item in the column
/// of its kind under its key.
pub proof fn operation_of_item_stores_its_bytes<E: EthSpec, S: ItemStore<E>, I: StoreItem>(
    store: &mut S,
    key: Hash256,
    item: &I,
    op: KeyValueStoreOp,
    batch: Vec<KeyValueStoreOp>,
    name: &str,
    bytes: &[u8],
    read: Result<Option<Vec<u8>>, Error>,
    found: Result<bool, Error>,
)
    requires
        call_ensures(I::as_kv_store_op, (item, key), op),
        batch@ == seq![op],
        call_ensures(S::do_atomically, (store, batch), Ok(())),
        name@ == I::column().name(),
        bytes@ == key@,
        call_ensures(S::get_bytes, (final(store), name, bytes), read),
        call_ensures(S::key_exists, (final(store), name, bytes), found),
    ensures
        read is Ok ==> read->Ok_0 is Some && read->Ok_0->0@ == item.encoding(),
        found is Ok ==> found->Ok_0,
{
    batch_of_one_is_carried_out::<E, S>(store, batch, op, name, bytes, read, found);
}

/// A read that failed gives that failure, one that found nothing gives no item, and bytes that were read
/// give what they decode as.
pub proof fn item_is_retrieved_from_a_read<I: StoreItem>(
    read: Result<Option<Vec<u8>>, Error>,
    r: Result<Option<I>, Error>,
)
    requires
        call_ensures(retrieve_item::<I>, (read,), r),
    ensures
        match read {
            Err(error) => r == Err::<Option<I>, Error>(error),
            Ok(None) => r == Ok::<Option<I>, Error>(None),
            Ok(Some(bytes)) => match r {
                Ok(Some(item)) => I::decodes_as(bytes@, Ok(item)),
                Ok(None) => false,
                Err(error) => I::decodes_as(bytes@, Err(error)),
            },
        },
{
}

/// A database key is the bytes of the column's name followed by the key; its column is read from it again
/// if the name takes three bytes, and is the text of its first three bytes in any case.
pub proof fn database_key_begins_with_its_column(
    column: &str,
    key: &[u8],
    made: Vec<u8>,
    bytes: &[u8],
    read: Option<String>,
)
    requires
        call_ensures(get_key_for_col, (column, key), made),
        bytes@ == made@,
        call_ensures(get_col_from_key, (bytes,), read),
    ensures
        made@.len() == encode_utf8(column@).len() + key@.len(),
        made@.subrange(0, encode_utf8(column@).len() as int) == encode_utf8(column@),
        made@.subrange(encode_utf8(column@).len() as int, made@.len() as int) == key@,
        encode_utf8(column@).len() == 3 ==> read is Some && read->0@ == column@,
{
    let head = encode_utf8(column@);
    assert(made@.subrange(0, head.len() as int) =~= head);
    assert(made@.subrange(head.len() as int, made@.len() as int) =~= key@);
    column_is_the_text_of_three_bytes(made@, column@);
}

/// The column of any bytes is the text that their first three encode, and they have none exactly where
/// they are fewer or encode no text.
pub proof fn column_is_text_at_the_head(key: &[u8], read: Option<String>)
    requires
        call_ensures(get_col_from_key, (key,), read),
    ensures
        read is Some <==> key@.len() >= 3 && valid_utf8(key@.subrange(0, 3)),
        read is Some ==> encode_utf8(read->0@) == key@.subrange(0, 3),
{
    column_is_the_text_of_three_bytes(key@, read->0@);
}

/// Bytes are read as a byte key without loss, whatever their number.
pub proof fn byte_key_is_read_whole(key: &[u8], r: Result<Vec<u8>, Error>)
    requires
        call_ensures(<Vec<u8> as Key>::from_bytes, (key,), r),
    ensures
        r is Ok,
        r->Ok_0@ == key@,
{
}

/// Exactly 32 bytes are read as a hash, without loss, and other numbers of bytes are refused.
pub proof fn hash_key_is_read_whole(key: &[u8], r: Result<Hash256, Error>, bytes: &[u8])
    requires
        call_ensures(<Hash256 as Key>::from_bytes, (key,), r),
    ensures
        r is Ok <==> key@.len() == 32,
        r is Ok && call_ensures(Hash256::as_bytes, (&r->Ok_0,), bytes) ==> bytes@ == key@,
        r is Err ==> r->Err_0 == Error::InvalidKey,
{
}

/// A hash that is made of 32 bytes has those bytes.
pub proof fn hash_keeps_its_bytes(src: &[u8], hash: Hash256, bytes: &[u8])
    requires
        src@.len() == 32,
        call_ensures(Hash256::from_slice, (src,), hash),
        call_ensures(Hash256::as_bytes, (&hash,), bytes),
    ensures
        bytes@ == src@,
{
}

/// The name of a column, and no other text, is read as that column; text that is the name of none is
/// refused; and the bytes of a column are those of its name.
pub proof fn column_is_read_from_its_name(
    column: DBColumn,
    name: &'static str,
    bytes: &'static [u8],
    text: &str,
    r: Result<DBColumn, ParseError>,
)
    requires
        call_ensures(DBColumn::as_str, (column,), name),
        call_ensures(DBColumn::as_bytes, (column,), bytes),
        call_ensures(DBColumn::from_name, (text,), r) || call_ensures(
            <DBColumn as TryFrom<&str>>::try_from,
            (text,),
            r,
        ),
    ensures
        bytes@ == encode_utf8(name@),
        r == Ok::<DBColumn, ParseError>(column) <==> text@ == name@,
        r == Err::<DBColumn, ParseError>(ParseError::VariantNotFound) <==> forall|c: DBColumn|
            #[trigger] c.name() != text@,
{
    text_names_at_most_one_column(text@, column);
}

/// A column, and a reference to one, become the name of the column.
pub proof fn column_becomes_its_name(
    column: DBColumn,
    name: &'static str,
    by_value: &'static str,
    by_reference: &'static str,
)
    requires
        call_ensures(DBColumn::as_str, (column,), name),
        call_ensures(<&'static str as From<DBColumn>>::from, (column,), by_value),
        call_ensures(<&'static str as From<&DBColumn>>::from, (&column,), by_reference),
    ensures
        name@ == column.name(),
        by_value@ == name@,
        by_reference@ == name@,
{
}

/// Byte strings are compared byte by byte, as numbers: the first one comes before the second if and only
/// if, after a head that they share, it ends and the second does not, or it goes on with a smaller byte.
pub proof fn bytes_are_compared_lexicographically(a: &[u8], b: &[u8], before: bool, equal: bool)
    requires
        call_ensures(bytes_precede, (a, b), before),
        call_ensures(bytes_equal, (a, b), equal),
    ensures
        before <==> exists|i: int|
            {
                &&& 0 <= i <= a@.len()
                &&& i <= b@.len()
                &&& #[trigger] a@.take(i) == b@.take(i)
                &&& (i == a@.len() < b@.len()) || (i < a@.len() && i < b@.len() && (a@[i] as int)
                    < (b@[i] as int))
            },
        equal <==> a@.len() == b@.len() && forall|i: int|
            0 <= i < a@.len() ==> #[trigger] a@[i] == b@[i],
{
    order_is_lexicographic(a@, b@);
    if a@.len() == b@.len() && forall|i: int| 0 <= i < a@.len() ==> #[trigger] a@[i] == b@[i] {
        assert(a@ =~= b@);
    }
}

/// A byte string has a head if and only if it goes on from it.
pub proof fn head_is_what_bytes_begin_with(bytes: &[u8], head: &[u8], r: bool)
    requires
        call_ensures(has_head, (bytes, head), r),
    ensures
        r <==> head@.len() <= bytes@.len() && forall|i: int|
            0 <= i < head@.len() ==> #[trigger] head@[i] == bytes@[i],
{
    if head@.len() <= bytes@.len() && forall|i: int|
        0 <= i < head@.len() ==> #[trigger] head@[i] == bytes@[i] {
        assert(head@ =~= bytes@.subrange(0, head@.len() as int));
    }
    if r {
        assert forall|i: int| 0 <= i < head@.len() implies #[trigger] head@[i] == bytes@[i] by {
            assert(bytes@.subrange(0, head@.len() as int)[i] == bytes@[i]);
        }
    }
}

/// The keys of the entries that an iteration lists.
proof fn lemma_listed_entries<K: Key>(
    db: Contents,
    column: DBColumn,
    from: Seq<u8>,
    entries: Seq<Result<(K, Vec<u8>), Error>>,
) -> (keys: Seq<Seq<u8>>)
    requires
        lists_entries(db, column, from, entries),
    ensures
        is_column_listing(db, column, from, keys),
        entries.len() == keys.len(),
        forall|i: int|
            0 <= i < keys.len() ==> is_entry(db, column, keys[i], #[trigger] entries[i]),
{
    choose|keys: Seq<Seq<u8>>|
        {
            &&& #[trigger] is_column_listing(db, column, from, keys)
            &&& entries.len() == keys.len()
            &&& forall|i: int|
                0 <= i < keys.len() ==> is_entry(db, column, keys[i], #[trigger] entries[i])
        }
}

/// The keys that an iteration through keys lists, as bytes.
proof fn lemma_listed_keys<K: Key>(
    db: Contents,
    column: DBColumn,
    read: Seq<Result<K, Error>>,
) -> (keys: Seq<Seq<u8>>)
    requires
        lists_keys(db, column, read),
    ensures
        is_column_listing(db, column, Seq::empty(), keys),
        read.len() == keys.len(),
        forall|i: int| 0 <= i < keys.len() ==> K::reads_as(keys[i], #[trigger] read[i]),
{
    choose|keys: Seq<Seq<u8>>|
        {
            &&& #[trigger] is_column_listing(db, column, Seq::empty(), keys)
            &&& read.len() == keys.len()
            &&& forall|i: int| 0 <= i < keys.len() ==> K::reads_as(keys[i], #[trigger] read[i])
        }
}

} // verus!

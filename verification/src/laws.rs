//! What holds of the store as a whole.
use vstd::prelude::*;
use vstd::seq_lib::seq_to_set_is_finite;
use vstd::utf8::*;

use crate::bytes::{
    precedes, precedes_is_irreflexive, precedes_is_transitive, precedes_zeros, zeros,
};
use crate::column::{
    column_named, names_are_three_ascii_characters, names_identify_columns, DBColumn, ParseError,
};
use crate::errors::Error;
use crate::hash::Hash256;
use crate::item::{bytes_read, handles_read, item_key, retrieves_as, StoreItem};
use crate::item_store::{delete_operation, put_operation, put_sync_operation};
use crate::keys::{column_of_key, db_key, Key};
use crate::kv::{
    changes_one_entry, compacted, compacts_in_turn, finds_entries, is_column_listing, is_entry,
    is_some_entry, is_some_key, lists_entries, lists_keys, lookup, planned_compaction, reads_found,
    Event, FoundEntry, KeyValueStore, Operation,
};
use crate::memory_store::MemoryStore;
use crate::ops::{apply_batch, Contents, EthSpec, KeyValueStoreOp};

verus! {

/// The column of a database key is the one that the key was made for, whatever the key, for every
/// column whose name takes three bytes.
pub proof fn column_is_read_from_its_keys(column: Seq<char>, key: Seq<u8>)
    requires
        encode_utf8(column).len() == 3,
    ensures
        column_of_key(db_key(column, key)) == Some(column),
{
    assert(db_key(column, key).take(3) =~= encode_utf8(column));
    encode_utf8_valid_utf8(column);
    encode_utf8_decode_utf8(column);
}

/// Every column of the database is read from its keys.
pub proof fn database_column_is_read_from_its_keys(column: DBColumn, key: Seq<u8>)
    ensures
        column_of_key(db_key(column.name(), key)) == Some(column.name()),
{
    names_are_three_ascii_characters(column);
    column_is_read_from_its_keys(column.name(), key);
}

/// A database key from which a column can be read is the one that is made of that column and of
/// the bytes after the third.
pub proof fn key_is_made_of_its_column(key: Seq<u8>)
    requires
        column_of_key(key) is Some,
    ensures
        db_key(column_of_key(key)->0, key.skip(3)) == key,
{
    decode_utf8_encode_utf8(key.take(3));
    assert(key.take(3) + key.skip(3) =~= key);
}

/// Keys of different columns, and different keys of one column, never make the same database key.
pub proof fn database_keys_do_not_clash(
    column1: DBColumn,
    key1: Seq<u8>,
    column2: DBColumn,
    key2: Seq<u8>,
)
    ensures
        db_key(column1.name(), key1) == db_key(column2.name(), key2) <==> column1 == column2
            && key1 == key2,
{
    names_are_three_ascii_characters(column1);
    names_are_three_ascii_characters(column2);
    if db_key(column1.name(), key1) == db_key(column2.name(), key2) {
        let key = db_key(column1.name(), key1);
        assert(key.take(3) =~= column1.prefix());
        assert(key.take(3) =~= column2.prefix());
        names_identify_columns(column1, column2);
        assert(key.skip(3) =~= key1);
        assert(key.skip(3) =~= key2);
    }
}

/// The bytes of a hash are read as that hash.
pub proof fn hash_reads_back(hash: Hash256, r: Result<Hash256, Error>)
    requires
        Hash256::reads_as(hash@, r),
    ensures
        r == Ok::<Hash256, Error>(hash),
{
    Hash256::hash_is_its_bytes(hash, r->Ok_0);
}

/// After an item was put, reading it gives what its own bytes decode as.
pub proof fn put_then_get<I: StoreItem>(
    db: Contents,
    key: Hash256,
    item: I,
    r: Result<Option<I>, Error>,
)
    requires
        retrieves_as(
            lookup(db.insert(item_key::<I>(key@), item.encoding()), item_key::<I>(key@)),
            r,
        ),
    ensures
        match r {
            Ok(Some(retrieved)) => I::decodes_as(item.encoding(), Ok(retrieved)),
            Ok(None) => false,
            Err(error) => I::decodes_as(item.encoding(), Err(error)),
        },
{
}

/// After an item was put, reading it gives it back, if the item is one that its bytes decode as.
pub proof fn put_then_get_gives_back<I: StoreItem>(
    db: Contents,
    key: Hash256,
    item: I,
    r: Result<Option<I>, Error>,
)
    requires
        forall|d: Result<I, Error>| #[trigger]
            I::decodes_as(item.encoding(), d) ==> d == Ok::<I, Error>(item),
        retrieves_as(
            lookup(db.insert(item_key::<I>(key@), item.encoding()), item_key::<I>(key@)),
            r,
        ),
    ensures
        r == Ok::<Option<I>, Error>(Some(item)),
{
    put_then_get(db, key, item, r);
}

/// After an item was put it exists; after it was deleted it does not, and reading it gives nothing.
pub proof fn item_exists_until_deleted<I: StoreItem>(
    db: Contents,
    key: Hash256,
    item: I,
    r: Result<Option<I>, Error>,
)
    requires
        retrieves_as(lookup(db.remove(item_key::<I>(key@)), item_key::<I>(key@)), r),
    ensures
        db.insert(item_key::<I>(key@), item.encoding()).dom().contains(item_key::<I>(key@)),
        !db.remove(item_key::<I>(key@)).dom().contains(item_key::<I>(key@)),
        r == Ok::<Option<I>, Error>(None),
{
}

/// Reading an item gives nothing exactly where the item does not exist.
pub proof fn item_is_missing_where_it_does_not_exist<I: StoreItem>(
    db: Contents,
    key: Hash256,
    r: Result<Option<I>, Error>,
)
    requires
        retrieves_as(lookup(db, item_key::<I>(key@)), r),
    ensures
        r == Ok::<Option<I>, Error>(None) <==> !db.dom().contains(item_key::<I>(key@)),
{
}

/// Of two items put under one key the later one is held.
pub proof fn later_put_wins<I: StoreItem>(db: Contents, key: Hash256, first: I, second: I)
    ensures
        db.insert(item_key::<I>(key@), first.encoding()).insert(
            item_key::<I>(key@),
            second.encoding(),
        ) == db.insert(item_key::<I>(key@), second.encoding()),
{
    assert(db.insert(item_key::<I>(key@), first.encoding()).insert(
        item_key::<I>(key@),
        second.encoding(),
    ) =~= db.insert(item_key::<I>(key@), second.encoding()));
}

/// Deleting an item that was put where there was none leaves the store as it was.
pub proof fn delete_undoes_put<I: StoreItem>(db: Contents, key: Hash256, item: I)
    requires
        !db.dom().contains(item_key::<I>(key@)),
    ensures
        db.insert(item_key::<I>(key@), item.encoding()).remove(item_key::<I>(key@)) == db,
{
    assert(db.insert(item_key::<I>(key@), item.encoding()).remove(item_key::<I>(key@)) =~= db);
}

/// Putting or deleting an item leaves alone all items with another key and all items of kinds that
/// are placed in another column.
pub proof fn items_are_independent<I: StoreItem, J: StoreItem>(
    db: Contents,
    key: Hash256,
    item: I,
    other: Hash256,
)
    requires
        I::column() != J::column() || key != other,
    ensures
        lookup(db.insert(item_key::<I>(key@), item.encoding()), item_key::<J>(other@)) == lookup(
            db,
            item_key::<J>(other@),
        ),
        lookup(db.remove(item_key::<I>(key@)), item_key::<J>(other@)) == lookup(
            db,
            item_key::<J>(other@),
        ),
{
    database_keys_do_not_clash(I::column(), key@, J::column(), other@);
    Hash256::hash_is_its_bytes(key, other);
}

/// The operation that an item makes of itself has the effect of putting the item, alone or as a
/// batch, and its database key belongs to the item's column.
pub proof fn operation_of_item_puts_it<I: StoreItem>(
    db: Contents,
    key: Hash256,
    item: I,
    op: KeyValueStoreOp,
)
    requires
        op is PutKeyValue,
        op->PutKeyValue_0@ == db_key(I::column().name(), key@),
        op->PutKeyValue_1@ == item.encoding(),
    ensures
        op.apply(db) == db.insert(item_key::<I>(key@), item.encoding()),
        apply_batch(db, seq![op]) == db.insert(item_key::<I>(key@), item.encoding()),
        column_of_key(op->PutKeyValue_0@) == Some(I::column().name()),
{
    database_column_is_read_from_its_keys(I::column(), key@);
    assert(seq![op].drop_last() =~= Seq::empty());
    assert(apply_batch(db, seq![op].drop_last()) == db);
}

/// A batch of no operations changes nothing, and a batch has the effect of its parts, one after
/// the other.
pub proof fn batches_compose(
    db: Contents,
    first: Seq<KeyValueStoreOp>,
    second: Seq<KeyValueStoreOp>,
)
    ensures
        apply_batch(db, Seq::empty()) == db,
        apply_batch(db, first + second) == apply_batch(apply_batch(db, first), second),
    decreases second.len(),
{
    if second.len() == 0 {
        assert(first + second =~= first);
    } else {
        assert((first + second).drop_last() =~= first + second.drop_last());
        batches_compose(db, first, second.drop_last());
    }
}

/// The contents of a column and the starting point determine which keys an iteration meets, and in
/// which order.
pub proof fn listing_is_unique(
    db: Contents,
    column: DBColumn,
    from: Seq<u8>,
    a: Seq<Seq<u8>>,
    b: Seq<Seq<u8>>,
)
    requires
        is_column_listing(db, column, from, a),
        is_column_listing(db, column, from, b),
    ensures
        a == b,
{
    assert forall|key: Seq<u8>| a.contains(key) <==> b.contains(key) by {
        if a.contains(key) {
            assert(db.dom().contains(db_key(column.name(), key)));
        }
        if b.contains(key) {
            assert(db.dom().contains(db_key(column.name(), key)));
        }
    }
    lemma_ascending_is_unique(a, b);
}

/// Two ascending sequences of the same byte strings are the same.
proof fn lemma_ascending_is_unique(a: Seq<Seq<u8>>, b: Seq<Seq<u8>>)
    requires
        forall|i: int, j: int|
            0 <= i < j < a.len() ==> precedes(#[trigger] a[i], #[trigger] a[j]),
        forall|i: int, j: int|
            0 <= i < j < b.len() ==> precedes(#[trigger] b[i], #[trigger] b[j]),
        forall|key: Seq<u8>| a.contains(key) <==> b.contains(key),
    ensures
        a == b,
    decreases a.len(),
{
    if a.len() == 0 {
        if b.len() > 0 {
            assert(b.contains(b[0]));
        }
        assert(a =~= b);
    } else {
        assert(a.contains(a[0]));
        assert(b.contains(b[0]));
        let i = choose|i: int| 0 <= i < b.len() && b[i] == a[0];
        let j = choose|j: int| 0 <= j < a.len() && a[j] == b[0];
        if i > 0 && j > 0 {
            precedes_is_transitive(a[0], a[j], a[0]);
        }
        precedes_is_irreflexive(a[0]);
        assert(a[0] == b[0]);
        let a1 = a.drop_first();
        let b1 = b.drop_first();
        assert forall|key: Seq<u8>| a1.contains(key) <==> b1.contains(key) by {
            if a1.contains(key) {
                let n = choose|n: int| 0 <= n < a1.len() && a1[n] == key;
                assert(a[n + 1] == key);
                assert(b.contains(key));
                let m = choose|m: int| 0 <= m < b.len() && b[m] == key;
                assert(m > 0);
                assert(b1[m - 1] == key);
            }
            if b1.contains(key) {
                let n = choose|n: int| 0 <= n < b1.len() && b1[n] == key;
                assert(b[n + 1] == key);
                assert(a.contains(key));
                let m = choose|m: int| 0 <= m < a.len() && a[m] == key;
                assert(m > 0);
                assert(a1[m - 1] == key);
            }
        }
        lemma_ascending_is_unique(a1, b1);
        assert(a =~= seq![a[0]] + a1);
        assert(b =~= seq![b[0]] + b1);
    }
}

/// An iteration through a column meets all of its keys, if none of them is a string of zeros that
/// is shorter than the keys of the column.
pub proof fn iteration_of_column_is_complete(
    db: Contents,
    column: DBColumn,
    keys: Seq<Seq<u8>>,
)
    requires
        is_column_listing(db, column, zeros(column.key_len()), keys),
        forall|key: Seq<u8>| #[trigger]
            db.dom().contains(db_key(column.name(), key)) ==> !(key.len() < column.key_len()
                && key == zeros(key.len())),
    ensures
        is_column_listing(db, column, Seq::empty(), keys),
{
    assert forall|key: Seq<u8>| #[trigger]
        db.dom().contains(db_key(column.name(), key)) implies keys.contains(key) by {
        precedes_zeros(key, column.key_len());
    }
}

/// What is written to or deleted from one column changes no iteration through another.
pub proof fn columns_are_independent(
    db: Contents,
    column: DBColumn,
    key: Seq<u8>,
    value: Seq<u8>,
    other: DBColumn,
    from: Seq<u8>,
    keys: Seq<Seq<u8>>,
)
    requires
        column != other,
    ensures
        is_column_listing(db, other, from, keys) <==> is_column_listing(
            db.insert(db_key(column.name(), key), value),
            other,
            from,
            keys,
        ),
        is_column_listing(db, other, from, keys) <==> is_column_listing(
            db.remove(db_key(column.name(), key)),
            other,
            from,
            keys,
        ),
{
    let written = db.insert(db_key(column.name(), key), value);
    let removed = db.remove(db_key(column.name(), key));
    assert forall|k: Seq<u8>|
        db.dom().contains(#[trigger] db_key(other.name(), k)) == written.dom().contains(
            db_key(other.name(), k),
        ) && db.dom().contains(db_key(other.name(), k)) == removed.dom().contains(
            db_key(other.name(), k),
        ) by {
        database_keys_do_not_clash(column, key, other, k);
    }
}

/// Where the outcome of a compaction depends on the column alone, compacting the default set of
/// columns succeeds if and only if each of the three can be compacted, and otherwise returns the
/// error of the first that cannot. No other column has a say.
pub proof fn compaction_follows_its_columns(
    before: Seq<Event>,
    after: Seq<Event>,
    r: Result<(), Error>,
    outcome: spec_fn(DBColumn) -> Result<(), Error>,
)
    requires
        compacts_in_turn(before, after, r),
        forall|i: int|
            before.len() <= i < after.len() ==> ((#[trigger] after[i]).0 matches
                Operation::CompactColumn(column) ==> after[i].1 == outcome(column)),
    ensures
        r is Ok <==> outcome(DBColumn::BeaconState) is Ok && outcome(
            DBColumn::BeaconStateSummary,
        ) is Ok && outcome(DBColumn::BeaconBlock) is Ok,
        r == (if outcome(DBColumn::BeaconState) is Err {
            outcome(DBColumn::BeaconState)
        } else if outcome(DBColumn::BeaconStateSummary) is Err {
            outcome(DBColumn::BeaconStateSummary)
        } else {
            outcome(DBColumn::BeaconBlock)
        }),
{
    let n = before.len() as int;
    let done: int = match r {
        Ok(_) => 3,
        Err(_) => choose|done: int|
            0 <= done < 3 && after == before + (#[trigger] compacted(done)).push(
                (planned_compaction(done), r),
            ),
    };
    assert forall|i: int| 0 <= i < done implies #[trigger] after[n + i] == (
        planned_compaction(i),
        Ok::<(), Error>(()),
    ) by {
        assert(compacted(done)[i] == (planned_compaction(i), Ok::<(), Error>(())));
    }
    assert(done > 0 ==> after[n] == after[n + 0]);
    assert(done > 1 ==> after[n + 1].1 is Ok);
    assert(done > 2 ==> after[n + 2].1 is Ok);
    if r is Err {
        assert(after[n + done] == (planned_compaction(done), r));
    } else {
        assert(r->Ok_0 == ());
        assert(after[n + 2].1 == Ok::<(), Error>(()));
    }
}

/// A database key consists of the bytes of the column's name and, after them, those of the key.
pub proof fn database_key_is_name_then_key(column: Seq<char>, key: Seq<u8>)
    ensures
        db_key(column, key).len() == encode_utf8(column).len() + key.len(),
        db_key(column, key).subrange(0, encode_utf8(column).len() as int) == encode_utf8(column),
        db_key(column, key).subrange(
            encode_utf8(column).len() as int,
            db_key(column, key).len() as int,
        ) == key,
{
    let name = encode_utf8(column);
    assert(db_key(column, key).subrange(0, name.len() as int) =~= name);
    assert(db_key(column, key).subrange(name.len() as int, db_key(column, key).len() as int)
        =~= key);
}

/// The column of a database key is the text whose bytes are the first three of the key, and there is
/// none exactly where the key is shorter or those bytes are no text.
pub proof fn column_is_the_text_of_three_bytes(key: Seq<u8>, text: Seq<char>)
    ensures
        column_of_key(key) == Some(text) <==> key.len() >= 3 && encode_utf8(text) == key.subrange(
            0,
            3,
        ),
        column_of_key(key) is None <==> key.len() < 3 || !valid_utf8(key.subrange(0, 3)),
{
    if key.len() >= 3 {
        assert(key.take(3) =~= key.subrange(0, 3));
        encode_utf8_valid_utf8(text);
        encode_utf8_decode_utf8(text);
        if valid_utf8(key.take(3)) {
            decode_utf8_encode_utf8(key.take(3));
        }
    }
}

/// Every byte string, of any length, is read as a byte key, and as exactly those bytes.
pub proof fn byte_key_is_its_bytes(bytes: Seq<u8>, r: Result<Vec<u8>, Error>)
    ensures
        <Vec<u8> as Key>::reads_as(bytes, r) <==> r is Ok && r->Ok_0@ == bytes,
{
}

/// Different byte strings are read as different byte keys, and the database key that is made of a
/// column and a byte key read is the one that is made of the column and the bytes.
pub proof fn byte_keys_are_told_apart(
    column: DBColumn,
    a: Seq<u8>,
    b: Seq<u8>,
    read_a: Vec<u8>,
    read_b: Vec<u8>,
)
    requires
        <Vec<u8> as Key>::reads_as(a, Ok(read_a)),
        <Vec<u8> as Key>::reads_as(b, Ok(read_b)),
    ensures
        read_a@ == read_b@ <==> a == b,
        encode_utf8(column.name()) + read_a@ == encode_utf8(column.name()) + a,
{
}

/// The byte strings of 32 bytes are read as the hashes of those bytes, and all others are refused.
pub proof fn hash_key_is_its_bytes(bytes: Seq<u8>, r: Result<Hash256, Error>)
    ensures
        Hash256::reads_as(bytes, r) && bytes.len() == 32 <==> r is Ok && r->Ok_0@ == bytes,
        Hash256::reads_as(bytes, r) && bytes.len() != 32 <==> bytes.len() != 32 && r == Err::<
            Hash256,
            Error,
        >(Error::InvalidKey),
{
    if r is Ok {
        Hash256::hash_is_its_bytes(r->Ok_0, r->Ok_0);
    }
}

/// An operation puts its value under its key, whatever the two are, or removes its key, whatever that
/// is, and everything else is held as before.
pub proof fn operation_changes_its_key(db: Contents, op: KeyValueStoreOp, other: Seq<u8>)
    ensures
        match op {
            KeyValueStoreOp::PutKeyValue(key, value) => {
                &&& op.apply(db) == db.insert(key@, value@)
                &&& op.apply(db).dom().contains(key@)
                &&& op.apply(db)[key@] == value@
                &&& other != key@ ==> (op.apply(db).dom().contains(other) <==> db.dom().contains(
                    other,
                )) && op.apply(db)[other] == db[other]
            },
            KeyValueStoreOp::DeleteKey(key) => {
                &&& op.apply(db) == db.remove(key@)
                &&& !op.apply(db).dom().contains(key@)
                &&& other != key@ ==> (op.apply(db).dom().contains(other) <==> db.dom().contains(
                    other,
                )) && (db.dom().contains(other) ==> op.apply(db)[other] == db[other])
            },
        },
{
}

/// The last operation of a batch on a key decides what is held under that key.
pub proof fn last_operation_decides(
    db: Contents,
    batch: Seq<KeyValueStoreOp>,
    i: int,
    key: Seq<u8>,
)
    requires
        0 <= i < batch.len(),
        match batch[i] {
            KeyValueStoreOp::PutKeyValue(k, _) => k@ == key,
            KeyValueStoreOp::DeleteKey(k) => k@ == key,
        },
        forall|j: int|
            i < j < batch.len() ==> match #[trigger] batch[j] {
                KeyValueStoreOp::PutKeyValue(k, _) => k@ != key,
                KeyValueStoreOp::DeleteKey(k) => k@ != key,
            },
    ensures
        match batch[i] {
            KeyValueStoreOp::PutKeyValue(_, value) => apply_batch(db, batch).dom().contains(key)
                && apply_batch(db, batch)[key] == value@,
            KeyValueStoreOp::DeleteKey(_) => !apply_batch(db, batch).dom().contains(key),
        },
    decreases batch.len(),
{
    if i < batch.len() - 1 {
        let rest = batch.drop_last();
        assert(rest[i] == batch[i]);
        assert forall|j: int| i < j < rest.len() implies match #[trigger] rest[j] {
            KeyValueStoreOp::PutKeyValue(k, _) => k@ != key,
            KeyValueStoreOp::DeleteKey(k) => k@ != key,
        } by {
            assert(rest[j] == batch[j]);
        }
        last_operation_decides(db, rest, i, key);
        operation_changes_its_key(apply_batch(db, rest), batch.last(), key);
    } else {
        operation_changes_its_key(apply_batch(db, batch.drop_last()), batch.last(), key);
    }
}

/// A batch leaves alone what none of its operations is on.
pub proof fn batch_leaves_other_keys_alone(
    db: Contents,
    batch: Seq<KeyValueStoreOp>,
    key: Seq<u8>,
)
    requires
        forall|j: int|
            0 <= j < batch.len() ==> match #[trigger] batch[j] {
                KeyValueStoreOp::PutKeyValue(k, _) => k@ != key,
                KeyValueStoreOp::DeleteKey(k) => k@ != key,
            },
    ensures
        apply_batch(db, batch).dom().contains(key) <==> db.dom().contains(key),
        db.dom().contains(key) ==> apply_batch(db, batch)[key] == db[key],
    decreases batch.len(),
{
    if batch.len() > 0 {
        let rest = batch.drop_last();
        assert forall|j: int| 0 <= j < rest.len() implies match #[trigger] rest[j] {
            KeyValueStoreOp::PutKeyValue(k, _) => k@ != key,
            KeyValueStoreOp::DeleteKey(k) => k@ != key,
        } by {
            assert(rest[j] == batch[j]);
        }
        batch_leaves_other_keys_alone(db, rest, key);
        assert(batch[batch.len() - 1] == batch.last());
        operation_changes_its_key(apply_batch(db, rest), batch.last(), key);
    }
}

/// What is read of a database key is what is held under it, of whatever length the key is, and nothing
/// is read exactly where nothing is held.
pub proof fn what_is_held_is_read(db: Contents, key: Seq<u8>, value: Option<Vec<u8>>)
    ensures
        bytes_read(value) == lookup(db, key) <==> match value {
            Some(bytes) => db.dom().contains(key) && bytes@ == db[key],
            None => !db.dom().contains(key),
        },
{
}

/// A change of one entry that succeeded was made, and one that failed was made whole or not at all.
pub proof fn change_is_made_or_fails(
    before: Contents,
    changed: Contents,
    after: Contents,
    r: Result<(), Error>,
)
    ensures
        changes_one_entry(before, changed, after, r) <==> (r is Ok ==> after == changed) && (
        after == changed || after == before),
{
}

/// An item is stored under the bytes of its column's name followed by those of its key.
pub proof fn item_is_stored_in_its_column<I: StoreItem>(key: Seq<u8>)
    ensures
        item_key::<I>(key) == encode_utf8(I::column().name()) + key,
{
}

/// A read that failed stays that failure, a missing value is a missing item, and a value gives what its
/// bytes decode as.
pub proof fn read_becomes_item<I: StoreItem>(
    read: Result<Option<Vec<u8>>, Error>,
    r: Result<Option<I>, Error>,
)
    ensures
        read matches Err(error) ==> (handles_read(read, r) <==> r == Err::<Option<I>, Error>(
            error,
        )),
        read matches Ok(None) ==> (handles_read(read, r) <==> r == Ok::<Option<I>, Error>(None)),
        read matches Ok(Some(bytes)) ==> (handles_read(read, r) <==> (r matches Ok(Some(item))
            && I::decodes_as(bytes@, Ok(item))) || (r matches Err(error) && I::decodes_as(
            bytes@,
            Err(error),
        ))),
{
}

/// An item is retrieved as what the bytes held decode as, and as missing exactly where nothing is held.
pub proof fn item_is_what_its_bytes_decode_as<I: StoreItem>(
    stored: Option<Seq<u8>>,
    r: Result<Option<I>, Error>,
)
    ensures
        retrieves_as(stored, r) <==> match r {
            Ok(None) => stored is None,
            Ok(Some(item)) => stored is Some && I::decodes_as(stored->0, Ok(item)),
            Err(error) => stored is Some && I::decodes_as(stored->0, Err(error)),
        },
{
}

/// No key is listed twice, and as many are listed as there are keys in the column from the starting
/// point on.
proof fn lemma_listing_is_exact(
    db: Contents,
    column: DBColumn,
    from: Seq<u8>,
    keys: Seq<Seq<u8>>,
)
    requires
        is_column_listing(db, column, from, keys),
    ensures
        keys.no_duplicates(),
        forall|key: Seq<u8>| #[trigger]
            keys.contains(key) <==> db.dom().contains(encode_utf8(column.name()) + key)
                && !precedes(key, from),
        Set::new(
            |key: Seq<u8>|
                db.dom().contains(encode_utf8(column.name()) + key) && !precedes(key, from),
        ).finite(),
        Set::new(
            |key: Seq<u8>|
                db.dom().contains(encode_utf8(column.name()) + key) && !precedes(key, from),
        ).len() == keys.len(),
{
    assert forall|key: Seq<u8>| #[trigger]
        keys.contains(key) <==> db.dom().contains(encode_utf8(column.name()) + key) && !precedes(
            key,
            from,
        ) by {
        assert(db_key(column.name(), key) == encode_utf8(column.name()) + key);
        if keys.contains(key) {
            let i = choose|i: int| 0 <= i < keys.len() && keys[i] == key;
            assert(db.dom().contains(db_key(column.name(), keys[i])));
        }
    }
    assert forall|i: int, j: int|
        0 <= i < keys.len() && 0 <= j < keys.len() && i != j implies keys[i] != keys[j] by {
        precedes_is_irreflexive(keys[i]);
        if i < j {
            assert(precedes(keys[i], keys[j]));
        } else {
            assert(precedes(keys[j], keys[i]));
        }
    }
    let all = Set::new(
        |key: Seq<u8>|
            db.dom().contains(encode_utf8(column.name()) + key) && !precedes(key, from),
    );
    assert(keys.to_set() =~= all);
    keys.unique_seq_to_set();
    seq_to_set_is_finite(keys);
}

/// A column listing is ascending, and holds exactly the keys of the column from the starting point on.
pub proof fn listing_is_ascending_and_exact(
    db: Contents,
    column: DBColumn,
    from: Seq<u8>,
    keys: Seq<Seq<u8>>,
)
    ensures
        is_column_listing(db, column, from, keys) <==> {
            &&& forall|i: int, j: int|
                0 <= i < j < keys.len() ==> precedes(#[trigger] keys[i], #[trigger] keys[j])
            &&& forall|key: Seq<u8>| #[trigger]
                keys.contains(key) <==> db.dom().contains(encode_utf8(column.name()) + key)
                    && !precedes(key, from)
        },
{
    if is_column_listing(db, column, from, keys) {
        lemma_listing_is_exact(db, column, from, keys);
    }
    if {
        &&& forall|i: int, j: int|
            0 <= i < j < keys.len() ==> precedes(#[trigger] keys[i], #[trigger] keys[j])
        &&& forall|key: Seq<u8>| #[trigger]
            keys.contains(key) <==> db.dom().contains(encode_utf8(column.name()) + key)
                && !precedes(key, from)
    } {
        assert forall|i: int| 0 <= i < keys.len() implies db.dom().contains(
            db_key(column.name(), #[trigger] keys[i]),
        ) && !precedes(keys[i], from) by {
            assert(keys.contains(keys[i]));
        }
        assert forall|key: Seq<u8>| #[trigger]
            db.dom().contains(db_key(column.name(), key)) && !precedes(
                key,
                from,
            ) implies keys.contains(key) by {
            assert(db_key(column.name(), key) == encode_utf8(column.name()) + key);
        }
    }
}

/// An iteration without failure meets every entry of the column from its starting point on: each has a
/// place, which holds the key as it is read and the value; each place is that of such an entry; and
/// there are as many places as entries.
pub proof fn iteration_meets_every_entry<K: Key>(
    db: Contents,
    column: DBColumn,
    from: Seq<u8>,
    entries: Seq<Result<(K, Vec<u8>), Error>>,
    key: Seq<u8>,
    place: int,
)
    requires
        lists_entries(db, column, from, entries),
    ensures
        db.dom().contains(encode_utf8(column.name()) + key) && !precedes(key, from) ==> exists|
            i: int,
        |
            0 <= i < entries.len() && match #[trigger] entries[i] {
                Ok((read, value)) => K::reads_as(key, Ok(read)) && value@ == db[encode_utf8(
                    column.name(),
                ) + key],
                Err(error) => K::reads_as(key, Err(error)),
            },
        0 <= place < entries.len() ==> exists|k: Seq<u8>| #[trigger]
            db.dom().contains(encode_utf8(column.name()) + k) && !precedes(k, from)
                && match entries[place] {
                Ok((read, value)) => K::reads_as(k, Ok(read)) && value@ == db[encode_utf8(
                    column.name(),
                ) + k],
                Err(error) => K::reads_as(k, Err(error)),
            },
        entries.len() == Set::new(
            |k: Seq<u8>| db.dom().contains(encode_utf8(column.name()) + k) && !precedes(k, from),
        ).len(),
{
    let keys = choose|keys: Seq<Seq<u8>>|
        {
            &&& #[trigger] is_column_listing(db, column, from, keys)
            &&& entries.len() == keys.len()
            &&& forall|i: int|
                0 <= i < keys.len() ==> is_entry(db, column, keys[i], #[trigger] entries[i])
        };
    lemma_listing_is_exact(db, column, from, keys);
    if db.dom().contains(encode_utf8(column.name()) + key) && !precedes(key, from) {
        assert(keys.contains(key));
        let i = choose|i: int| 0 <= i < keys.len() && keys[i] == key;
        assert(is_entry(db, column, keys[i], entries[i]));
    }
    if 0 <= place < entries.len() {
        assert(keys.contains(keys[place]));
        assert(is_entry(db, column, keys[place], entries[place]));
    }
}

/// An iteration through the keys of a column without failure meets every key of the column: each has a
/// place, which holds it as it is read; each place is that of a key of the column; and there are as
/// many places as keys.
pub proof fn iteration_meets_every_key<K: Key>(
    db: Contents,
    column: DBColumn,
    read: Seq<Result<K, Error>>,
    key: Seq<u8>,
    place: int,
)
    requires
        lists_keys(db, column, read),
    ensures
        db.dom().contains(encode_utf8(column.name()) + key) ==> exists|i: int|
            0 <= i < read.len() && K::reads_as(key, #[trigger] read[i]),
        0 <= place < read.len() ==> exists|k: Seq<u8>| #[trigger]
            db.dom().contains(encode_utf8(column.name()) + k) && K::reads_as(k, read[place]),
        read.len() == Set::new(
            |k: Seq<u8>| db.dom().contains(encode_utf8(column.name()) + k),
        ).len(),
{
    let keys = choose|keys: Seq<Seq<u8>>|
        {
            &&& #[trigger] is_column_listing(db, column, Seq::empty(), keys)
            &&& read.len() == keys.len()
            &&& forall|i: int| 0 <= i < keys.len() ==> K::reads_as(keys[i], #[trigger] read[i])
        };
    lemma_listing_is_exact(db, column, Seq::empty(), keys);
    if db.dom().contains(encode_utf8(column.name()) + key) {
        assert(keys.contains(key));
        let i = choose|i: int| 0 <= i < keys.len() && keys[i] == key;
        assert(K::reads_as(keys[i], read[i]));
    }
    if 0 <= place < read.len() {
        assert(keys.contains(keys[place]));
        assert(K::reads_as(keys[place], read[place]));
    }
    assert(Set::new(|k: Seq<u8>| db.dom().contains(encode_utf8(column.name()) + k)) =~= Set::new(
        |k: Seq<u8>|
            db.dom().contains(encode_utf8(column.name()) + k) && !precedes(k, Seq::empty()),
    ));
}

/// What an iteration comes upon keeps its places: a failure stays that failure, and an entry keeps its
/// value and has its key read.
pub proof fn found_entries_keep_their_places<K: Key>(
    found: Seq<FoundEntry>,
    entries: Seq<Result<(K, Vec<u8>), Error>>,
    i: int,
)
    requires
        reads_found(found, entries),
    ensures
        entries.len() == found.len(),
        0 <= i < found.len() ==> match found[i] {
            Err(failure) => entries[i] == Err::<(K, Vec<u8>), Error>(failure),
            Ok((key, value)) => match entries[i] {
                Ok((read, bytes)) => K::reads_as(key, Ok(read)) && bytes@ == value,
                Err(error) => K::reads_as(key, Err(error)),
            },
        },
{
    if 0 <= i < found.len() {
        assert(entries[i] == entries[i]);
    }
}

/// The entries that an iteration of a database without failure comes upon are those that the database
/// holds in the column from the starting point on, in the ascending order of their keys.
pub proof fn found_entries_are_held(
    db: Contents,
    column: DBColumn,
    from: Seq<u8>,
    found: Seq<FoundEntry>,
    i: int,
    j: int,
    key: Seq<u8>,
)
    requires
        finds_entries(db, column, from, found),
    ensures
        0 <= i < found.len() ==> (found[i] matches Ok((k, value)) && db.dom().contains(
            encode_utf8(column.name()) + k,
        ) && db[encode_utf8(column.name()) + k] == value && !precedes(k, from)),
        0 <= i < j < found.len() ==> precedes(found[i]->Ok_0.0, found[j]->Ok_0.0),
        db.dom().contains(encode_utf8(column.name()) + key) && !precedes(key, from) ==> exists|
            n: int,
        |
            0 <= n < found.len() && (#[trigger] found[n] matches Ok((k, _)) && k == key),
{
    let keys = choose|keys: Seq<Seq<u8>>|
        {
            &&& #[trigger] is_column_listing(db, column, from, keys)
            &&& found.len() == keys.len()
            &&& forall|i: int|
                0 <= i < keys.len() ==> #[trigger] found[i] == Ok::<(Seq<u8>, Seq<u8>), Error>(
                    (keys[i], db[db_key(column.name(), keys[i])]),
                )
        };
    lemma_listing_is_exact(db, column, from, keys);
    if 0 <= i < found.len() {
        assert(keys.contains(keys[i]));
        if i < j < found.len() {
            assert(precedes(keys[i], keys[j]));
        }
    }
    if db.dom().contains(encode_utf8(column.name()) + key) && !precedes(key, from) {
        assert(keys.contains(key));
        let n = choose|n: int| 0 <= n < keys.len() && keys[n] == key;
        assert(found[n] is Ok);
    }
}

/// An item of an iteration that stands for an entry stands for one that the column holds, from the
/// starting point on, and has its value.
pub proof fn iterated_entry_is_held<K: Key>(
    db: Contents,
    column: DBColumn,
    from: Seq<u8>,
    r: Result<(K, Vec<u8>), Error>,
    read: Result<K, Error>,
)
    ensures
        is_some_entry(db, column, from, r) <==> exists|key: Seq<u8>| #[trigger]
            db.dom().contains(encode_utf8(column.name()) + key) && !precedes(key, from)
                && match r {
                Ok((k, value)) => K::reads_as(key, Ok(k)) && value@ == db[encode_utf8(
                    column.name(),
                ) + key],
                Err(error) => K::reads_as(key, Err(error)),
            },
        is_some_key(db, column, read) <==> exists|key: Seq<u8>| #[trigger]
            db.dom().contains(encode_utf8(column.name()) + key) && K::reads_as(key, read),
{
    assert forall|key: Seq<u8>| #[trigger]
        db_key(column.name(), key) == encode_utf8(column.name()) + key by {}
    if is_some_entry(db, column, from, r) {
        let key = choose|key: Seq<u8>|
            {
                &&& #[trigger] db.dom().contains(db_key(column.name(), key))
                &&& !precedes(key, from)
                &&& is_entry(db, column, key, r)
            };
        assert(db.dom().contains(encode_utf8(column.name()) + key));
    }
    if is_some_key(db, column, read) {
        let key = choose|key: Seq<u8>| #[trigger]
            db.dom().contains(db_key(column.name(), key)) && K::reads_as(key, read);
        assert(db.dom().contains(encode_utf8(column.name()) + key));
    }
    if exists|key: Seq<u8>| #[trigger]
        db.dom().contains(encode_utf8(column.name()) + key) && !precedes(key, from) && match r {
            Ok((k, value)) => K::reads_as(key, Ok(k)) && value@ == db[encode_utf8(
                column.name(),
            ) + key],
            Err(error) => K::reads_as(key, Err(error)),
        } {
        let key = choose|key: Seq<u8>| #[trigger]
            db.dom().contains(encode_utf8(column.name()) + key) && !precedes(key, from)
                && match r {
                Ok((k, value)) => K::reads_as(key, Ok(k)) && value@ == db[encode_utf8(
                    column.name(),
                ) + key],
                Err(error) => K::reads_as(key, Err(error)),
            };
        assert(db.dom().contains(db_key(column.name(), key)));
        assert(is_entry(db, column, key, r));
    }
    if exists|key: Seq<u8>| #[trigger]
        db.dom().contains(encode_utf8(column.name()) + key) && K::reads_as(key, read) {
        let key = choose|key: Seq<u8>| #[trigger]
            db.dom().contains(encode_utf8(column.name()) + key) && K::reads_as(key, read);
        assert(db.dom().contains(db_key(column.name(), key)));
    }
}

/// Compacting the default set of columns goes through states, summaries of states and blocks, in this
/// order, and ends at the first of them that fails, with its failure.
pub proof fn compaction_goes_through_states_and_blocks(
    before: Seq<Event>,
    after: Seq<Event>,
    r: Result<(), Error>,
)
    requires
        compacts_in_turn(before, after, r),
    ensures
        ({
            let state = Operation::CompactColumn(DBColumn::BeaconState);
            let summary = Operation::CompactColumn(DBColumn::BeaconStateSummary);
            let block = Operation::CompactColumn(DBColumn::BeaconBlock);
            match r {
                Ok(_) => after == before.push((state, Ok(()))).push((summary, Ok(()))).push(
                    (block, Ok(())),
                ),
                Err(_) => {
                    ||| after == before.push((state, r))
                    ||| after == before.push((state, Ok(()))).push((summary, r))
                    ||| after == before.push((state, Ok(()))).push((summary, Ok(()))).push(
                        (block, r),
                    )
                },
            }
        }),
{
    let state = Operation::CompactColumn(DBColumn::BeaconState);
    let summary = Operation::CompactColumn(DBColumn::BeaconStateSummary);
    let block = Operation::CompactColumn(DBColumn::BeaconBlock);
    if r is Ok {
        assert(after =~= before.push((state, Ok(()))).push((summary, Ok(()))).push(
            (block, Ok(())),
        ));
    } else {
        let done = choose|done: int|
            0 <= done < 3 && after == before + (#[trigger] compacted(done)).push(
                (planned_compaction(done), r),
            );
        if done == 0 {
            assert(after =~= before.push((state, r)));
        } else if done == 1 {
            assert(after =~= before.push((state, Ok(()))).push((summary, r)));
        } else {
            assert(after =~= before.push((state, Ok(()))).push((summary, Ok(()))).push(
                (block, r),
            ));
        }
    }
}

/// Text is read as a column if and only if it is the column's name, and refused if and only if it is the
/// name of none.
pub proof fn text_names_at_most_one_column(text: Seq<char>, column: DBColumn)
    ensures
        column_named(text) == Ok::<DBColumn, ParseError>(column) <==> text == column.name(),
        column_named(text) == Err::<DBColumn, ParseError>(ParseError::VariantNotFound)
            <==> forall|c: DBColumn| #[trigger] c.name() != text,
{
    if column_named(text) is Ok {
        names_identify_columns(column, column_named(text)->Ok_0);
    }
}

/// A store in memory has no failures of its own: no error is one, every operation succeeds, and every
/// read gives what is held.
pub proof fn memory_store_never_fails<E: EthSpec>(
    store: MemoryStore<E>,
    error: Error,
    operation: Operation,
    r: Result<(), Error>,
    column: Seq<char>,
    key: Seq<u8>,
    read: Result<Option<Vec<u8>>, Error>,
    found: Result<bool, Error>,
    iterated: DBColumn,
    entries: Seq<FoundEntry>,
)
    ensures
        !MemoryStore::<E>::fails_with(error),
        MemoryStore::<E>::operation_gives(operation, r) ==> r is Ok,
        store.get_gives(column, key, read) ==> match read {
            Ok(Some(bytes)) => store.contents().dom().contains(encode_utf8(column) + key)
                && bytes@ == store.contents()[encode_utf8(column) + key],
            Ok(None) => !store.contents().dom().contains(encode_utf8(column) + key),
            Err(_) => false,
        },
        store.exists_gives(column, key, found) ==> found == Ok::<bool, Error>(
            store.contents().dom().contains(encode_utf8(column) + key),
        ),
        store.iteration_gives(iterated, key, entries) ==> finds_entries(
            store.contents(),
            iterated,
            key,
            entries,
        ),
        store.flushed() == store.contents(),
{
}

/// Putting an item is one write, putting it with a flush is one write with a flush, and deleting it is
/// one removal, each in the column of the item's kind, under the bytes of its key.
pub proof fn item_calls_are_single_operations<I: StoreItem>(key: Seq<u8>, item: &I)
    ensures
        put_operation(key, item) == (Operation::PutBytes {
            column: I::column().name(),
            key,
            value: item.encoding(),
        }),
        put_sync_operation(key, item) == (Operation::PutBytesSync {
            column: I::column().name(),
            key,
            value: item.encoding(),
        }),
        delete_operation::<I>(key) == (Operation::KeyDelete { column: I::column().name(), key }),
{
}

} // verus!

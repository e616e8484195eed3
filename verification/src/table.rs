//! A sorted table: entries in the ascending order of their keys, none of which occurs twice.
use vstd::prelude::*;

use crate::bytes::{
    between_keeps_common_head, bytes_equal, bytes_precede, has_head, precedes,
    precedes_below_common_head, precedes_is_irreflexive, precedes_is_total,
    precedes_is_transitive,
};
use crate::column::DBColumn;
use crate::keys::{db_key, get_key_for_col};
use crate::kv::is_column_listing;
use crate::ops::Contents;

verus! {

/// A key and its value.
pub type Entry = (Vec<u8>, Vec<u8>);

/// Whether the keys of the entries ascend.
pub open spec fn sorted(entries: Seq<Entry>) -> bool {
    forall|i: int, j: int|
        0 <= i < j < entries.len() ==> precedes(
            (#[trigger] entries[i]).0@,
            (#[trigger] entries[j]).0@,
        )
}

/// Whether the entry at `i` has the key `key`.
pub open spec fn has_key_at(entries: Seq<Entry>, key: Seq<u8>, i: int) -> bool {
    0 <= i < entries.len() && entries[i].0@ == key
}

/// What the entries hold.
pub open spec fn contents_of(entries: Seq<Entry>) -> Contents {
    Map::new(
        |key: Seq<u8>| exists|i: int| has_key_at(entries, key, i),
        |key: Seq<u8>| entries[choose|i: int| has_key_at(entries, key, i)].1@,
    )
}

/// Whether `key` belongs at `i`: the keys before that place come before `key`, and those from there
/// on do not.
pub open spec fn belongs_at(entries: Seq<Entry>, key: Seq<u8>, i: int) -> bool {
    &&& 0 <= i <= entries.len()
    &&& forall|j: int| 0 <= j < i ==> precedes((#[trigger] entries[j]).0@, key)
    &&& forall|j: int| i <= j < entries.len() ==> !precedes((#[trigger] entries[j]).0@, key)
}

/// The contents hold each entry.
pub proof fn lemma_holds_entry(entries: Seq<Entry>, i: int)
    requires
        sorted(entries),
        0 <= i < entries.len(),
    ensures
        contents_of(entries).dom().contains(entries[i].0@),
        contents_of(entries)[entries[i].0@] == entries[i].1@,
{
    let key = entries[i].0@;
    assert(has_key_at(entries, key, i));
    let j = choose|j: int| has_key_at(entries, key, j);
    precedes_is_irreflexive(key);
    assert(i == j);
}

/// A map that holds each entry, and nothing else, is the contents.
proof fn lemma_contents_are(entries: Seq<Entry>, db: Contents)
    requires
        sorted(entries),
        forall|key: Seq<u8>| #[trigger]
            db.dom().contains(key) ==> exists|i: int| has_key_at(entries, key, i),
        forall|i: int|
            0 <= i < entries.len() ==> db.dom().contains((#[trigger] entries[i]).0@)
                && db[entries[i].0@] == entries[i].1@,
    ensures
        contents_of(entries) == db,
{
    let held = contents_of(entries);
    assert forall|key: Seq<u8>| #[trigger]
        held.dom().contains(key) <==> db.dom().contains(key) by {
        if held.dom().contains(key) {
            let i = choose|i: int| has_key_at(entries, key, i);
            assert(entries[i].0@ == key);
        }
    }
    assert forall|key: Seq<u8>| #[trigger] held.dom().contains(key) implies held[key]
        == db[key] by {
        let i = choose|i: int| has_key_at(entries, key, i);
        lemma_holds_entry(entries, i);
    }
    assert(held =~= db);
}

/// If a key is not found where it belongs then the contents do not hold it.
proof fn lemma_absent(entries: Seq<Entry>, key: Seq<u8>, i: int)
    requires
        sorted(entries),
        belongs_at(entries, key, i),
        !has_key_at(entries, key, i),
    ensures
        !contents_of(entries).dom().contains(key),
{
    precedes_is_irreflexive(key);
    if contents_of(entries).dom().contains(key) {
        let j = choose|j: int| has_key_at(entries, key, j);
        assert(entries[j].0@ == key);
        assert(j > i);
        assert(precedes(entries[i].0@, entries[j].0@));
    }
}

/// The place where `key` belongs.
pub fn position(entries: &Vec<Entry>, key: &[u8]) -> (r: usize)
    requires
        sorted(entries@),
    ensures
        belongs_at(entries@, key@, r as int),
{
    let mut low: usize = 0;
    let mut high: usize = entries.len();
    while low < high
        invariant
            sorted(entries@),
            low <= high <= entries@.len(),
            forall|j: int| 0 <= j < low ==> precedes((#[trigger] entries@[j]).0@, key@),
            forall|j: int|
                high <= j < entries@.len() ==> !precedes((#[trigger] entries@[j]).0@, key@),
        decreases high - low,
    {
        let middle: usize = low + (high - low) / 2;
        if bytes_precede(entries[middle].0.as_slice(), key) {
            assert forall|j: int| 0 <= j < middle + 1 implies precedes(
                (#[trigger] entries@[j]).0@,
                key@,
            ) by {
                if j < middle {
                    precedes_is_transitive(entries@[j].0@, entries@[middle as int].0@, key@);
                }
            }
            low = middle + 1;
        } else {
            assert forall|j: int| middle <= j < entries@.len() implies !precedes(
                (#[trigger] entries@[j]).0@,
                key@,
            ) by {
                if j > middle && precedes(entries@[j].0@, key@) {
                    precedes_is_transitive(entries@[middle as int].0@, entries@[j].0@, key@);
                }
            }
            high = middle;
        }
    }
    low
}

/// Whether the entry at `i` has the key `key`.
fn found_at(entries: &Vec<Entry>, key: &[u8], i: usize) -> (r: bool)
    ensures
        r == has_key_at(entries@, key@, i as int),
{
    i < entries.len() && bytes_equal(entries[i].0.as_slice(), key)
}

/// The place of the entry with the key `key`, if there is one.
pub fn find(entries: &Vec<Entry>, key: &[u8]) -> (r: Option<usize>)
    requires
        sorted(entries@),
    ensures
        match r {
            Some(i) => i < entries@.len() && entries@[i as int].0@ == key@ && contents_of(
                entries@,
            ).dom().contains(key@) && contents_of(entries@)[key@] == entries@[i as int].1@,
            None => !contents_of(entries@).dom().contains(key@),
        },
{
    let i = position(entries, key);
    if found_at(entries, key, i) {
        proof {
            lemma_holds_entry(entries@, i as int);
        }
        Some(i)
    } else {
        proof {
            lemma_absent(entries@, key@, i as int);
        }
        None
    }
}

/// Enter `value` under `key`, in place of what stood there.
pub fn enter(entries: &mut Vec<Entry>, key: Vec<u8>, value: Vec<u8>)
    requires
        sorted(old(entries)@),
    ensures
        sorted(final(entries)@),
        contents_of(final(entries)@) == contents_of(old(entries)@).insert(key@, value@),
{
    let i = position(entries, key.as_slice());
    let ghost before = entries@;
    let ghost db = contents_of(before).insert(key@, value@);
    if found_at(entries, key.as_slice(), i) {
        entries[i] = (key, value);
        proof {
            let after = entries@;
            assert forall|k: Seq<u8>| #[trigger] db.dom().contains(k) implies exists|j: int|
                has_key_at(after, k, j) by {
                if k == key@ {
                    assert(has_key_at(after, k, i as int));
                } else {
                    let j = choose|j: int| has_key_at(before, k, j);
                    assert(has_key_at(after, k, j));
                }
            }
            assert forall|j: int| 0 <= j < after.len() implies db.dom().contains(
                (#[trigger] after[j]).0@,
            ) && db[after[j].0@] == after[j].1@ by {
                precedes_is_irreflexive(key@);
                if j != i {
                    lemma_holds_entry(before, j);
                    assert(before[i as int].0@ == key@);
                    assert(before[j].0@ != key@);
                }
            }
            lemma_contents_are(after, db);
        }
    } else {
        proof {
            lemma_absent(before, key@, i as int);
        }
        entries.insert(i, (key, value));
        proof {
            let after = entries@;
            assert forall|a: int, b: int| 0 <= a < b < after.len() implies precedes(
                (#[trigger] after[a]).0@,
                (#[trigger] after[b]).0@,
            ) by {
                if a == i {
                    precedes_is_total(key@, before[b - 1].0@);
                    assert(has_key_at(before, before[b - 1].0@, b - 1));
                } else if b == i {
                    assert(after[a] == before[a]);
                } else {
                    let a0 = if a < i { a } else { a - 1 };
                    let b0 = if b < i { b } else { b - 1 };
                    assert(after[a] == before[a0] && after[b] == before[b0]);
                }
            }
            assert forall|k: Seq<u8>| #[trigger] db.dom().contains(k) implies exists|j: int|
                has_key_at(after, k, j) by {
                if k == key@ {
                    assert(has_key_at(after, k, i as int));
                } else {
                    let j = choose|j: int| has_key_at(before, k, j);
                    assert(has_key_at(after, k, if j < i { j } else { j + 1 }));
                }
            }
            assert forall|j: int| 0 <= j < after.len() implies db.dom().contains(
                (#[trigger] after[j]).0@,
            ) && db[after[j].0@] == after[j].1@ by {
                if j != i {
                    let j0 = if j < i { j } else { j - 1 };
                    assert(after[j] == before[j0]);
                    lemma_holds_entry(before, j0);
                }
            }
            lemma_contents_are(after, db);
        }
    }
}

/// Remove the entry with the key `key`, if there is one.
pub fn erase(entries: &mut Vec<Entry>, key: &[u8])
    requires
        sorted(old(entries)@),
    ensures
        sorted(final(entries)@),
        contents_of(final(entries)@) == contents_of(old(entries)@).remove(key@),
{
    let ghost before = entries@;
    let ghost db = contents_of(before).remove(key@);
    if let Some(i) = find(entries, key) {
        entries.remove(i);
        proof {
            let after = entries@;
            assert forall|j: int| 0 <= j < after.len() implies #[trigger] after[j]
                == before[if j < i { j } else { j + 1 }] by {}
            assert forall|k: Seq<u8>| #[trigger] db.dom().contains(k) implies exists|j: int|
                has_key_at(after, k, j) by {
                let j = choose|j: int| has_key_at(before, k, j);
                assert(has_key_at(after, k, if j < i { j } else { j - 1 }));
            }
            assert forall|j: int| 0 <= j < after.len() implies db.dom().contains(
                (#[trigger] after[j]).0@,
            ) && db[after[j].0@] == after[j].1@ by {
                let j0 = if j < i { j } else { j + 1 };
                lemma_holds_entry(before, j0);
                precedes_is_irreflexive(key@);
                assert(before[i as int].0@ == key@);
                assert(before[j0].0@ != key@);
            }
            lemma_contents_are(after, db);
        }
    } else {
        assert(db =~= contents_of(before));
    }
}

/// The keys, within their column, of the entries from `start` to `end`.
pub open spec fn keys_between(
    entries: Seq<Entry>,
    column: DBColumn,
    start: int,
    end: int,
) -> Seq<Seq<u8>> {
    Seq::new(
        (end - start) as nat,
        |i: int| entries[start + i].0@.skip(column.prefix().len() as int),
    )
}

/// The places of the entries of `column` whose keys do not come before `from`: they start at the
/// first number returned, and end before the second.
pub fn column_range(entries: &Vec<Entry>, column: DBColumn, from: &[u8]) -> (r: (usize, usize))
    requires
        sorted(entries@),
    ensures
        r.0 <= r.1 <= entries@.len(),
        forall|i: int|
            r.0 <= i < r.1 ==> column.prefix().is_prefix_of((#[trigger] entries@[i]).0@),
        is_column_listing(
            contents_of(entries@),
            column,
            from@,
            keys_between(entries@, column, r.0 as int, r.1 as int),
        ),
{
    let head = column.as_bytes();
    let first = get_key_for_col(column.as_str(), from);
    let start = position(entries, first.as_slice());
    let mut end: usize = start;
    while end < entries.len() && has_head(entries[end].0.as_slice(), head)
        invariant
            head@ == column.prefix(),
            start <= end <= entries@.len(),
            forall|i: int| start <= i < end ==> head@.is_prefix_of((#[trigger] entries@[i]).0@),
        decreases entries@.len() - end,
    {
        end = end + 1;
    }
    proof {
        let keys = keys_between(entries@, column, start as int, end as int);
        let db = contents_of(entries@);
        assert forall|i: int| 0 <= i < keys.len() implies entries@[start + i].0@ == db_key(
            column.name(),
            #[trigger] keys[i],
        ) by {
            assert(head@.is_prefix_of(entries@[start + i].0@));
            assert(entries@[start + i].0@ =~= head@ + keys[i]);
        }
        assert forall|i: int, j: int| 0 <= i < j < keys.len() implies precedes(
            #[trigger] keys[i],
            #[trigger] keys[j],
        ) by {
            precedes_below_common_head(head@, keys[i], keys[j]);
            assert(precedes(entries@[start + i].0@, entries@[start + j].0@));
        }
        assert forall|i: int| 0 <= i < keys.len() implies db.dom().contains(
            db_key(column.name(), #[trigger] keys[i]),
        ) && !precedes(keys[i], from@) by {
            lemma_holds_entry(entries@, start + i);
            precedes_below_common_head(head@, keys[i], from@);
        }
        assert forall|key: Seq<u8>| #[trigger]
            db.dom().contains(db_key(column.name(), key)) && !precedes(
                key,
                from@,
            ) implies keys.contains(key) by {
            let j = choose|j: int| has_key_at(entries@, db_key(column.name(), key), j);
            assert(entries@[j].0@ == head@ + key);
            precedes_below_common_head(head@, key, from@);
            assert(j >= start);
            if j >= end {
                precedes_is_irreflexive(head@ + key);
                if j > end && precedes(head@ + key, entries@[end as int].0@) {
                    precedes_is_transitive(
                        entries@[end as int].0@,
                        entries@[j].0@,
                        entries@[end as int].0@,
                    );
                    precedes_is_irreflexive(entries@[end as int].0@);
                }
                between_keeps_common_head(head@, from@, entries@[end as int].0@, key);
                assert(false);
            }
            assert(keys[j - start] =~= key);
        }
    }
    (start, end)
}

} // verus!

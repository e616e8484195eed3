//! The store in memory, as a store of bytes.
use store::{
    get_key_for_col, DBColumn, Error, EthSpec, Hash256, KeyValueStore, KeyValueStoreOp, MemoryStore,
};

struct Network;

impl EthSpec for Network {
    type SignedBeaconBlock = ();
    type BlindedBeaconBlock = ();
    type BeaconState = ();
    type BlobSidecarList = ();
    type HotStateSummary = ();
}

fn open() -> MemoryStore<Network> {
    MemoryStore::open()
}

#[test]
fn bytes_are_written_read_and_removed() {
    let mut store = open();
    assert_eq!(store.get_bytes("blk", b"k"), Ok(None));
    assert_eq!(store.key_exists("blk", b"k"), Ok(false));
    store.put_bytes("blk", b"k", b"one").unwrap();
    assert_eq!(store.get_bytes("blk", b"k"), Ok(Some(b"one".to_vec())));
    assert_eq!(store.key_exists("blk", b"k"), Ok(true));
    store.put_bytes_sync("blk", b"k", b"").unwrap();
    assert_eq!(store.get_bytes("blk", b"k"), Ok(Some(vec![])));
    store.key_delete("blk", b"k").unwrap();
    assert_eq!(store.get_bytes("blk", b"k"), Ok(None));
    store.key_delete("blk", b"k").unwrap();
    assert_eq!(store.key_exists("blk", b"k"), Ok(false));
}

#[test]
fn many_keys_are_kept_apart() {
    let mut store = open();
    for i in 0..=255u8 {
        let key = i.wrapping_mul(91);
        store.put_bytes("blk", &[key], &[key, 1]).unwrap();
    }
    for i in (0..=255u8).step_by(2) {
        store.key_delete("blk", &[i]).unwrap();
    }
    for i in 0..=255u8 {
        let expected = if i % 2 == 0 { None } else { Some(vec![i, 1]) };
        assert_eq!(store.get_bytes("blk", &[i]), Ok(expected));
    }
}

#[test]
fn batch_is_carried_out_in_order() {
    let mut store = open();
    store.put_bytes("ste", b"gone", b"x").unwrap();
    let key = |k: &[u8]| get_key_for_col(DBColumn::BeaconState.as_str(), k);
    store
        .do_atomically(vec![
            KeyValueStoreOp::PutKeyValue(key(b"a"), b"1".to_vec()),
            KeyValueStoreOp::DeleteKey(key(b"gone")),
            KeyValueStoreOp::PutKeyValue(key(b"b"), b"2".to_vec()),
            KeyValueStoreOp::PutKeyValue(key(b"a"), b"3".to_vec()),
            KeyValueStoreOp::DeleteKey(key(b"b")),
        ])
        .unwrap();
    assert_eq!(store.get_bytes("ste", b"a"), Ok(Some(b"3".to_vec())));
    assert_eq!(store.get_bytes("ste", b"b"), Ok(None));
    assert_eq!(store.get_bytes("ste", b"gone"), Ok(None));
    store.do_atomically(vec![]).unwrap();
    assert_eq!(store.get_bytes("ste", b"a"), Ok(Some(b"3".to_vec())));
}

#[test]
fn iteration_follows_the_keys() {
    let mut store = open();
    for key in [3u64, 1, 256, 2] {
        store.put_bytes("bbr", &key.to_be_bytes(), &[key as u8]).unwrap();
    }
    store.put_bytes("bch", &[0; 8], b"after").unwrap();
    store.put_bytes("bbq", &[0; 8], b"before").unwrap();
    let all = store.iter_column::<Vec<u8>>(DBColumn::BeaconBlockRoots);
    let expected: Vec<Result<(Vec<u8>, Vec<u8>), Error>> = [1u64, 2, 3, 256]
        .iter()
        .map(|key| Ok((key.to_be_bytes().to_vec(), vec![*key as u8])))
        .collect();
    assert_eq!(all, expected);
    let from_two = store.iter_column_from::<Vec<u8>>(DBColumn::BeaconBlockRoots, &2u64.to_be_bytes());
    assert_eq!(from_two, expected[1..]);
    let between = store.iter_column_from::<Vec<u8>>(DBColumn::BeaconBlockRoots, &4u64.to_be_bytes());
    assert_eq!(between, expected[3..]);
    let keys = store.iter_column_keys::<Vec<u8>>(DBColumn::BeaconBlockRoots);
    let expected_keys: Vec<Result<Vec<u8>, Error>> =
        [1u64, 2, 3, 256].iter().map(|key| Ok(key.to_be_bytes().to_vec())).collect();
    assert_eq!(keys, expected_keys);
    assert!(store.iter_column::<Vec<u8>>(DBColumn::BeaconStateRoots).is_empty());
}

#[test]
fn iteration_starts_at_the_zero_key() {
    let mut store = open();
    store.put_bytes("bbr", &[0; 7], b"short").unwrap();
    store.put_bytes("bbr", &[0; 8], b"zero").unwrap();
    store.put_bytes("bbr", &[1], b"one").unwrap();
    assert_eq!(
        store.iter_column::<Vec<u8>>(DBColumn::BeaconBlockRoots),
        vec![Ok((vec![0; 8], b"zero".to_vec())), Ok((vec![1], b"one".to_vec()))],
    );
    assert_eq!(
        store.iter_column_keys::<Vec<u8>>(DBColumn::BeaconBlockRoots),
        vec![Ok(vec![0; 7]), Ok(vec![0; 8]), Ok(vec![1])],
    );
}

#[test]
fn iteration_reads_keys() {
    let mut store = open();
    store.put_bytes("blk", &[5; 32], b"block").unwrap();
    store.put_bytes("blk", &[6; 31], b"?").unwrap();
    assert_eq!(
        store.iter_column::<Hash256>(DBColumn::BeaconBlock),
        vec![Ok((Hash256::from_slice(&[5; 32]), b"block".to_vec())), Err(Error::InvalidKey)],
    );
    assert_eq!(
        store.iter_column_keys::<Hash256>(DBColumn::BeaconBlock),
        vec![Ok(Hash256::from_slice(&[5; 32])), Err(Error::InvalidKey)],
    );
}

#[test]
fn other_columns_do_not_show_in_iterations() {
    let mut store = open();
    store.put_bytes("blk", &[5; 32], b"block").unwrap();
    let before = store.iter_column::<Hash256>(DBColumn::BeaconBlock);
    store.put_bytes("blb", &[5; 32], b"blob").unwrap();
    store.put_bytes("ste", &[5; 32], b"state").unwrap();
    assert_eq!(store.iter_column::<Hash256>(DBColumn::BeaconBlock), before);
    store.key_delete("blb", &[5; 32]).unwrap();
    assert_eq!(store.iter_column::<Hash256>(DBColumn::BeaconBlock), before);
}

#[test]
fn raw_iterations_are_empty() {
    let mut store = open();
    store.put_bytes("blk", &[5; 32], b"block").unwrap();
    assert!(store.iter_raw_entries(DBColumn::BeaconBlock, &[]).is_empty());
    assert!(store.iter_raw_keys(DBColumn::BeaconBlock, &[]).is_empty());
}

/// A store that cannot compact some columns.
struct Stubborn {
    inner: MemoryStore<Network>,
    refuses: Option<DBColumn>,
    asked: Vec<DBColumn>,
}

impl KeyValueStore<Network> for Stubborn {
    fn get_bytes(&self, column: &str, key: &[u8]) -> Result<Option<Vec<u8>>, Error> {
        self.inner.get_bytes(column, key)
    }

    fn put_bytes(&mut self, column: &str, key: &[u8], value: &[u8]) -> Result<(), Error> {
        self.inner.put_bytes(column, key, value)
    }

    fn put_bytes_sync(&mut self, column: &str, key: &[u8], value: &[u8]) -> Result<(), Error> {
        self.inner.put_bytes_sync(column, key, value)
    }

    fn sync(&mut self) -> Result<(), Error> {
        self.inner.sync()
    }

    fn key_exists(&self, column: &str, key: &[u8]) -> Result<bool, Error> {
        self.inner.key_exists(column, key)
    }

    fn key_delete(&mut self, column: &str, key: &[u8]) -> Result<(), Error> {
        self.inner.key_delete(column, key)
    }

    fn do_atomically(&mut self, batch: Vec<KeyValueStoreOp>) -> Result<(), Error> {
        self.inner.do_atomically(batch)
    }

    fn compact_column(&mut self, column: DBColumn) -> Result<(), Error> {
        self.asked.push(column);
        if self.refuses == Some(column) {
            Err(Error::DBError { message: "busy".to_string() })
        } else {
            self.inner.compact_column(column)
        }
    }

    fn iter_column_from<K: store::Key>(&self, column: DBColumn, from: &[u8]) -> store::ColumnIter<K> {
        self.inner.iter_column_from(column, from)
    }

    fn iter_column_keys<K: store::Key>(&self, column: DBColumn) -> store::ColumnKeyIter<K> {
        self.inner.iter_column_keys(column)
    }
}

#[test]
fn compaction_goes_through_states_and_blocks() {
    let mut store = Stubborn { inner: open(), refuses: None, asked: vec![] };
    store.put_bytes("blk", &[5; 32], b"block").unwrap();
    assert_eq!(store.compact(), Ok(()));
    assert_eq!(
        store.asked,
        vec![DBColumn::BeaconState, DBColumn::BeaconStateSummary, DBColumn::BeaconBlock],
    );
    assert_eq!(store.get_bytes("blk", &[5; 32]), Ok(Some(b"block".to_vec())));
    assert_eq!(open().compact(), Ok(()));
}

#[test]
fn compaction_ends_at_the_first_failure() {
    let mut store = Stubborn {
        inner: open(),
        refuses: Some(DBColumn::BeaconStateSummary),
        asked: vec![],
    };
    assert_eq!(store.compact(), Err(Error::DBError { message: "busy".to_string() }));
    assert_eq!(store.asked, vec![DBColumn::BeaconState, DBColumn::BeaconStateSummary]);
}

#[test]
fn compaction_follows_its_columns() {
    let busy = Err(Error::DBError { message: "busy".to_string() });
    for (column, outcome) in [
        (DBColumn::BeaconState, busy.clone()),
        (DBColumn::BeaconStateSummary, busy.clone()),
        (DBColumn::BeaconBlock, busy),
        (DBColumn::BeaconBlob, Ok(())),
        (DBColumn::ForkChoice, Ok(())),
    ] {
        let mut store = Stubborn { inner: open(), refuses: Some(column), asked: vec![] };
        assert_eq!(store.compact(), outcome);
    }
}

//! Items in a store.
use ssz::{Decode, DecodeError, Encode, SszDecoderBuilder, SszEncoder};
use store::{
    get_col_from_key, DBColumn, Error, EthSpec, Hash256, ItemStore, KeyValueStore, KeyValueStoreOp,
    MemoryStore, StoreItem,
};

struct MinimalEthSpec;

impl EthSpec for MinimalEthSpec {
    type SignedBeaconBlock = ();
    type BlindedBeaconBlock = ();
    type BeaconState = ();
    type BlobSidecarList = ();
    type HotStateSummary = ();
}

#[derive(PartialEq, Debug)]
struct StorableThing {
    a: u64,
    b: u64,
}

impl Encode for StorableThing {
    fn is_ssz_fixed_len() -> bool {
        true
    }

    fn ssz_fixed_len() -> usize {
        16
    }

    fn ssz_bytes_len(&self) -> usize {
        16
    }

    fn ssz_append(&self, buf: &mut Vec<u8>) {
        let mut encoder = SszEncoder::container(buf, 16);
        encoder.append(&self.a);
        encoder.append(&self.b);
        encoder.finalize();
    }
}

impl Decode for StorableThing {
    fn is_ssz_fixed_len() -> bool {
        true
    }

    fn ssz_fixed_len() -> usize {
        16
    }

    fn from_ssz_bytes(bytes: &[u8]) -> Result<Self, DecodeError> {
        let mut builder = SszDecoderBuilder::new(bytes);
        builder.register_type::<u64>()?;
        builder.register_type::<u64>()?;
        let mut decoder = builder.build()?;
        Ok(StorableThing {
            a: decoder.decode_next()?,
            b: decoder.decode_next()?,
        })
    }
}

impl StoreItem for StorableThing {
    fn db_column() -> DBColumn {
        DBColumn::BeaconBlock
    }

    fn as_store_bytes(&self) -> Vec<u8> {
        self.as_ssz_bytes()
    }

    fn from_store_bytes(bytes: &[u8]) -> Result<Self, Error> {
        Self::from_ssz_bytes(bytes).map_err(|e| Error::DecodeError { message: format!("{:?}", e) })
    }
}

/// Text, in another column.
#[derive(PartialEq, Debug)]
struct Note(String);

impl StoreItem for Note {
    fn db_column() -> DBColumn {
        DBColumn::BeaconMeta
    }

    fn as_store_bytes(&self) -> Vec<u8> {
        self.0.as_bytes().to_vec()
    }

    fn from_store_bytes(bytes: &[u8]) -> Result<Self, Error> {
        String::from_utf8(bytes.to_vec())
            .map(Note)
            .map_err(|e| Error::DecodeError { message: e.to_string() })
    }
}

fn random_key() -> Hash256 {
    Hash256::from_slice(ethereum_types::H256::random().as_bytes())
}

fn test_impl(mut store: impl ItemStore<MinimalEthSpec>) {
    let key = random_key();
    let item = StorableThing { a: 1, b: 42 };

    assert!(!store.item_exists::<StorableThing>(&key).unwrap());

    store.put(&key, &item).unwrap();

    assert!(store.item_exists::<StorableThing>(&key).unwrap());

    let retrieved = store.get(&key).unwrap().unwrap();
    assert_eq!(item, retrieved);

    store.delete::<StorableThing>(&key).unwrap();

    assert!(!store.item_exists::<StorableThing>(&key).unwrap());

    assert_eq!(store.get::<StorableThing>(&key).unwrap(), None);
}

#[test]
fn memorydb() {
    let store = MemoryStore::open();

    test_impl(store);
}

#[test]
fn item_exists() {
    let mut store = MemoryStore::<MinimalEthSpec>::open();
    let key = random_key();
    let item = StorableThing { a: 1, b: 42 };

    assert!(!store.item_exists::<StorableThing>(&key).unwrap());

    store.put(&key, &item).unwrap();

    assert!(store.item_exists::<StorableThing>(&key).unwrap());

    store.delete::<StorableThing>(&key).unwrap();

    assert!(!store.item_exists::<StorableThing>(&key).unwrap());
}

#[test]
fn put_sync_stores_too() {
    let mut store = MemoryStore::<MinimalEthSpec>::open();
    let key = Hash256::from_slice(&[7; 32]);
    store.put_sync(&key, &StorableThing { a: 3, b: 4 }).unwrap();
    assert_eq!(store.get(&key), Ok(Some(StorableThing { a: 3, b: 4 })));
    store.sync().unwrap();
    assert_eq!(store.get(&key), Ok(Some(StorableThing { a: 3, b: 4 })));
}

#[test]
fn later_item_is_held() {
    let mut store = MemoryStore::<MinimalEthSpec>::open();
    let key = Hash256::from_slice(&[7; 32]);
    store.put(&key, &StorableThing { a: 1, b: 1 }).unwrap();
    store.put(&key, &StorableThing { a: 2, b: 2 }).unwrap();
    assert_eq!(store.get(&key), Ok(Some(StorableThing { a: 2, b: 2 })));
}

#[test]
fn items_do_not_disturb_each_other() {
    let mut store = MemoryStore::<MinimalEthSpec>::open();
    let key = Hash256::from_slice(&[7; 32]);
    let other = Hash256::from_slice(&[8; 32]);
    let note = Note("seven".to_string());
    store.put(&key, &note).unwrap();
    store.put(&key, &StorableThing { a: 1, b: 42 }).unwrap();
    store.put(&other, &StorableThing { a: 5, b: 6 }).unwrap();
    assert_eq!(store.get(&key), Ok(Some(Note("seven".to_string()))));
    store.delete::<StorableThing>(&key).unwrap();
    assert_eq!(store.get::<StorableThing>(&key), Ok(None));
    assert_eq!(store.get(&other), Ok(Some(StorableThing { a: 5, b: 6 })));
    assert_eq!(store.get(&key), Ok(Some(note)));
    assert!(!store.item_exists::<Note>(&other).unwrap());
}

#[test]
fn item_is_kept_in_its_column() {
    let mut store = MemoryStore::<MinimalEthSpec>::open();
    let key = Hash256::from_slice(&[7; 32]);
    store.put(&key, &StorableThing { a: 1, b: 42 }).unwrap();
    assert_eq!(
        store.get_bytes("blk", &[7; 32]),
        Ok(Some(vec![1, 0, 0, 0, 0, 0, 0, 0, 42, 0, 0, 0, 0, 0, 0, 0])),
    );
    assert_eq!(store.get_bytes("bma", &[7; 32]), Ok(None));
}

#[test]
fn broken_item_is_an_error() {
    let mut store = MemoryStore::<MinimalEthSpec>::open();
    let key = Hash256::from_slice(&[7; 32]);
    store.put_bytes("blk", &[7; 32], &[1, 2, 3]).unwrap();
    assert!(store.item_exists::<StorableThing>(&key).unwrap());
    assert!(matches!(store.get::<StorableThing>(&key), Err(Error::DecodeError { .. })));
}

#[test]
fn reads_become_items() {
    let failure = Error::DBError { message: "closed".to_string() };
    assert_eq!(store::item::retrieve_item::<Note>(Err(failure.clone())), Err(failure));
    assert_eq!(store::item::retrieve_item::<Note>(Ok(None)), Ok(None));
    assert_eq!(
        store::item::retrieve_item::<Note>(Ok(Some(b"hi".to_vec()))),
        Ok(Some(Note("hi".to_string()))),
    );
    assert!(matches!(
        store::item::retrieve_item::<Note>(Ok(Some(vec![0xff]))),
        Err(Error::DecodeError { .. }),
    ));
}

#[test]
fn operation_of_item_puts_it() {
    let mut store = MemoryStore::<MinimalEthSpec>::open();
    let key = Hash256::from_slice(&[9; 32]);
    let item = StorableThing { a: 1, b: 42 };
    let op = item.as_kv_store_op(key);
    match &op {
        KeyValueStoreOp::PutKeyValue(db_key, value) => {
            assert_eq!(db_key.len(), 35);
            assert_eq!(get_col_from_key(db_key), Some("blk".to_string()));
            assert_eq!(value, &item.as_store_bytes());
        }
        KeyValueStoreOp::DeleteKey(_) => panic!("not a write"),
    }
    store.do_atomically(vec![op]).unwrap();
    assert_eq!(store.get(&key), Ok(Some(item)));
}

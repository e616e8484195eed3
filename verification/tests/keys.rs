//! Database keys and what is read from them.
use store::{get_col_from_key, get_key_for_col, DBColumn, Error, Hash256, Key};

#[test]
fn test_get_col_from_key() {
    let key = get_key_for_col(DBColumn::BeaconBlock.into(), &[1u8; 32]);
    let col = get_col_from_key(&key).unwrap();
    assert_eq!(col, "blk");
}

#[test]
fn database_key_is_name_then_key() {
    assert_eq!(get_key_for_col("blk", &[1, 2]), vec![b'b', b'l', b'k', 1, 2]);
    assert_eq!(get_key_for_col("", &[7]), vec![7]);
    assert_eq!(get_key_for_col("\u{e9}", &[]), vec![0xc3, 0xa9]);
}

#[test]
fn short_keys_have_no_column() {
    assert_eq!(get_col_from_key(&[]), None);
    assert_eq!(get_col_from_key(b"bl"), None);
    assert_eq!(get_col_from_key(b"blk"), Some("blk".to_string()));
}

#[test]
fn column_is_text() {
    // A byte that occurs in no text, a character cut off, and one that takes all three bytes.
    assert_eq!(get_col_from_key(&[0xff, b'l', b'k', 0]), None);
    assert_eq!(get_col_from_key(&[b'b', b'l', 0xc3, 0xa9]), None);
    assert_eq!(get_col_from_key("\u{20ac}x".as_bytes()), Some("\u{20ac}".to_string()));
    // An overlong form, and half of a surrogate pair.
    assert_eq!(get_col_from_key(&[0xe0, 0x80, 0x80]), None);
    assert_eq!(get_col_from_key(&[0xed, 0xa0, 0x80]), None);
}

#[test]
fn column_is_cut_off_the_head() {
    let key = get_key_for_col("ste", &[0xff, 0xfe]);
    let column = get_col_from_key(&key).unwrap();
    assert_eq!(get_key_for_col(&column, &key[3..]), key);
}

#[test]
fn keys_do_not_clash() {
    assert_ne!(
        get_key_for_col(DBColumn::BeaconBlock.as_str(), &[1]),
        get_key_for_col(DBColumn::BeaconBlob.as_str(), &[1]),
    );
    assert_ne!(
        get_key_for_col(DBColumn::BeaconBlock.as_str(), &[1]),
        get_key_for_col(DBColumn::BeaconBlock.as_str(), &[1, 0]),
    );
}

#[test]
fn hash_key_takes_32_bytes() {
    let bytes: Vec<u8> = (0..32).collect();
    let hash = <Hash256 as Key>::from_bytes(&bytes).unwrap();
    assert_eq!(hash.as_bytes(), &bytes[..]);
    assert_eq!(hash, Hash256::from_slice(&bytes));
    assert_eq!(<Hash256 as Key>::from_bytes(hash.as_bytes()), Ok(hash));
    assert_eq!(<Hash256 as Key>::from_bytes(&bytes[1..]), Err(Error::InvalidKey));
    assert_eq!(<Hash256 as Key>::from_bytes(&[0; 33]), Err(Error::InvalidKey));
    assert_eq!(<Hash256 as Key>::from_bytes(&[]), Err(Error::InvalidKey));
}

#[test]
fn byte_key_takes_all_bytes() {
    assert_eq!(<Vec<u8> as Key>::from_bytes(&[]), Ok(vec![]));
    assert_eq!(<Vec<u8> as Key>::from_bytes(&[3, 1, 2]), Ok(vec![3, 1, 2]));
}

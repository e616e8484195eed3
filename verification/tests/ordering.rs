//! The order of byte strings, and the data of operations.
use std::sync::Arc;

use store::bytes::{bytes_equal, bytes_precede, has_head};
use store::{DatabaseBlock, EthSpec, Hash256, KeyValueStoreOp, Slot, StoreOp};

#[test]
fn byte_strings_are_in_lexicographic_order() {
    let strings: [&[u8]; 6] = [&[], &[0], &[0, 0], &[0, 1], &[1], &[255]];
    for (i, a) in strings.iter().enumerate() {
        for (j, b) in strings.iter().enumerate() {
            assert_eq!(bytes_precede(a, b), i < j);
            assert_eq!(bytes_equal(a, b), i == j);
        }
    }
}

#[test]
fn heads_are_found() {
    assert!(has_head(b"blk1", b"blk"));
    assert!(has_head(b"blk", b""));
    assert!(!has_head(b"bl", b"blk"));
    assert!(!has_head(b"blb1", b"blk"));
}

#[derive(Clone)]
struct Network;

impl EthSpec for Network {
    type SignedBeaconBlock = String;
    type BlindedBeaconBlock = u8;
    type BeaconState = u64;
    type BlobSidecarList = Vec<u8>;
    type HotStateSummary = u32;
}

#[test]
fn operations_can_be_cloned() {
    let root = Hash256::from_slice(&[1; 32]);
    let state = 17u64;
    let ops: Vec<StoreOp<'_, Network>> = vec![
        StoreOp::PutBlock(root, Arc::new("block".to_string())),
        StoreOp::PutState(root, &state),
        StoreOp::PutBlobs(root, vec![1]),
        StoreOp::PutStateSummary(root, 3),
        StoreOp::DeleteState(root, Some(Slot(4))),
        StoreOp::KeyValueOp(KeyValueStoreOp::DeleteKey(vec![9])),
    ];
    let copies = ops.clone();
    assert_eq!(copies.len(), 6);
    assert!(matches!(&copies[0], StoreOp::PutBlock(_, block) if **block == "block"));
    assert!(matches!(copies[1], StoreOp::PutState(_, 17)));
    assert!(matches!(copies[4], StoreOp::DeleteState(_, Some(Slot(4)))));
    assert!(matches!(
        &copies[5],
        StoreOp::KeyValueOp(KeyValueStoreOp::DeleteKey(key)) if key == &vec![9],
    ));
}

#[test]
fn blocks_are_full_or_blinded() {
    let full: DatabaseBlock<Network> = DatabaseBlock::Full("block".to_string());
    let blinded: DatabaseBlock<Network> = DatabaseBlock::Blinded(1);
    assert!(matches!(full, DatabaseBlock::Full(_)));
    assert!(matches!(blinded, DatabaseBlock::Blinded(1)));
}

//! The columns: their names, and the sizes of their keys.
use std::str::FromStr;

use store::{DBColumn, ParseError};

const COLUMNS: [(DBColumn, &str, usize); 21] = [
    (DBColumn::BeaconMeta, "bma", 32),
    (DBColumn::BeaconBlock, "blk", 32),
    (DBColumn::BeaconBlob, "blb", 32),
    (DBColumn::BeaconState, "ste", 32),
    (DBColumn::BeaconStateSummary, "bss", 32),
    (DBColumn::BeaconStateTemporary, "bst", 32),
    (DBColumn::ExecPayload, "exp", 32),
    (DBColumn::BeaconChain, "bch", 32),
    (DBColumn::OpPool, "opo", 32),
    (DBColumn::Eth1Cache, "etc", 32),
    (DBColumn::ForkChoice, "frk", 32),
    (DBColumn::PubkeyCache, "pkc", 32),
    (DBColumn::BeaconRestorePoint, "brp", 32),
    (DBColumn::BeaconBlockRoots, "bbr", 8),
    (DBColumn::BeaconStateRoots, "bsr", 8),
    (DBColumn::BeaconHistoricalRoots, "bhr", 8),
    (DBColumn::BeaconRandaoMixes, "brm", 8),
    (DBColumn::DhtEnrs, "dht", 32),
    (DBColumn::OptimisticTransitionBlock, "otb", 32),
    (DBColumn::BeaconHistoricalSummaries, "bhs", 8),
    (DBColumn::OverflowLRUCache, "olc", 33),
];

#[test]
fn columns_have_their_names() {
    for (column, name, _) in COLUMNS {
        assert_eq!(column.as_str(), name);
        assert_eq!(column.as_bytes(), name.as_bytes());
        let by_value: &'static str = column.into();
        assert_eq!(by_value, name);
        let by_reference: &'static str = (&column).into();
        assert_eq!(by_reference, name);
    }
}

#[test]
fn columns_have_their_key_sizes() {
    for (column, _, size) in COLUMNS {
        assert_eq!(column.key_size(), size);
    }
}

#[test]
fn names_are_read_as_columns() {
    for (column, name, _) in COLUMNS {
        assert_eq!(DBColumn::from_name(name), Ok(column));
        assert_eq!(DBColumn::from_str(name), Ok(column));
        assert_eq!(DBColumn::try_from(name), Ok(column));
    }
}

#[test]
fn other_text_names_no_column() {
    for text in ["", "b", "BLK", "blk ", "BeaconBlock", "bl\u{e9}", "xyz"] {
        assert_eq!(DBColumn::from_name(text), Err(ParseError::VariantNotFound));
        assert_eq!(DBColumn::from_str(text), Err(ParseError::VariantNotFound));
        assert_eq!(DBColumn::try_from(text), Err(ParseError::VariantNotFound));
    }
}

#[test]
fn names_of_columns_differ() {
    for (i, (_, a, _)) in COLUMNS.iter().enumerate() {
        for (_, b, _) in COLUMNS.iter().skip(i + 1) {
            assert_ne!(a, b);
        }
    }
}

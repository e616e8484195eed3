//! Storage operations as values, and the data that they carry.
use vstd::prelude::*;

use std::sync::Arc;

use crate::hash::Hash256;

verus! {

/// What a database holds: byte strings, found by their database keys.
pub type Contents = Map<Seq<u8>, Seq<u8>>;

/// A change of one entry of the database.
#[must_use]
#[derive(Clone)]
pub enum KeyValueStoreOp {
    PutKeyValue(Vec<u8>, Vec<u8>),
    DeleteKey(Vec<u8>),
}

impl KeyValueStoreOp {
    /// What a database that held `db` holds after this operation.
    pub open spec fn apply(self, db: Contents) -> Contents {
        match self {
            KeyValueStoreOp::PutKeyValue(key, value) => db.insert(key@, value@),
            KeyValueStoreOp::DeleteKey(key) => db.remove(key@),
        }
    }
}

/// What a database that held `db` holds after the operations of `batch`, the first one first.
pub open spec fn apply_batch(db: Contents, batch: Seq<KeyValueStoreOp>) -> Contents
    decreases batch.len(),
{
    if batch.len() == 0 {
        db
    } else {
        batch.last().apply(apply_batch(db, batch.drop_last()))
    }
}

/// The data types of one network preset.
pub trait EthSpec: Sync + Send + Sized + 'static {
    type SignedBeaconBlock;

    type BlindedBeaconBlock;

    type BeaconState;

    type BlobSidecarList;

    type HotStateSummary;
}

/// The number of a slot.
#[derive(Debug, Clone, Copy, PartialEq, Eq, PartialOrd, Ord, Hash)]
pub struct Slot(pub u64);

/// Reified key-value storage operation.  Helps in modifying the storage atomically.
#[derive(Clone)]
pub enum StoreOp<'a, E: EthSpec> {
    PutBlock(Hash256, Arc<E::SignedBeaconBlock>),
    PutState(Hash256, &'a E::BeaconState),
    PutBlobs(Hash256, E::BlobSidecarList),
    PutStateSummary(Hash256, E::HotStateSummary),
    PutStateTemporaryFlag(Hash256),
    DeleteStateTemporaryFlag(Hash256),
    DeleteBlock(Hash256),
    DeleteBlobs(Hash256),
    DeleteState(Hash256, Option<Slot>),
    DeleteExecutionPayload(Hash256),
    KeyValueOp(KeyValueStoreOp),
}

/// A block from the database, which might have an execution payload or not.
pub enum DatabaseBlock<E: EthSpec> {
    Full(E::SignedBeaconBlock),
    Blinded(E::BlindedBeaconBlock),
}

} // verus!

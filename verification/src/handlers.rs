//! Per-checkpoint batches: the shapes in which higher layers pack the
//! engines' outputs before handing them to the store.

use crate::types::{Object, ObjectId};
use vstd::prelude::*;

verus! {

/// One object a transaction wrote, bound to the checkpoint that
/// produced it.
#[derive(Debug)]
pub struct IndexedObject {
    pub checkpoint_sequence_number: u64,
    pub object: Object,
}

/// One object a transaction removed, bound to the checkpoint that
/// removed it.
#[derive(Clone, Copy, Debug, PartialEq, Eq, Structural, Hash)]
pub struct IndexedDeletedObject {
    pub object_id: ObjectId,
    pub object_version: u64,
    pub checkpoint_sequence_number: u64,
}

/// The object changes of one transaction, packed for the store: the
/// objects it wrote and the objects it removed.
#[derive(Debug)]
pub struct TransactionObjectChangesToCommit {
    pub changed_objects: Vec<IndexedObject>,
    pub deleted_objects: Vec<IndexedDeletedObject>,
}

/// One epoch as the store records it.
#[derive(Clone, Copy, Debug, PartialEq, Eq, Structural, Hash)]
pub struct IndexedEpochInfo {
    pub epoch: u64,
    pub first_checkpoint_id: u64,
}

/// An epoch boundary to commit: the epoch that ends, if the chain is
/// past its first, and the epoch that begins.
#[derive(Clone, Copy, Debug, PartialEq, Eq, Structural, Hash)]
pub struct EpochToCommit {
    pub last_epoch: Option<IndexedEpochInfo>,
    pub new_epoch: IndexedEpochInfo,
}

/// One checkpoint as the store records it.
#[derive(Clone, Copy, Debug, PartialEq, Eq, Structural, Hash)]
pub struct IndexedCheckpoint {
    pub sequence_number: u64,
    pub epoch: u64,
    pub timestamp_ms: u64,
}

/// One transaction as the store records it.
#[derive(Clone, Copy, Debug, PartialEq, Eq, Structural, Hash)]
pub struct IndexedTransaction {
    pub tx_sequence_number: u64,
    pub checkpoint_sequence_number: u64,
}

/// One transaction with the extra detail the extended pipeline carries:
/// the checkpoint's timestamp travels with it.
#[derive(Clone, Copy, Debug, PartialEq, Eq, Structural, Hash)]
pub struct CustomIndexedTransaction {
    pub tx_sequence_number: u64,
    pub checkpoint_sequence_number: u64,
    pub timestamp_ms: u64,
}

impl From<CustomIndexedTransaction> for IndexedTransaction {
    fn from(t: CustomIndexedTransaction) -> (r: Self) {
        IndexedTransaction {
            tx_sequence_number: t.tx_sequence_number,
            checkpoint_sequence_number: t.checkpoint_sequence_number,
        }
    }
}

impl vstd::std_specs::convert::FromSpecImpl<CustomIndexedTransaction> for IndexedTransaction {
    open spec fn obeys_from_spec() -> bool {
        true
    }

    open spec fn from_spec(t: CustomIndexedTransaction) -> Self {
        IndexedTransaction {
            tx_sequence_number: t.tx_sequence_number,
            checkpoint_sequence_number: t.checkpoint_sequence_number,
        }
    }
}

/// One event as the store records it.
#[derive(Clone, Copy, Debug, PartialEq, Eq, Structural, Hash)]
pub struct IndexedEvent {
    pub tx_sequence_number: u64,
    pub event_sequence_number: u64,
}

/// One transaction's position in the side indices.
#[derive(Clone, Copy, Debug, PartialEq, Eq, Structural, Hash)]
pub struct TxIndex {
    pub tx_sequence_number: u64,
}

/// One display-template row: the template's version and its serialized
/// form, keyed in the batch by the object type it renders.
#[derive(Debug)]
pub struct StoredDisplay {
    pub version: u64,
    pub bcs: Vec<u8>,
}

/// One package as the store records it.
#[derive(Clone, Copy, Debug, PartialEq, Eq, Structural, Hash)]
pub struct IndexedPackage {
    pub package_id: ObjectId,
    pub checkpoint_sequence_number: u64,
}

/// Everything one checkpoint commits to the store.
#[derive(Debug)]
pub struct CheckpointDataToCommit {
    pub checkpoint: IndexedCheckpoint,
    pub transactions: Vec<IndexedTransaction>,
    pub events: Vec<IndexedEvent>,
    pub tx_indices: Vec<TxIndex>,
    pub display_updates: Vec<(String, StoredDisplay)>,
    pub object_changes: TransactionObjectChangesToCommit,
    pub object_history_changes: TransactionObjectChangesToCommit,
    pub packages: Vec<IndexedPackage>,
    pub epoch: Option<EpochToCommit>,
}

/// The same batch as the extended pipeline builds it, with the extended
/// transaction rows.
#[derive(Debug)]
pub struct CustomCheckpointDataToCommit {
    pub checkpoint: IndexedCheckpoint,
    pub transactions: Vec<CustomIndexedTransaction>,
    pub events: Vec<IndexedEvent>,
    pub tx_indices: Vec<TxIndex>,
    pub display_updates: Vec<(String, StoredDisplay)>,
    pub object_changes: TransactionObjectChangesToCommit,
    pub object_history_changes: TransactionObjectChangesToCommit,
    pub packages: Vec<IndexedPackage>,
    pub epoch: Option<EpochToCommit>,
}

impl CheckpointDataToCommit {
    /// Repacks an extended batch as a plain one: every field moves over
    /// unchanged and each transaction row drops its extra detail.
    pub fn from(data: CustomCheckpointDataToCommit) -> (r: Self)
        ensures
            r.checkpoint == data.checkpoint,
            r.transactions@ == data.transactions@.map_values(
                |t: CustomIndexedTransaction| IndexedTransaction {
                    tx_sequence_number: t.tx_sequence_number,
                    checkpoint_sequence_number: t.checkpoint_sequence_number,
                },
            ),
            r.events == data.events,
            r.tx_indices == data.tx_indices,
            r.display_updates == data.display_updates,
            r.object_changes == data.object_changes,
            r.object_history_changes == data.object_history_changes,
            r.packages == data.packages,
            r.epoch == data.epoch,
    {
        let n = data.transactions.len();
        let mut transactions: Vec<IndexedTransaction> = Vec::new();
        let mut i: usize = 0;
        while i < n
            invariant
                n == data.transactions@.len(),
                i <= n,
                transactions@ == data.transactions@.take(i as int).map_values(
                    |t: CustomIndexedTransaction| IndexedTransaction {
                        tx_sequence_number: t.tx_sequence_number,
                        checkpoint_sequence_number: t.checkpoint_sequence_number,
                    },
                ),
            decreases n - i,
        {
            let t = data.transactions[i];
            transactions.push(IndexedTransaction::from(t));
            proof {
                assert(transactions@ =~= data.transactions@.take(i + 1).map_values(
                    |t2: CustomIndexedTransaction| IndexedTransaction {
                        tx_sequence_number: t2.tx_sequence_number,
                        checkpoint_sequence_number: t2.checkpoint_sequence_number,
                    },
                ));
            }
            i = i + 1;
        }
        proof {
            assert(data.transactions@.take(n as int) =~= data.transactions@);
        }
        CheckpointDataToCommit {
            checkpoint: data.checkpoint,
            transactions,
            events: data.events,
            tx_indices: data.tx_indices,
            display_updates: data.display_updates,
            object_changes: data.object_changes,
            object_history_changes: data.object_history_changes,
            packages: data.packages,
            epoch: data.epoch,
        }
    }
}

} // verus!

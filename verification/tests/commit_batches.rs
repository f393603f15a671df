//! The per-checkpoint commit batches and their conversions.

use indexer_core::extended::{BalanceChangeWithStatus, ObjectStatus};
use indexer_core::handlers::{
    CheckpointDataToCommit, CustomCheckpointDataToCommit, CustomIndexedTransaction, EpochToCommit,
    IndexedCheckpoint, IndexedEpochInfo, IndexedTransaction, TransactionObjectChangesToCommit,
};
use indexer_core::types::{BalanceChange, ObjectId, Owner, SuiAddress, TypeTag};

#[test]
fn extended_batch_repacks_as_plain_batch() {
    let custom = CustomCheckpointDataToCommit {
        checkpoint: IndexedCheckpoint { sequence_number: 7, epoch: 1, timestamp_ms: 1000 },
        transactions: vec![
            CustomIndexedTransaction {
                tx_sequence_number: 40,
                checkpoint_sequence_number: 7,
                timestamp_ms: 1000,
            },
            CustomIndexedTransaction {
                tx_sequence_number: 41,
                checkpoint_sequence_number: 7,
                timestamp_ms: 1001,
            },
        ],
        events: Vec::new(),
        tx_indices: Vec::new(),
        display_updates: Vec::new(),
        object_changes: TransactionObjectChangesToCommit {
            changed_objects: Vec::new(),
            deleted_objects: Vec::new(),
        },
        object_history_changes: TransactionObjectChangesToCommit {
            changed_objects: Vec::new(),
            deleted_objects: Vec::new(),
        },
        packages: Vec::new(),
        epoch: Some(EpochToCommit {
            last_epoch: None,
            new_epoch: IndexedEpochInfo { epoch: 1, first_checkpoint_id: 0 },
        }),
    };
    let plain = CheckpointDataToCommit::from(custom);
    assert_eq!(plain.checkpoint.sequence_number, 7);
    assert_eq!(plain.transactions.len(), 2);
    assert_eq!(
        plain.transactions[0],
        IndexedTransaction { tx_sequence_number: 40, checkpoint_sequence_number: 7 }
    );
    assert_eq!(
        plain.transactions[1],
        IndexedTransaction { tx_sequence_number: 41, checkpoint_sequence_number: 7 }
    );
    assert_eq!(plain.epoch.unwrap().new_epoch.epoch, 1);
}

#[test]
fn transaction_row_conversion_drops_extra_detail() {
    let t = CustomIndexedTransaction {
        tx_sequence_number: 9,
        checkpoint_sequence_number: 3,
        timestamp_ms: 555,
    };
    let r = IndexedTransaction::from(t);
    assert_eq!(r, IndexedTransaction { tx_sequence_number: 9, checkpoint_sequence_number: 3 });
}

#[test]
fn status_record_converts_to_plain_balance_change() {
    let a = Owner::AddressOwner(SuiAddress::from_u64(1));
    let b = BalanceChangeWithStatus {
        owner: a,
        coin_type: TypeTag::Gas,
        amount: -5,
        object_id: ObjectId::from_u64(10),
        status: ObjectStatus::Mutated,
    };
    let plain = BalanceChange::from(b);
    assert_eq!(plain, BalanceChange { owner: a, coin_type: TypeTag::Gas, amount: -5 });
}

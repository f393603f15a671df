//! The extended balance-change engine: per-object records, status
//! classification and the synthetic gas record.

use indexer_core::extended::{
    custom_get_balance_changes, get_balance_changes_with_status_from_effect, BalanceChangeWithStatus,
    CustomBalanceChange, ObjectStatus,
};
use indexer_core::provider::MemoryObjectProvider;
use indexer_core::types::{
    ChangedObject, EngineError, ExecutionStatus, Object, ObjectData, ObjectDigest, ObjectId,
    ObjectLookup, ObjectRef, Owner, RemovedObject, StructTag, SuiAddress, TransactionEffects,
    TypeTag,
};

fn addr(n: u64) -> SuiAddress {
    SuiAddress::from_u64(n)
}

fn oid(n: u64) -> ObjectId {
    ObjectId::from_u64(n)
}

fn coin_object(
    id: u64,
    version: u64,
    digest: u64,
    owner: Owner,
    currency: TypeTag,
    balance: u64,
) -> Object {
    let mut contents = vec![0u8; 32];
    let b = balance.to_le_bytes();
    let mut k = 0;
    while k < 8 {
        contents.push(b[k]);
        k += 1;
    }
    Object {
        id: oid(id),
        version,
        digest: ObjectDigest::new(digest),
        owner,
        data: ObjectData::Move { type_tag: StructTag::Coin(currency), contents },
    }
}

fn lookup(id: u64, version: u64) -> ObjectLookup {
    ObjectLookup { id: oid(id), version, digest: None }
}

fn effects(status: ExecutionStatus, gas_owner: Owner, net_gas: i64) -> TransactionEffects {
    TransactionEffects {
        status,
        gas_object: ObjectRef { id: oid(900), version: 1, digest: ObjectDigest::new(0) },
        gas_owner,
        net_gas_usage: net_gas,
        modified_at_versions: Vec::new(),
        all_changed_objects: Vec::new(),
        all_removed_objects: Vec::<RemovedObject>::new(),
        unwrapped_then_deleted: Vec::<ObjectRef>::new(),
    }
}

#[test]
fn per_object_records_keep_zero_nets() {
    // per-object accumulation: one record per object, kept even at zero
    let a = Owner::AddressOwner(addr(1));
    let mut provider = MemoryObjectProvider::new();
    provider.add_object(coin_object(10, 1, 11, a, TypeTag::Gas, 100));
    provider.add_object(coin_object(10, 2, 12, a, TypeTag::Gas, 100));
    let ins = vec![lookup(10, 1)];
    let outs = vec![lookup(10, 2)];
    let r = custom_get_balance_changes(&mut provider, &ins, &outs).unwrap();
    assert_eq!(r.len(), 1);
    assert_eq!(
        r[0],
        CustomBalanceChange { owner: a, coin_type: TypeTag::Gas, amount: 0, object_id: oid(10) }
    );
}

#[test]
fn per_object_records_split_by_object() {
    let a = Owner::AddressOwner(addr(1));
    let mut provider = MemoryObjectProvider::new();
    provider.add_object(coin_object(10, 1, 11, a, TypeTag::Gas, 100));
    provider.add_object(coin_object(10, 2, 12, a, TypeTag::Gas, 40));
    provider.add_object(coin_object(20, 2, 13, a, TypeTag::Gas, 60));
    let ins = vec![lookup(10, 1)];
    let outs = vec![lookup(10, 2), lookup(20, 2)];
    let r = custom_get_balance_changes(&mut provider, &ins, &outs).unwrap();
    assert_eq!(r.len(), 2);
    let c1 = CustomBalanceChange { owner: a, coin_type: TypeTag::Gas, amount: -60, object_id: oid(10) };
    let c2 = CustomBalanceChange { owner: a, coin_type: TypeTag::Gas, amount: 60, object_id: oid(20) };
    assert!(r.contains(&c1));
    assert!(r.contains(&c2));
}

#[test]
fn failure_yields_single_mutated_gas_record() {
    let a = Owner::AddressOwner(addr(1));
    let mut provider = MemoryObjectProvider::new();
    let fx = effects(ExecutionStatus::Failure, a, 7);
    let r = get_balance_changes_with_status_from_effect(
        &mut provider,
        &fx,
        &Vec::new(),
        None,
        &Vec::new(),
        &Vec::new(),
        &Vec::new(),
    )
    .unwrap();
    assert_eq!(r.len(), 1);
    assert_eq!(
        r[0],
        BalanceChangeWithStatus {
            owner: a,
            coin_type: TypeTag::Gas,
            amount: -7,
            object_id: oid(900),
            status: ObjectStatus::Mutated,
        }
    );
}

#[test]
fn success_appends_gas_charge_marker() {
    let a = Owner::AddressOwner(addr(1));
    let mut provider = MemoryObjectProvider::new();
    let fx = effects(ExecutionStatus::Success, a, 5);
    let r = get_balance_changes_with_status_from_effect(
        &mut provider,
        &fx,
        &Vec::new(),
        None,
        &Vec::new(),
        &Vec::new(),
        &Vec::new(),
    )
    .unwrap();
    assert_eq!(r.len(), 1);
    assert_eq!(
        r[0],
        BalanceChangeWithStatus {
            owner: a,
            coin_type: TypeTag::GasCharge,
            amount: 5,
            object_id: oid(900),
            status: ObjectStatus::Mutated,
        }
    );
}

#[test]
fn arrival_from_other_owner_reads_created() {
    // a record whose pre-transaction owner differs arrived at a new owner
    let a = Owner::AddressOwner(addr(1));
    let b = Owner::AddressOwner(addr(2));
    let mut provider = MemoryObjectProvider::new();
    provider.add_object(coin_object(10, 2, 12, b, TypeTag::Gas, 40));
    let mut fx = effects(ExecutionStatus::Success, a, 0);
    fx.all_changed_objects.push(ChangedObject {
        object_ref: ObjectRef { id: oid(10), version: 2, digest: ObjectDigest::new(12) },
        owner: b,
        write_kind: indexer_core::types::WriteKind::Mutate,
    });
    let input_owners = vec![(oid(10), a)];
    let r = get_balance_changes_with_status_from_effect(
        &mut provider,
        &fx,
        &Vec::new(),
        None,
        &Vec::new(),
        &input_owners,
        &Vec::new(),
    )
    .unwrap();
    assert_eq!(r.len(), 2);
    assert_eq!(r[0].status, ObjectStatus::Created);
    assert_eq!(r[0].owner, b);
    assert_eq!(r[0].amount, 40);
}

#[test]
fn departure_to_other_owner_reads_deleted() {
    let a = Owner::AddressOwner(addr(1));
    let b = Owner::AddressOwner(addr(2));
    let mut provider = MemoryObjectProvider::new();
    provider.add_object(coin_object(10, 1, 11, a, TypeTag::Gas, 40));
    let mut fx = effects(ExecutionStatus::Success, a, 0);
    fx.modified_at_versions.push((oid(10), 1));
    let output_owners = vec![(oid(10), b)];
    let r = get_balance_changes_with_status_from_effect(
        &mut provider,
        &fx,
        &Vec::new(),
        None,
        &Vec::new(),
        &Vec::new(),
        &output_owners,
    )
    .unwrap();
    assert_eq!(r.len(), 2);
    assert_eq!(r[0].status, ObjectStatus::Deleted);
    assert_eq!(r[0].amount, -40);
}

#[test]
fn status_map_decides_when_owner_is_unchanged() {
    let a = Owner::AddressOwner(addr(1));
    let mut provider = MemoryObjectProvider::new();
    provider.add_object(coin_object(10, 1, 11, a, TypeTag::Gas, 40));
    let mut fx = effects(ExecutionStatus::Success, a, 0);
    fx.modified_at_versions.push((oid(10), 1));
    let input_owners = vec![(oid(10), a)];
    let statuses = vec![(oid(10), ObjectStatus::Mutated)];
    let r = get_balance_changes_with_status_from_effect(
        &mut provider,
        &fx,
        &Vec::new(),
        None,
        &statuses,
        &input_owners,
        &Vec::new(),
    )
    .unwrap();
    assert_eq!(r.len(), 2);
    assert_eq!(r[0].status, ObjectStatus::Mutated);
}

#[test]
fn missing_status_is_an_error() {
    let a = Owner::AddressOwner(addr(1));
    let mut provider = MemoryObjectProvider::new();
    provider.add_object(coin_object(10, 1, 11, a, TypeTag::Gas, 40));
    let mut fx = effects(ExecutionStatus::Success, a, 0);
    fx.modified_at_versions.push((oid(10), 1));
    let r = get_balance_changes_with_status_from_effect(
        &mut provider,
        &fx,
        &Vec::new(),
        None,
        &Vec::new(),
        &Vec::new(),
        &Vec::new(),
    );
    assert!(matches!(r, Err(EngineError::MissingStatus { id }) if id == oid(10)));
}

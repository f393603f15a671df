//! The balance-change engine on concrete transactions.

use indexer_core::balance::{get_balance_changes, get_balance_changes_from_effect};
use indexer_core::provider::MemoryObjectProvider;
use indexer_core::types::{
    BalanceChange, ChangedObject, CoinError, EngineError, ExecutionStatus, InputObjectKind,
    Object, ObjectData, ObjectDigest, ObjectId, ObjectLookup, ObjectRef, Owner, RemovedObject,
    StructTag, SuiAddress, TransactionEffects, TypeTag,
};

fn addr(n: u64) -> SuiAddress {
    SuiAddress::from_u64(n)
}

fn oid(n: u64) -> ObjectId {
    ObjectId::from_u64(n)
}

fn coin_object(
    id: u64,
    version: u64,
    digest: u64,
    owner: Owner,
    currency: TypeTag,
    balance: u64,
) -> Object {
    let mut contents = vec![0u8; 32];
    let b = balance.to_le_bytes();
    let mut k = 0;
    while k < 8 {
        contents.push(b[k]);
        k += 1;
    }
    Object {
        id: oid(id),
        version,
        digest: ObjectDigest::new(digest),
        owner,
        data: ObjectData::Move { type_tag: StructTag::Coin(currency), contents },
    }
}

fn lookup(id: u64, version: u64) -> ObjectLookup {
    ObjectLookup { id: oid(id), version, digest: None }
}

fn effects_success(
    modified: Vec<(ObjectId, u64)>,
    changed: Vec<ChangedObject>,
    gas_owner: Owner,
    net_gas: i64,
) -> TransactionEffects {
    TransactionEffects {
        status: ExecutionStatus::Success,
        gas_object: ObjectRef { id: oid(900), version: 1, digest: ObjectDigest::new(0) },
        gas_owner,
        net_gas_usage: net_gas,
        modified_at_versions: modified,
        all_changed_objects: changed,
        all_removed_objects: Vec::<RemovedObject>::new(),
        unwrapped_then_deleted: Vec::<ObjectRef>::new(),
    }
}

#[test]
fn single_coin_spend() {
    // S1: C1 held 100 before and 40 after: the owner spent 60.
    let a = Owner::AddressOwner(addr(1));
    let mut provider = MemoryObjectProvider::new();
    provider.add_object(coin_object(10, 1, 11, a, TypeTag::Gas, 100));
    provider.add_object(coin_object(10, 2, 12, a, TypeTag::Gas, 40));
    let ins = vec![lookup(10, 1)];
    let outs = vec![lookup(10, 2)];
    let r = get_balance_changes(&mut provider, &ins, &outs).unwrap();
    assert_eq!(r.len(), 1);
    assert_eq!(r[0], BalanceChange { owner: a, coin_type: TypeTag::Gas, amount: -60 });
}

#[test]
fn equal_balances_emit_nothing() {
    // P1, the other half: no net movement, no record.
    let a = Owner::AddressOwner(addr(1));
    let mut provider = MemoryObjectProvider::new();
    provider.add_object(coin_object(10, 1, 11, a, TypeTag::Gas, 100));
    provider.add_object(coin_object(10, 2, 12, a, TypeTag::Gas, 100));
    let ins = vec![lookup(10, 1)];
    let outs = vec![lookup(10, 2)];
    let r = get_balance_changes(&mut provider, &ins, &outs).unwrap();
    assert_eq!(r.len(), 0);
}

#[test]
fn spend_with_new_coin() {
    // S2: C1 drops from 100 to 40 while a new coin C2 of 60 appears under B.
    let a = Owner::AddressOwner(addr(1));
    let b = Owner::AddressOwner(addr(2));
    let mut provider = MemoryObjectProvider::new();
    provider.add_object(coin_object(10, 1, 11, a, TypeTag::Gas, 100));
    provider.add_object(coin_object(10, 2, 12, a, TypeTag::Gas, 40));
    provider.add_object(coin_object(20, 2, 13, b, TypeTag::Gas, 60));
    let ins = vec![lookup(10, 1)];
    let outs = vec![lookup(10, 2), lookup(20, 2)];
    let r = get_balance_changes(&mut provider, &ins, &outs).unwrap();
    assert_eq!(r.len(), 2);
    let minus = BalanceChange { owner: a, coin_type: TypeTag::Gas, amount: -60 };
    let plus = BalanceChange { owner: b, coin_type: TypeTag::Gas, amount: 60 };
    assert!(r.contains(&minus));
    assert!(r.contains(&plus));
}

#[test]
fn failure_charges_gas_only() {
    // S3 and P2: a failed transaction yields exactly the negative gas charge.
    let a = Owner::AddressOwner(addr(1));
    let mut provider = MemoryObjectProvider::new();
    let mut effects = effects_success(Vec::new(), Vec::new(), a, 7);
    effects.status = ExecutionStatus::Failure;
    // object lists are irrelevant on the failure path
    effects.modified_at_versions.push((oid(999), 5));
    let r = get_balance_changes_from_effect(&mut provider, &effects, &Vec::new(), None).unwrap();
    assert_eq!(r.len(), 1);
    assert_eq!(r[0], BalanceChange { owner: a, coin_type: TypeTag::Gas, amount: -7 });
}

#[test]
fn mocked_coin_contributes_nothing() {
    // P3: entries carrying the mocked-coin id are skipped on both sides,
    // even when the provider does not know them.
    let a = Owner::AddressOwner(addr(1));
    let mut provider = MemoryObjectProvider::new();
    provider.add_object(coin_object(10, 1, 11, a, TypeTag::Gas, 100));
    provider.add_object(coin_object(10, 2, 12, a, TypeTag::Gas, 40));
    let changed = vec![
        ChangedObject {
            object_ref: ObjectRef { id: oid(10), version: 2, digest: ObjectDigest::new(12) },
            owner: a,
            write_kind: indexer_core::types::WriteKind::Mutate,
        },
        ChangedObject {
            object_ref: ObjectRef { id: oid(77), version: 3, digest: ObjectDigest::new(0) },
            owner: a,
            write_kind: indexer_core::types::WriteKind::Mutate,
        },
    ];
    let effects = effects_success(vec![(oid(10), 1), (oid(77), 2)], changed, a, 0);
    let r = get_balance_changes_from_effect(&mut provider, &effects, &Vec::new(), Some(oid(77)))
        .unwrap();
    assert_eq!(r.len(), 1);
    assert_eq!(r[0], BalanceChange { owner: a, coin_type: TypeTag::Gas, amount: -60 });
}

#[test]
fn unwrapped_then_deleted_skipped_on_input_side() {
    // P4: an unwrapped-then-deleted object never causes an input-side
    // lookup, though the provider could not resolve it.
    let a = Owner::AddressOwner(addr(1));
    let mut provider = MemoryObjectProvider::new();
    provider.add_object(coin_object(10, 1, 11, a, TypeTag::Gas, 100));
    provider.add_object(coin_object(10, 2, 12, a, TypeTag::Gas, 40));
    let changed = vec![ChangedObject {
        object_ref: ObjectRef { id: oid(10), version: 2, digest: ObjectDigest::new(12) },
        owner: a,
        write_kind: indexer_core::types::WriteKind::Mutate,
    }];
    let mut effects = effects_success(vec![(oid(10), 1), (oid(55), 4)], changed, a, 0);
    effects.unwrapped_then_deleted.push(ObjectRef {
        id: oid(55),
        version: 5,
        digest: ObjectDigest::new(0),
    });
    let r = get_balance_changes_from_effect(&mut provider, &effects, &Vec::new(), None).unwrap();
    assert_eq!(r.len(), 1);
    assert_eq!(r[0], BalanceChange { owner: a, coin_type: TypeTag::Gas, amount: -60 });
}

#[test]
fn digest_mismatch_is_fatal() {
    // P5: a pinned digest that disagrees with the provider's object fails
    // the whole computation.
    let a = Owner::AddressOwner(addr(1));
    let mut provider = MemoryObjectProvider::new();
    provider.add_object(coin_object(10, 1, 11, a, TypeTag::Gas, 100));
    let ins = vec![ObjectLookup {
        id: oid(10),
        version: 1,
        digest: Some(ObjectDigest::new(999)),
    }];
    let outs = Vec::new();
    let r = get_balance_changes(&mut provider, &ins, &outs);
    assert!(matches!(
        r,
        Err(EngineError::Coin(CoinError::DigestMismatch { .. }))
    ));
}

#[test]
fn matching_digest_is_accepted() {
    let a = Owner::AddressOwner(addr(1));
    let mut provider = MemoryObjectProvider::new();
    provider.add_object(coin_object(10, 1, 11, a, TypeTag::Gas, 100));
    let ins = vec![ObjectLookup { id: oid(10), version: 1, digest: Some(ObjectDigest::new(11)) }];
    let outs = Vec::new();
    let r = get_balance_changes(&mut provider, &ins, &outs).unwrap();
    assert_eq!(r.len(), 1);
    assert_eq!(r[0], BalanceChange { owner: a, coin_type: TypeTag::Gas, amount: -100 });
}

#[test]
fn malformed_coin_payload_is_fatal() {
    // a declared coin too short to hold its balance is data corruption
    let a = Owner::AddressOwner(addr(1));
    let mut provider = MemoryObjectProvider::new();
    provider.add_object(Object {
        id: oid(10),
        version: 1,
        digest: ObjectDigest::new(11),
        owner: a,
        data: ObjectData::Move { type_tag: StructTag::Coin(TypeTag::Gas), contents: vec![0u8; 12] },
    });
    let ins = vec![lookup(10, 1)];
    let r = get_balance_changes(&mut provider, &ins, &Vec::new());
    assert!(matches!(
        r,
        Err(EngineError::Coin(CoinError::MalformedCoinPayload { .. }))
    ));
}

#[test]
fn non_coin_objects_are_ignored() {
    let a = Owner::AddressOwner(addr(1));
    let mut provider = MemoryObjectProvider::new();
    provider.add_object(Object {
        id: oid(10),
        version: 1,
        digest: ObjectDigest::new(11),
        owner: a,
        data: ObjectData::Move { type_tag: StructTag::Other(3), contents: vec![1u8, 2u8, 3u8] },
    });
    let ins = vec![lookup(10, 1)];
    let r = get_balance_changes(&mut provider, &ins, &Vec::new()).unwrap();
    assert_eq!(r.len(), 0);
}

#[test]
fn unknown_version_surfaces_provider_error() {
    let mut provider = MemoryObjectProvider::new();
    let ins = vec![lookup(10, 1)];
    let r = get_balance_changes(&mut provider, &ins, &Vec::new());
    assert!(matches!(r, Err(EngineError::Provider(_))));
}

#[test]
fn balance_decoding_reads_little_endian() {
    let a = Owner::AddressOwner(addr(1));
    let o = coin_object(10, 1, 11, a, TypeTag::Other(5), 0x0102_0304_0506_0708);
    let c = o.extract_coin(None).unwrap().unwrap();
    assert_eq!(c.balance, 0x0102_0304_0506_0708);
    assert_eq!(c.coin_type, TypeTag::Other(5));
    assert_eq!(c.owner, a);
}

#[test]
fn input_digest_comes_from_declared_inputs() {
    // the effect-level engine pins input digests from the declared inputs
    let a = Owner::AddressOwner(addr(1));
    let mut provider = MemoryObjectProvider::new();
    provider.add_object(coin_object(10, 1, 11, a, TypeTag::Gas, 100));
    let effects = effects_success(vec![(oid(10), 1)], Vec::new(), a, 0);
    let input_objs = vec![InputObjectKind::ImmOrOwnedMoveObject(ObjectRef {
        id: oid(10),
        version: 1,
        digest: ObjectDigest::new(999),
    })];
    let r = get_balance_changes_from_effect(&mut provider, &effects, &input_objs, None);
    assert!(matches!(
        r,
        Err(EngineError::Coin(CoinError::DigestMismatch { .. }))
    ));
}

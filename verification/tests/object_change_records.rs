//! The object-change engine: canonical records, publications, and
//! ownership-transfer updates with their routing addresses.

use indexer_core::object_changes::{
    custom_get_object_changes, get_object_changes, ObjectChange, ObjectUpdateStatus,
};
use indexer_core::provider::MemoryObjectProvider;
use indexer_core::types::{
    ChangedObject, Object, ObjectData, ObjectDigest, ObjectId, ObjectRef, ObjectRemoveKind,
    Owner, RemovedObject, StructTag, SuiAddress, WriteKind,
};

fn addr(n: u64) -> SuiAddress {
    SuiAddress::from_u64(n)
}

fn oid(n: u64) -> ObjectId {
    ObjectId::from_u64(n)
}

fn move_object(id: u64, version: u64, digest: u64, owner: Owner, tag: StructTag) -> Object {
    Object {
        id: oid(id),
        version,
        digest: ObjectDigest::new(digest),
        owner,
        data: ObjectData::Move { type_tag: tag, contents: vec![1u8, 2u8, 3u8] },
    }
}

fn changed(id: u64, version: u64, digest: u64, owner: Owner, kind: WriteKind) -> ChangedObject {
    ChangedObject {
        object_ref: ObjectRef { id: oid(id), version, digest: ObjectDigest::new(digest) },
        owner,
        write_kind: kind,
    }
}

#[test]
fn mutate_yields_mutated_with_previous_version() {
    let a = Owner::AddressOwner(addr(1));
    let sender = addr(9);
    let mut provider = MemoryObjectProvider::new();
    provider.add_object(move_object(10, 5, 50, a, StructTag::Other(7)));
    let modified = vec![(oid(10), 4)];
    let all_changed = vec![changed(10, 5, 50, a, WriteKind::Mutate)];
    let r = get_object_changes(&mut provider, sender, &modified, &all_changed, &Vec::new())
        .unwrap();
    assert_eq!(r.len(), 1);
    match &r[0] {
        ObjectChange::Mutated { sender: s, owner, object_type, object_id, version, previous_version, digest } => {
            assert_eq!(*s, sender);
            assert_eq!(*owner, a);
            assert_eq!(*object_type, StructTag::Other(7));
            assert_eq!(*object_id, oid(10));
            assert_eq!(*version, 5);
            assert_eq!(*previous_version, 4);
            assert_eq!(*digest, ObjectDigest::new(50));
        },
        _ => panic!("expected a Mutated record"),
    }
}

#[test]
fn first_time_package_yields_published() {
    // P10: a package created for the first time, with two modules
    let sender = addr(9);
    let mut provider = MemoryObjectProvider::new();
    provider.add_object(Object {
        id: oid(30),
        version: 1,
        digest: ObjectDigest::new(3),
        owner: Owner::Immutable,
        data: ObjectData::Package {
            modules: vec![String::from("m1"), String::from("m2")],
        },
    });
    let all_changed = vec![changed(30, 1, 3, Owner::Immutable, WriteKind::Create)];
    let r = get_object_changes(&mut provider, sender, &Vec::new(), &all_changed, &Vec::new())
        .unwrap();
    assert_eq!(r.len(), 1);
    match &r[0] {
        ObjectChange::Published { package_id, version, digest, modules } => {
            assert_eq!(*package_id, oid(30));
            assert_eq!(*version, 1);
            assert_eq!(*digest, ObjectDigest::new(3));
            assert_eq!(modules.len(), 2);
            assert!(modules.contains(&String::from("m1")));
            assert!(modules.contains(&String::from("m2")));
        },
        _ => panic!("expected a Published record"),
    }
}

#[test]
fn package_mutation_is_not_published_again() {
    let sender = addr(9);
    let mut provider = MemoryObjectProvider::new();
    provider.add_object(Object {
        id: oid(30),
        version: 2,
        digest: ObjectDigest::new(3),
        owner: Owner::Immutable,
        data: ObjectData::Package { modules: vec![String::from("m1")] },
    });
    let all_changed = vec![changed(30, 2, 3, Owner::Immutable, WriteKind::Mutate)];
    let r = get_object_changes(&mut provider, sender, &Vec::new(), &all_changed, &Vec::new())
        .unwrap();
    assert_eq!(r.len(), 0);
}

#[test]
fn removed_object_yields_deleted_or_wrapped() {
    let a = Owner::AddressOwner(addr(1));
    let sender = addr(9);
    let mut provider = MemoryObjectProvider::new();
    provider.add_object(move_object(10, 3, 30, a, StructTag::Other(7)));
    let removed = vec![
        RemovedObject {
            object_ref: ObjectRef { id: oid(10), version: 4, digest: ObjectDigest::new(0) },
            remove_kind: ObjectRemoveKind::Delete,
        },
    ];
    let r = get_object_changes(&mut provider, sender, &Vec::new(), &Vec::new(), &removed)
        .unwrap();
    assert_eq!(r.len(), 1);
    match &r[0] {
        ObjectChange::Deleted { object_id, version, .. } => {
            assert_eq!(*object_id, oid(10));
            assert_eq!(*version, 4);
        },
        _ => panic!("expected a Deleted record"),
    }
}

#[test]
fn wrapped_object_yields_wrapped() {
    let a = Owner::AddressOwner(addr(1));
    let sender = addr(9);
    let mut provider = MemoryObjectProvider::new();
    provider.add_object(move_object(10, 3, 30, a, StructTag::Other(7)));
    let removed = vec![
        RemovedObject {
            object_ref: ObjectRef { id: oid(10), version: 4, digest: ObjectDigest::new(0) },
            remove_kind: ObjectRemoveKind::Wrap,
        },
    ];
    let r = get_object_changes(&mut provider, sender, &Vec::new(), &Vec::new(), &removed)
        .unwrap();
    assert_eq!(r.len(), 1);
    assert!(matches!(&r[0], ObjectChange::Wrapped { .. }));
}

#[test]
fn ownership_transfer_reads_received_routed_to_receiver() {
    // P9 and S5: pre-owner A, post-owner B, write kind Mutate
    let a = addr(1);
    let b = addr(2);
    let sender = addr(9);
    let mut provider = MemoryObjectProvider::new();
    provider.add_object(move_object(10, 5, 50, Owner::AddressOwner(b), StructTag::Other(7)));
    let modified = vec![(oid(10), 4)];
    let all_changed = vec![changed(10, 5, 50, Owner::AddressOwner(b), WriteKind::Mutate)];
    let input_objects = vec![move_object(10, 4, 40, Owner::AddressOwner(a), StructTag::Other(7))];
    let (_, updates) = custom_get_object_changes(
        &mut provider,
        sender,
        &modified,
        &all_changed,
        &Vec::new(),
        &input_objects,
        &Vec::new(),
    )
    .unwrap();
    assert_eq!(updates.len(), 1);
    assert_eq!(updates[0].0, Some(b));
    assert_eq!(
        updates[0].1.status,
        ObjectUpdateStatus::Received { sender_address: a, receiver_address: b }
    );
    assert_eq!(updates[0].1.object_id, oid(10));
    assert_eq!(updates[0].1.object_version, Some(5));
    assert_eq!(updates[0].1.object_type_tag, Some(StructTag::Other(7)));
    assert_eq!(updates[0].1.object_bcs.as_ref().unwrap(), &vec![1u8, 2u8, 3u8]);
}

#[test]
fn unchanged_owner_reads_mutated_unrouted() {
    let a = addr(1);
    let sender = addr(9);
    let mut provider = MemoryObjectProvider::new();
    provider.add_object(move_object(10, 5, 50, Owner::AddressOwner(a), StructTag::Other(7)));
    let all_changed = vec![changed(10, 5, 50, Owner::AddressOwner(a), WriteKind::Mutate)];
    let input_objects = vec![move_object(10, 4, 40, Owner::AddressOwner(a), StructTag::Other(7))];
    let (_, updates) = custom_get_object_changes(
        &mut provider,
        sender,
        &Vec::new(),
        &all_changed,
        &Vec::new(),
        &input_objects,
        &Vec::new(),
    )
    .unwrap();
    assert_eq!(updates.len(), 1);
    assert_eq!(updates[0].0, None);
    assert_eq!(updates[0].1.status, ObjectUpdateStatus::Mutated);
}

#[test]
fn deleted_object_routed_to_last_owner() {
    // S6: removed by Delete, no output-owner entry, last owner A
    let a = addr(1);
    let sender = addr(9);
    let mut provider = MemoryObjectProvider::new();
    provider.add_object(move_object(10, 3, 30, Owner::AddressOwner(a), StructTag::Other(7)));
    let removed = vec![
        RemovedObject {
            object_ref: ObjectRef { id: oid(10), version: 4, digest: ObjectDigest::new(0) },
            remove_kind: ObjectRemoveKind::Delete,
        },
    ];
    let (records, updates) = custom_get_object_changes(
        &mut provider,
        sender,
        &Vec::new(),
        &Vec::new(),
        &removed,
        &Vec::new(),
        &Vec::new(),
    )
    .unwrap();
    assert_eq!(records.len(), 1);
    assert_eq!(updates.len(), 1);
    assert_eq!(updates[0].0, Some(a));
    assert_eq!(updates[0].1.status, ObjectUpdateStatus::Deleted);
}

#[test]
fn transfer_out_reads_sent_routed_to_old_owner() {
    let a = addr(1);
    let b = addr(2);
    let sender = addr(9);
    let mut provider = MemoryObjectProvider::new();
    provider.add_object(move_object(10, 3, 30, Owner::AddressOwner(a), StructTag::Other(7)));
    let removed = vec![
        RemovedObject {
            object_ref: ObjectRef { id: oid(10), version: 4, digest: ObjectDigest::new(0) },
            remove_kind: ObjectRemoveKind::Delete,
        },
    ];
    let input_objects = vec![move_object(10, 3, 30, Owner::AddressOwner(a), StructTag::Other(7))];
    let output_objects = vec![move_object(10, 4, 44, Owner::AddressOwner(b), StructTag::Other(7))];
    let (_, updates) = custom_get_object_changes(
        &mut provider,
        sender,
        &Vec::new(),
        &Vec::new(),
        &removed,
        &input_objects,
        &output_objects,
    )
    .unwrap();
    assert_eq!(updates.len(), 1);
    assert_eq!(updates[0].0, Some(a));
    assert_eq!(
        updates[0].1.status,
        ObjectUpdateStatus::Sent { sender_address: a, receiver_address: b }
    );
}

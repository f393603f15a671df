//! The in-memory provider and the versioned object cache.

use indexer_core::cache::ObjectProviderCache;
use indexer_core::provider::{MemoryObjectProvider, ObjectProvider, ProviderError};
use indexer_core::types::{
    Object, ObjectData, ObjectDigest, ObjectId, Owner, StructTag, SuiAddress,
};

fn oid(n: u64) -> ObjectId {
    ObjectId::from_u64(n)
}

fn obj(id: u64, version: u64, digest: u64) -> Object {
    Object {
        id: oid(id),
        version,
        digest: ObjectDigest::new(digest),
        owner: Owner::AddressOwner(SuiAddress::from_u64(1)),
        data: ObjectData::Move { type_tag: StructTag::Other(1), contents: vec![version as u8] },
    }
}

#[test]
fn memory_provider_serves_exact_versions() {
    let mut p = MemoryObjectProvider::new();
    p.add_object(obj(10, 1, 11));
    p.add_object(obj(10, 3, 13));
    let o = p.get_object(&oid(10), 3).unwrap();
    assert_eq!(o.version, 3);
    assert_eq!(o.digest, ObjectDigest::new(13));
    assert!(matches!(p.get_object(&oid(10), 2), Err(ProviderError::NotFound)));
}

#[test]
fn memory_provider_resolves_latest_at_or_below() {
    let mut p = MemoryObjectProvider::new();
    p.add_object(obj(10, 1, 11));
    p.add_object(obj(10, 3, 13));
    p.add_object(obj(10, 7, 17));
    let o = p.find_object_lt_or_eq_version(&oid(10), 5).unwrap().unwrap();
    assert_eq!(o.version, 3);
    let o = p.find_object_lt_or_eq_version(&oid(10), 7).unwrap().unwrap();
    assert_eq!(o.version, 7);
    assert!(p.find_object_lt_or_eq_version(&oid(10), 0).unwrap().is_none());
    assert!(p.find_object_lt_or_eq_version(&oid(99), 5).unwrap().is_none());
}

#[test]
fn cache_serves_what_the_provider_knows() {
    let mut p = MemoryObjectProvider::new();
    p.add_object(obj(10, 1, 11));
    let mut c = ObjectProviderCache::new(p);
    let o = c.get_object(&oid(10), 1).unwrap();
    assert_eq!(o.digest, ObjectDigest::new(11));
    // a second lookup is answered from the exact cache
    let o = c.get_object(&oid(10), 1).unwrap();
    assert_eq!(o.digest, ObjectDigest::new(11));
    assert!(c.get_object(&oid(10), 2).is_err());
}

#[test]
fn cache_remembers_resolved_versions() {
    let mut p = MemoryObjectProvider::new();
    p.add_object(obj(10, 1, 11));
    p.add_object(obj(10, 3, 13));
    let mut c = ObjectProviderCache::new(p);
    let o = c.find_object_lt_or_eq_version(&oid(10), 6).unwrap().unwrap();
    assert_eq!(o.version, 3);
    // the memoized resolution answers the repeated query
    let o = c.find_object_lt_or_eq_version(&oid(10), 6).unwrap().unwrap();
    assert_eq!(o.version, 3);
    assert_eq!(o.digest, ObjectDigest::new(13));
}

#[test]
fn seeded_cache_serves_written_objects() {
    let p = MemoryObjectProvider::new();
    let written = vec![obj(20, 4, 24)];
    let mut c = ObjectProviderCache::new_with_cache(p, written);
    let o = c.get_object(&oid(20), 4).unwrap();
    assert_eq!(o.digest, ObjectDigest::new(24));
    let o = c.find_object_lt_or_eq_version(&oid(20), 4).unwrap().unwrap();
    assert_eq!(o.version, 4);
}

#[test]
fn cache_answers_never_exceed_queried_version() {
    let mut p = MemoryObjectProvider::new();
    p.add_object(obj(10, 5, 15));
    p.add_object(obj(10, 9, 19));
    let mut c = ObjectProviderCache::new(p);
    let o = c.find_object_lt_or_eq_version(&oid(10), 6).unwrap().unwrap();
    assert!(o.version <= 6);
    assert_eq!(o.version, 5);
}

//! The data model: identities, owners, type tags, objects and the
//! per-transaction effects ledger.

use vstd::prelude::*;

verus! {

/// Opaque 32-byte object identity, held as four 64-bit limbs in big-endian
/// order (`w0` is the most significant limb).
#[derive(Clone, Copy, Debug, PartialEq, Eq, Structural, Hash)]
pub struct ObjectId {
    pub w0: u64,
    pub w1: u64,
    pub w2: u64,
    pub w3: u64,
}

impl ObjectId {
    pub fn new(w0: u64, w1: u64, w2: u64, w3: u64) -> (r: Self)
        ensures
            r == (ObjectId { w0, w1, w2, w3 }),
    {
        ObjectId { w0, w1, w2, w3 }
    }

    /// The identity whose three high limbs are zero; convenient for tests.
    pub fn from_u64(n: u64) -> (r: Self)
        ensures
            r == (ObjectId { w0: 0u64, w1: 0u64, w2: 0u64, w3: n }),
    {
        ObjectId { w0: 0, w1: 0, w2: 0, w3: n }
    }
}

/// Opaque 32-byte account address, held as four 64-bit limbs in big-endian
/// order.
#[derive(Clone, Copy, Debug, PartialEq, Eq, Structural, Hash)]
pub struct SuiAddress {
    pub w0: u64,
    pub w1: u64,
    pub w2: u64,
    pub w3: u64,
}

impl SuiAddress {
    pub fn new(w0: u64, w1: u64, w2: u64, w3: u64) -> (r: Self)
        ensures
            r == (SuiAddress { w0, w1, w2, w3 }),
    {
        SuiAddress { w0, w1, w2, w3 }
    }

    /// The address whose three high limbs are zero; convenient for tests.
    pub fn from_u64(n: u64) -> (r: Self)
        ensures
            r == (SuiAddress { w0: 0u64, w1: 0u64, w2: 0u64, w3: n }),
    {
        SuiAddress { w0: 0, w1: 0, w2: 0, w3: n }
    }
}

/// Content hash of an object, used for integrity checks only.
#[derive(Clone, Copy, Debug, PartialEq, Eq, Structural, Hash)]
pub struct ObjectDigest {
    pub value: u64,
}

impl ObjectDigest {
    pub fn new(value: u64) -> (r: Self)
        ensures
            r == (ObjectDigest { value }),
    {
        ObjectDigest { value }
    }
}

/// A currency: the `T` of a coin type `Coin<T>`.
///
/// The gas-charge marker is a fixed out-of-band tag, distinct from every
/// legal coin currency; downstream consumers recognize it by identity and
/// no cross-currency arithmetic is defined with it.
#[derive(Clone, Copy, Debug, PartialEq, Eq, Structural, Hash)]
pub enum TypeTag {
    /// The chain's native gas currency.
    Gas,
    /// The marker placed on synthetic gas-charge records.
    GasCharge,
    /// Any other currency, by opaque identity.
    Other(u64),
}

/// The Move struct type of an object, as far as the engines read it: either
/// a coin carrying its currency, or some other struct by opaque identity.
#[derive(Clone, Copy, Debug, PartialEq, Eq, Structural, Hash)]
pub enum StructTag {
    /// A coin object `coin::Coin<T>`; the parameter is the currency `T`.
    Coin(TypeTag),
    /// Any other Move struct type, by opaque identity.
    Other(u64),
}

/// The authority controlling an object.
#[derive(Clone, Copy, Debug, PartialEq, Eq, Structural, Hash)]
pub enum Owner {
    /// Owned by an account address; the only owner that participates in
    /// balance accounting.
    AddressOwner(SuiAddress),
    /// Owned by another object (the parent's identity in address form).
    ObjectOwner(SuiAddress),
    /// Shared, with the version at which it first became shared.
    Shared { initial_shared_version: u64 },
    /// Frozen; never owned and never mutated again.
    Immutable,
}

impl Owner {
    /// The address form of the owner, when it has one.
    pub open spec fn address_spec(self) -> Option<SuiAddress> {
        match self {
            Owner::AddressOwner(a) => Some(a),
            Owner::ObjectOwner(a) => Some(a),
            Owner::Shared { .. } => None,
            Owner::Immutable => None,
        }
    }

    /// Returns the owning address for address- and object-owned objects,
    /// and nothing for shared or immutable ones.
    pub fn get_owner_address(&self) -> (r: Option<SuiAddress>)
        ensures
            r == self.address_spec(),
    {
        match self {
            Owner::AddressOwner(a) => Some(*a),
            Owner::ObjectOwner(a) => Some(*a),
            Owner::Shared { .. } => None,
            Owner::Immutable => None,
        }
    }
}

/// A full reference to one version of an object.
#[derive(Clone, Copy, Debug, PartialEq, Eq, Structural, Hash)]
pub struct ObjectRef {
    pub id: ObjectId,
    pub version: u64,
    pub digest: ObjectDigest,
}

/// How a changed object was written by the transaction.
#[derive(Clone, Copy, Debug, PartialEq, Eq, Structural, Hash)]
pub enum WriteKind {
    Create,
    Mutate,
    Unwrap,
}

/// How a removed object left the transaction.
#[derive(Clone, Copy, Debug, PartialEq, Eq, Structural, Hash)]
pub enum ObjectRemoveKind {
    Delete,
    Wrap,
}

/// Whether the transaction executed successfully.
#[derive(Clone, Copy, Debug, PartialEq, Eq, Structural, Hash)]
pub enum ExecutionStatus {
    Success,
    Failure,
}

/// One input object of the transaction, as declared by its kind.
#[derive(Clone, Copy, Debug, PartialEq, Eq, Structural, Hash)]
pub enum InputObjectKind {
    /// An immutable or address-owned Move object, pinned to an exact
    /// version and digest.
    ImmOrOwnedMoveObject(ObjectRef),
    /// A Move package, referenced by identity only.
    MovePackage(ObjectId),
    /// A shared Move object.
    SharedMoveObject { id: ObjectId, initial_shared_version: u64, mutable: bool },
}

/// The payload of an object: a Move value with its type, or a package.
#[derive(Debug)]
pub enum ObjectData {
    /// A Move object: its struct type and its serialized contents.
    Move { type_tag: StructTag, contents: Vec<u8> },
    /// A Move package: the names of its modules.
    Package { modules: Vec<String> },
}

/// Copies a byte vector.
pub(crate) fn clone_bytes(v: &Vec<u8>) -> (r: Vec<u8>)
    ensures
        r@ == v@,
{
    let r = v.clone();
    proof {
        assert(r@ =~= v@);
    }
    r
}

/// Copies a vector of strings.
fn clone_strings(v: &Vec<String>) -> (r: Vec<String>)
    ensures
        r@ == v@,
{
    let r = v.clone();
    proof {
        assert(r@ =~= v@);
    }
    r
}

impl Clone for ObjectData {
    fn clone(&self) -> (r: Self)
        ensures
            r@ == self@,
    {
        match self {
            ObjectData::Move { type_tag, contents } => ObjectData::Move {
                type_tag: *type_tag,
                contents: clone_bytes(contents),
            },
            ObjectData::Package { modules } => ObjectData::Package {
                modules: clone_strings(modules),
            },
        }
    }
}

impl Clone for Object {
    fn clone(&self) -> (r: Self)
        ensures
            r@ == self@,
    {
        Object {
            id: self.id,
            version: self.version,
            digest: self.digest,
            owner: self.owner,
            data: self.data.clone(),
        }
    }
}

/// Mathematical image of [`ObjectData`].
pub enum ObjectDataView {
    Move { type_tag: StructTag, contents: Seq<u8> },
    Package { modules: Seq<Seq<char>> },
}

impl View for ObjectData {
    type V = ObjectDataView;

    open spec fn view(&self) -> ObjectDataView {
        match self {
            ObjectData::Move { type_tag, contents } => ObjectDataView::Move {
                type_tag: *type_tag,
                contents: contents@,
            },
            ObjectData::Package { modules } => ObjectDataView::Package {
                modules: modules@.map_values(|m: String| m@),
            },
        }
    }
}

/// One versioned object: identity, version, digest, owner and payload.
#[derive(Debug)]
pub struct Object {
    pub id: ObjectId,
    pub version: u64,
    pub digest: ObjectDigest,
    pub owner: Owner,
    pub data: ObjectData,
}

/// Mathematical image of [`Object`].
pub struct ObjectView {
    pub id: ObjectId,
    pub version: u64,
    pub digest: ObjectDigest,
    pub owner: Owner,
    pub data: ObjectDataView,
}

impl View for Object {
    type V = ObjectView;

    open spec fn view(&self) -> ObjectView {
        ObjectView {
            id: self.id,
            version: self.version,
            digest: self.digest,
            owner: self.owner,
            data: self.data@,
        }
    }
}

/// One entry of the changed-objects set of the effects.
#[derive(Clone, Copy, Debug, PartialEq, Eq, Structural, Hash)]
pub struct ChangedObject {
    pub object_ref: ObjectRef,
    pub owner: Owner,
    pub write_kind: WriteKind,
}

/// One entry of the removed-objects set of the effects.
#[derive(Clone, Copy, Debug, PartialEq, Eq, Structural, Hash)]
pub struct RemovedObject {
    pub object_ref: ObjectRef,
    pub remove_kind: ObjectRemoveKind,
}

/// The per-transaction ledger the engines consume: execution status, gas
/// accounting, and the sets of touched objects.
#[derive(Debug)]
pub struct TransactionEffects {
    pub status: ExecutionStatus,
    /// Reference to the gas object, after the transaction.
    pub gas_object: ObjectRef,
    /// The owner paying for gas.
    pub gas_owner: Owner,
    /// Net gas usage, signed: positive when the sender paid more than was
    /// rebated.
    pub net_gas_usage: i64,
    /// For each object the transaction modified, its version just before.
    pub modified_at_versions: Vec<(ObjectId, u64)>,
    /// Every object the transaction wrote, with its new owner.
    pub all_changed_objects: Vec<ChangedObject>,
    /// Every object the transaction removed.
    pub all_removed_objects: Vec<RemovedObject>,
    /// Objects that were unwrapped and then deleted inside the transaction:
    /// these never existed as regular inputs.
    pub unwrapped_then_deleted: Vec<ObjectRef>,
}

/// A signed balance movement: how much the holdings of `owner` in the
/// currency `coin_type` changed; negative amounts spend coin value and
/// positive amounts receive it.
#[derive(Clone, Copy, Debug, PartialEq, Eq, Structural, Hash)]
pub struct BalanceChange {
    pub owner: Owner,
    pub coin_type: TypeTag,
    pub amount: i128,
}

/// A fault of a change engine.
#[derive(Clone, Copy, Debug, PartialEq, Eq, Structural, Hash)]
pub enum EngineError<E> {
    /// The provider failed a lookup; its fault is carried verbatim.
    Provider(E),
    /// Coin extraction found corrupt data.
    Coin(CoinError),
    /// No status was supplied for an object that produced a balance
    /// change; the status map the caller handed in is incomplete.
    MissingStatus { id: ObjectId },
}

/// A fatal fault found while extracting a coin from an object.
#[derive(Clone, Copy, Debug, PartialEq, Eq, Structural, Hash)]
pub enum CoinError {
    /// The caller-supplied digest disagrees with the fetched object's:
    /// the provider handed back corrupt data.
    DigestMismatch { id: ObjectId, expected: ObjectDigest, actual: ObjectDigest },
    /// The object's type tag declares a coin but its payload is too short
    /// to hold a balance.
    MalformedCoinPayload { id: ObjectId },
}

/// An object to fetch from the provider: an exact version, with an optional
/// digest the fetched object is required to match.
#[derive(Clone, Copy, Debug)]
pub struct ObjectLookup {
    pub id: ObjectId,
    pub version: u64,
    pub digest: Option<ObjectDigest>,
}

} // verus!

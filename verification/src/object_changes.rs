//! The object-change engine: classifies every object a transaction
//! touched into Created / Mutated / Deleted / Wrapped / Published
//! records, and derives ownership-transfer-aware update records with
//! their routing addresses.

use crate::provider::{opt_view, provider_wf, ObjectProvider};
use crate::types::{
    ChangedObject, EngineError, Object, ObjectDataView, ObjectDigest, ObjectId,
    ObjectRemoveKind, ObjectView, Owner, RemovedObject, StructTag, SuiAddress, WriteKind,
};
use vstd::prelude::*;

verus! {

/// A canonical object-change record, mirroring the effects.
#[derive(Debug)]
pub enum ObjectChange {
    Mutated {
        sender: SuiAddress,
        owner: Owner,
        object_type: StructTag,
        object_id: ObjectId,
        version: u64,
        previous_version: u64,
        digest: ObjectDigest,
    },
    Created {
        sender: SuiAddress,
        owner: Owner,
        object_type: StructTag,
        object_id: ObjectId,
        version: u64,
        digest: ObjectDigest,
    },
    Deleted { sender: SuiAddress, object_type: StructTag, object_id: ObjectId, version: u64 },
    Wrapped { sender: SuiAddress, object_type: StructTag, object_id: ObjectId, version: u64 },
    Published {
        package_id: ObjectId,
        version: u64,
        digest: ObjectDigest,
        modules: Vec<String>,
    },
}

/// Mathematical image of [`ObjectChange`].
pub enum ObjectChangeView {
    Mutated {
        sender: SuiAddress,
        owner: Owner,
        object_type: StructTag,
        object_id: ObjectId,
        version: u64,
        previous_version: u64,
        digest: ObjectDigest,
    },
    Created {
        sender: SuiAddress,
        owner: Owner,
        object_type: StructTag,
        object_id: ObjectId,
        version: u64,
        digest: ObjectDigest,
    },
    Deleted { sender: SuiAddress, object_type: StructTag, object_id: ObjectId, version: u64 },
    Wrapped { sender: SuiAddress, object_type: StructTag, object_id: ObjectId, version: u64 },
    Published {
        package_id: ObjectId,
        version: u64,
        digest: ObjectDigest,
        modules: Seq<Seq<char>>,
    },
}

impl View for ObjectChange {
    type V = ObjectChangeView;

    open spec fn view(&self) -> ObjectChangeView {
        match self {
            ObjectChange::Mutated {
                sender,
                owner,
                object_type,
                object_id,
                version,
                previous_version,
                digest,
            } => ObjectChangeView::Mutated {
                sender: *sender,
                owner: *owner,
                object_type: *object_type,
                object_id: *object_id,
                version: *version,
                previous_version: *previous_version,
                digest: *digest,
            },
            ObjectChange::Created { sender, owner, object_type, object_id, version, digest } => ObjectChangeView::Created {
                sender: *sender,
                owner: *owner,
                object_type: *object_type,
                object_id: *object_id,
                version: *version,
                digest: *digest,
            },
            ObjectChange::Deleted { sender, object_type, object_id, version } => ObjectChangeView::Deleted {
                sender: *sender,
                object_type: *object_type,
                object_id: *object_id,
                version: *version,
            },
            ObjectChange::Wrapped { sender, object_type, object_id, version } => ObjectChangeView::Wrapped {
                sender: *sender,
                object_type: *object_type,
                object_id: *object_id,
                version: *version,
            },
            ObjectChange::Published { package_id, version, digest, modules } => ObjectChangeView::Published {
                package_id: *package_id,
                version: *version,
                digest: *digest,
                modules: modules@.map_values(|m: String| m@),
            },
        }
    }
}

/// The status of a denormalized object-change update.
#[derive(Clone, Copy, Debug, PartialEq, Eq, Structural, Hash)]
pub enum ObjectUpdateStatus {
    Created,
    Mutated,
    Deleted,
    /// The object arrived from another owner.
    Received { sender_address: SuiAddress, receiver_address: SuiAddress },
    /// The object left for another owner.
    Sent { sender_address: SuiAddress, receiver_address: SuiAddress },
}

/// A denormalized update for the downstream bus: the touched object, its
/// type, version and serialized contents, and its classified status.
/// The metadata slot is carried for the bus message shape and is always
/// empty here.
#[derive(Debug)]
pub struct ObjectChangeUpdate {
    pub object_id: ObjectId,
    pub object_type_tag: Option<StructTag>,
    pub object_version: Option<u64>,
    pub object_bcs: Option<Vec<u8>>,
    pub object_metadata: Option<Vec<u8>>,
    pub status: ObjectUpdateStatus,
}

/// Mathematical image of [`ObjectChangeUpdate`].
pub struct ObjectChangeUpdateView {
    pub object_id: ObjectId,
    pub object_type_tag: Option<StructTag>,
    pub object_version: Option<u64>,
    pub object_bcs: Option<Seq<u8>>,
    pub object_metadata: Option<Seq<u8>>,
    pub status: ObjectUpdateStatus,
}

impl View for ObjectChangeUpdate {
    type V = ObjectChangeUpdateView;

    open spec fn view(&self) -> ObjectChangeUpdateView {
        ObjectChangeUpdateView {
            object_id: self.object_id,
            object_type_tag: self.object_type_tag,
            object_version: self.object_version,
            object_bcs: match self.object_bcs {
                Some(b) => Some(b@),
                None => None,
            },
            object_metadata: match self.object_metadata {
                Some(b) => Some(b@),
                None => None,
            },
            status: self.status,
        }
    }
}

/// The image of a list of canonical records.
pub open spec fn changes_view(s: Seq<ObjectChange>) -> Seq<ObjectChangeView> {
    s.map_values(|c: ObjectChange| c@)
}

/// The image of a list of routed updates.
pub open spec fn updates_view(s: Seq<(Option<SuiAddress>, ObjectChangeUpdate)>) -> Seq<
    (Option<SuiAddress>, ObjectChangeUpdateView),
> {
    s.map_values(|u: (Option<SuiAddress>, ObjectChangeUpdate)| (u.0, u.1@))
}

/// The prior version an effects list records for `id`; zero when none
/// is recorded, as for objects without a prior version. Later entries
/// win.
pub open spec fn prev_version_of(modified: Seq<(ObjectId, u64)>, id: ObjectId) -> u64
    decreases modified.len(),
{
    if modified.len() == 0 {
        0
    } else if modified.last().0 == id {
        modified.last().1
    } else {
        prev_version_of(modified.drop_last(), id)
    }
}

/// The owner address a snapshot of objects records for `id`: nothing
/// when the snapshot does not hold the object, and otherwise the address
/// form of its owner, which shared and immutable owners lack. Later
/// entries win.
pub open spec fn snapshot_owner(objs: Seq<Object>, id: ObjectId) -> Option<Option<SuiAddress>>
    decreases objs.len(),
{
    if objs.len() == 0 {
        None
    } else if objs.last().id == id {
        Some(objs.last().owner.address_spec())
    } else {
        snapshot_owner(objs.drop_last(), id)
    }
}

/// The canonical record one changed object yields, given the object the
/// provider holds at its new version: Move objects become Mutated or
/// Created records by their write kind, unwrapped objects yield nothing,
/// and a package written by a Create is a first-time publication.
pub open spec fn classify_changed(
    sender: SuiAddress,
    c: ChangedObject,
    o: ObjectView,
    prev: u64,
) -> Option<ObjectChangeView> {
    match o.data {
        ObjectDataView::Move { type_tag, .. } => match c.write_kind {
            WriteKind::Mutate => Some(
                ObjectChangeView::Mutated {
                    sender,
                    owner: c.owner,
                    object_type: type_tag,
                    object_id: c.object_ref.id,
                    version: c.object_ref.version,
                    previous_version: prev,
                    digest: c.object_ref.digest,
                },
            ),
            WriteKind::Create => Some(
                ObjectChangeView::Created {
                    sender,
                    owner: c.owner,
                    object_type: type_tag,
                    object_id: c.object_ref.id,
                    version: c.object_ref.version,
                    digest: c.object_ref.digest,
                },
            ),
            WriteKind::Unwrap => None,
        },
        ObjectDataView::Package { modules } => if c.write_kind is Create {
            Some(
                ObjectChangeView::Published {
                    package_id: o.id,
                    version: o.version,
                    digest: c.object_ref.digest,
                    modules,
                },
            )
        } else {
            None
        },
    }
}

/// The status an update carries when no ownership transfer is detected:
/// the write kind decides between Created and Mutated.
pub open spec fn kind_status(kind: WriteKind) -> ObjectUpdateStatus {
    match kind {
        WriteKind::Create => ObjectUpdateStatus::Created,
        _ => ObjectUpdateStatus::Mutated,
    }
}

/// The routed update one changed Move object yields, from the
/// pre-transaction owner recorded by the input snapshot and the
/// post-transaction owner the object carries.
///
/// A pre-owner address that differs from the post-owner address is an
/// arrival: the update reads Received and is routed to the receiver. An
/// object whose owner address did not change is a plain mutation. An
/// object gaining an address is routed to it with its write kind's
/// status; one without a post address keeps the write kind's status,
/// unrouted. A mutated object the input snapshot does not hold yields
/// nothing: its pre-owner is unknown.
pub open spec fn classify_update(
    c: ChangedObject,
    o: ObjectView,
    pre: Option<Option<SuiAddress>>,
) -> Option<(Option<SuiAddress>, ObjectChangeUpdateView)> {
    match o.data {
        ObjectDataView::Move { type_tag, contents } => {
            if c.write_kind is Unwrap {
                None
            } else if c.write_kind is Mutate && pre is None {
                None
            } else {
                let pre_addr = match pre {
                    Some(a) => a,
                    None => None,
                };
                let post = o.owner.address_spec();
                let base = ObjectChangeUpdateView {
                    object_id: c.object_ref.id,
                    object_type_tag: Some(type_tag),
                    object_version: Some(c.object_ref.version),
                    object_bcs: Some(contents),
                    object_metadata: None,
                    status: kind_status(c.write_kind),
                };
                match pre_addr {
                    Some(a) => match post {
                        Some(b) => if a != b {
                            Some(
                                (
                                    Some(b),
                                    ObjectChangeUpdateView {
                                        status: ObjectUpdateStatus::Received {
                                            sender_address: a,
                                            receiver_address: b,
                                        },
                                        ..base
                                    },
                                ),
                            )
                        } else {
                            Some(
                                (
                                    None,
                                    ObjectChangeUpdateView {
                                        status: ObjectUpdateStatus::Mutated,
                                        ..base
                                    },
                                ),
                            )
                        },
                        None => Some((None, base)),
                    },
                    None => match post {
                        Some(b) => Some((Some(b), base)),
                        None => Some((None, base)),
                    },
                }
            }
        },
        ObjectDataView::Package { .. } => None,
    }
}

/// The canonical record one removed object yields, given what the
/// provider resolves at or below the removed version: a Move object
/// becomes a Deleted or Wrapped record by its remove kind; packages and
/// unresolved objects yield nothing.
pub open spec fn classify_removed(
    sender: SuiAddress,
    rm: RemovedObject,
    o: Option<ObjectView>,
) -> Option<ObjectChangeView> {
    match o {
        None => None,
        Some(o) => match o.data {
            ObjectDataView::Move { type_tag, .. } => match rm.remove_kind {
                ObjectRemoveKind::Delete => Some(
                    ObjectChangeView::Deleted {
                        sender,
                        object_type: type_tag,
                        object_id: rm.object_ref.id,
                        version: rm.object_ref.version,
                    },
                ),
                ObjectRemoveKind::Wrap => Some(
                    ObjectChangeView::Wrapped {
                        sender,
                        object_type: type_tag,
                        object_id: rm.object_ref.id,
                        version: rm.object_ref.version,
                    },
                ),
            },
            ObjectDataView::Package { .. } => None,
        },
    }
}

/// The routed update one removed Move object yields. An object the
/// output snapshot still holds was transferred out: the update is routed
/// to the pre-transaction owner; it reads Sent from the pre-transaction
/// owner to the new owner when both have addresses, and Deleted when
/// either side lacks one; it is dropped when the input snapshot does not
/// hold the object. An object absent from the output snapshot was
/// deleted outright, routed to its last known address owner.
pub open spec fn classify_removed_update(
    rm: RemovedObject,
    o: Option<ObjectView>,
    pre: Option<Option<SuiAddress>>,
    post: Option<Option<SuiAddress>>,
) -> Option<(Option<SuiAddress>, ObjectChangeUpdateView)> {
    match o {
        None => None,
        Some(o) => match o.data {
            ObjectDataView::Move { type_tag, contents } => {
                let base = ObjectChangeUpdateView {
                    object_id: rm.object_ref.id,
                    object_type_tag: Some(type_tag),
                    object_version: Some(rm.object_ref.version),
                    object_bcs: Some(contents),
                    object_metadata: None,
                    status: ObjectUpdateStatus::Deleted,
                };
                match post {
                    Some(new_owner) => match pre {
                        None => None,
                        Some(old_addr) => match (old_addr, new_owner) {
                            (Some(a), Some(b)) => Some(
                                (
                                    old_addr,
                                    ObjectChangeUpdateView {
                                        status: ObjectUpdateStatus::Sent {
                                            sender_address: a,
                                            receiver_address: b,
                                        },
                                        ..base
                                    },
                                ),
                            ),
                            _ => Some((old_addr, base)),
                        },
                    },
                    None => Some((o.owner.address_spec(), base)),
                }
            },
            ObjectDataView::Package { .. } => None,
        },
    }
}

/// The first changed object whose new version the provider does not
/// know, from position `i` on.
pub open spec fn changed_flaw(
    m: Map<(ObjectId, u64), ObjectView>,
    changed: Seq<ChangedObject>,
    i: int,
) -> Option<(ObjectId, u64)>
    decreases changed.len() - i,
{
    if i < 0 || i >= changed.len() {
        None
    } else {
        let key = (changed[i].object_ref.id, changed[i].object_ref.version);
        if !m.contains_key(key) {
            Some(key)
        } else {
            changed_flaw(m, changed, i + 1)
        }
    }
}

/// The canonical records of the changed objects from position `i` on.
pub open spec fn changed_records(
    m: Map<(ObjectId, u64), ObjectView>,
    sender: SuiAddress,
    modified: Seq<(ObjectId, u64)>,
    changed: Seq<ChangedObject>,
    i: int,
) -> Seq<ObjectChangeView>
    decreases changed.len() - i,
{
    if i < 0 || i >= changed.len() {
        Seq::empty()
    } else {
        let c = changed[i];
        let rest = changed_records(m, sender, modified, changed, i + 1);
        match classify_changed(
            sender,
            c,
            m[(c.object_ref.id, c.object_ref.version)],
            prev_version_of(modified, c.object_ref.id),
        ) {
            Some(r) => seq![r] + rest,
            None => rest,
        }
    }
}

/// The routed updates of the changed objects from position `i` on.
pub open spec fn changed_updates(
    m: Map<(ObjectId, u64), ObjectView>,
    changed: Seq<ChangedObject>,
    input_objects: Seq<Object>,
    i: int,
) -> Seq<(Option<SuiAddress>, ObjectChangeUpdateView)>
    decreases changed.len() - i,
{
    if i < 0 || i >= changed.len() {
        Seq::empty()
    } else {
        let c = changed[i];
        let rest = changed_updates(m, changed, input_objects, i + 1);
        match classify_update(
            c,
            m[(c.object_ref.id, c.object_ref.version)],
            snapshot_owner(input_objects, c.object_ref.id),
        ) {
            Some(u) => seq![u] + rest,
            None => rest,
        }
    }
}

/// The canonical records of the removed objects from position `i` on,
/// as resolved by the provider's latest-at-or-below answers.
pub open spec fn removed_records<P: ObjectProvider>(
    p: &P,
    sender: SuiAddress,
    removed: Seq<RemovedObject>,
    i: int,
) -> Seq<ObjectChangeView>
    decreases removed.len() - i,
{
    if i < 0 || i >= removed.len() {
        Seq::empty()
    } else {
        let rm = removed[i];
        let rest = removed_records(p, sender, removed, i + 1);
        match classify_removed(sender, rm, p.le_answer(rm.object_ref.id, rm.object_ref.version)) {
            Some(r) => seq![r] + rest,
            None => rest,
        }
    }
}

/// The routed updates of the removed objects from position `i` on.
pub open spec fn removed_updates<P: ObjectProvider>(
    p: &P,
    removed: Seq<RemovedObject>,
    input_objects: Seq<Object>,
    output_objects: Seq<Object>,
    i: int,
) -> Seq<(Option<SuiAddress>, ObjectChangeUpdateView)>
    decreases removed.len() - i,
{
    if i < 0 || i >= removed.len() {
        Seq::empty()
    } else {
        let rm = removed[i];
        let rest = removed_updates(p, removed, input_objects, output_objects, i + 1);
        match classify_removed_update(
            rm,
            p.le_answer(rm.object_ref.id, rm.object_ref.version),
            snapshot_owner(input_objects, rm.object_ref.id),
            snapshot_owner(output_objects, rm.object_ref.id),
        ) {
            Some(u) => seq![u] + rest,
            None => rest,
        }
    }
}

/// Finds the prior version the effects record for `id`, or zero.
fn find_prev_version(modified: &Vec<(ObjectId, u64)>, id: &ObjectId) -> (r: u64)
    ensures
        r == prev_version_of(modified@, *id),
{
    let n = modified.len();
    let mut r: u64 = 0;
    let mut i: usize = 0;
    while i < n
        invariant
            n == modified@.len(),
            i <= n,
            r == prev_version_of(modified@.take(i as int), *id),
        decreases n - i,
    {
        proof {
            assert(modified@.take(i + 1).drop_last() =~= modified@.take(i as int));
            assert(modified@.take(i + 1).last() == modified@[i as int]);
        }
        if modified[i].0 == *id {
            r = modified[i].1;
        }
        i = i + 1;
    }
    proof {
        assert(modified@.take(n as int) =~= modified@);
    }
    r
}

/// Finds what an object snapshot records for `id`: nothing, or the
/// address form of the held object's owner.
fn find_snapshot_owner(objs: &Vec<Object>, id: &ObjectId) -> (r: Option<Option<SuiAddress>>)
    ensures
        r == snapshot_owner(objs@, *id),
{
    let n = objs.len();
    let mut r: Option<Option<SuiAddress>> = None;
    let mut i: usize = 0;
    while i < n
        invariant
            n == objs@.len(),
            i <= n,
            r == snapshot_owner(objs@.take(i as int), *id),
        decreases n - i,
    {
        proof {
            assert(objs@.take(i + 1).drop_last() =~= objs@.take(i as int));
            assert(objs@.take(i + 1).last() == objs@[i as int]);
        }
        if objs[i].id == *id {
            r = Some(objs[i].owner.get_owner_address());
        }
        i = i + 1;
    }
    proof {
        assert(objs@.take(n as int) =~= objs@);
    }
    r
}

/// Builds the canonical record of one changed object, from the fetched
/// object itself.
pub fn changed_record(sender: SuiAddress, c: ChangedObject, o: &Object, prev: u64) -> (r: Option<
    ObjectChange,
>)
    ensures
        match r {
            Some(rec) => classify_changed(sender, c, o@, prev) == Some(rec@),
            None => classify_changed(sender, c, o@, prev) is None,
        },
{
    match &o.data {
        crate::types::ObjectData::Move { type_tag, .. } => match c.write_kind {
            WriteKind::Mutate => Some(
                ObjectChange::Mutated {
                    sender,
                    owner: c.owner,
                    object_type: *type_tag,
                    object_id: c.object_ref.id,
                    version: c.object_ref.version,
                    previous_version: prev,
                    digest: c.object_ref.digest,
                },
            ),
            WriteKind::Create => Some(
                ObjectChange::Created {
                    sender,
                    owner: c.owner,
                    object_type: *type_tag,
                    object_id: c.object_ref.id,
                    version: c.object_ref.version,
                    digest: c.object_ref.digest,
                },
            ),
            WriteKind::Unwrap => None,
        },
        crate::types::ObjectData::Package { modules } => {
            if matches!(c.write_kind, WriteKind::Create) {
                let ms = clone_module_names(modules);
                Some(
                    ObjectChange::Published {
                        package_id: o.id,
                        version: o.version,
                        digest: c.object_ref.digest,
                        modules: ms,
                    },
                )
            } else {
                None
            }
        },
    }
}

/// Copies a package's module names.
fn clone_module_names(v: &Vec<String>) -> (r: Vec<String>)
    ensures
        r@ == v@,
{
    let r = v.clone();
    proof {
        assert(r@ =~= v@);
    }
    r
}

/// Builds the routed update of one changed object, from the fetched
/// object itself and the pre-transaction owner of the input snapshot.
pub fn changed_update(c: ChangedObject, o: &Object, pre: Option<Option<SuiAddress>>) -> (r: Option<
    (Option<SuiAddress>, ObjectChangeUpdate),
>)
    ensures
        match r {
            Some(u) => classify_update(c, o@, pre) == Some((u.0, u.1@)),
            None => classify_update(c, o@, pre) is None,
        },
{
    match &o.data {
        crate::types::ObjectData::Move { type_tag, contents } => {
            if matches!(c.write_kind, WriteKind::Unwrap) {
                return None;
            }
            if matches!(c.write_kind, WriteKind::Mutate) && pre.is_none() {
                return None;
            }
            let pre_addr = match pre {
                Some(a) => a,
                None => None,
            };
            let post = o.owner.get_owner_address();
            let status = match (pre_addr, post) {
                (Some(a), Some(b)) => if a != b {
                    ObjectUpdateStatus::Received { sender_address: a, receiver_address: b }
                } else {
                    ObjectUpdateStatus::Mutated
                },
                _ => match c.write_kind {
                    WriteKind::Create => ObjectUpdateStatus::Created,
                    _ => ObjectUpdateStatus::Mutated,
                },
            };
            let routing = match (pre_addr, post) {
                (Some(a), Some(b)) => if a != b {
                    Some(b)
                } else {
                    None
                },
                (None, Some(b)) => Some(b),
                (_, None) => None,
            };
            Some(
                (
                    routing,
                    ObjectChangeUpdate {
                        object_id: c.object_ref.id,
                        object_type_tag: Some(*type_tag),
                        object_version: Some(c.object_ref.version),
                        object_bcs: Some(crate::types::clone_bytes(contents)),
                        object_metadata: None,
                        status,
                    },
                ),
            )
        },
        crate::types::ObjectData::Package { .. } => None,
    }
}

/// Builds the canonical record of one removed object, from what the
/// provider resolved for it.
pub fn removed_record(sender: SuiAddress, rm: RemovedObject, o: &Option<Object>) -> (r: Option<
    ObjectChange,
>)
    ensures
        match r {
            Some(rec) => classify_removed(sender, rm, opt_view(*o)) == Some(rec@),
            None => classify_removed(sender, rm, opt_view(*o)) is None,
        },
{
    match o {
        None => None,
        Some(o) => match &o.data {
            crate::types::ObjectData::Move { type_tag, .. } => match rm.remove_kind {
                ObjectRemoveKind::Delete => Some(
                    ObjectChange::Deleted {
                        sender,
                        object_type: *type_tag,
                        object_id: rm.object_ref.id,
                        version: rm.object_ref.version,
                    },
                ),
                ObjectRemoveKind::Wrap => Some(
                    ObjectChange::Wrapped {
                        sender,
                        object_type: *type_tag,
                        object_id: rm.object_ref.id,
                        version: rm.object_ref.version,
                    },
                ),
            },
            crate::types::ObjectData::Package { .. } => None,
        },
    }
}

/// Builds the routed update of one removed object.
pub fn removed_update(
    rm: RemovedObject,
    o: &Option<Object>,
    pre: Option<Option<SuiAddress>>,
    post: Option<Option<SuiAddress>>,
) -> (r: Option<(Option<SuiAddress>, ObjectChangeUpdate)>)
    ensures
        match r {
            Some(u) => classify_removed_update(rm, opt_view(*o), pre, post) == Some((u.0, u.1@)),
            None => classify_removed_update(rm, opt_view(*o), pre, post) is None,
        },
{
    match o {
        None => None,
        Some(o) => match &o.data {
            crate::types::ObjectData::Move { type_tag, contents } => {
                let status: ObjectUpdateStatus;
                let routing: Option<SuiAddress>;
                match post {
                    Some(new_owner) => {
                        match pre {
                            None => {
                                return None;
                            },
                            Some(old_addr) => {
                                match (old_addr, new_owner) {
                                    (Some(a), Some(b)) => {
                                        status = ObjectUpdateStatus::Sent {
                                            sender_address: a,
                                            receiver_address: b,
                                        };
                                        routing = old_addr;
                                    },
                                    _ => {
                                        status = ObjectUpdateStatus::Deleted;
                                        routing = old_addr;
                                    },
                                }
                            },
                        }
                    },
                    None => {
                        status = ObjectUpdateStatus::Deleted;
                        routing = o.owner.get_owner_address();
                    },
                }
                Some(
                    (
                        routing,
                        ObjectChangeUpdate {
                            object_id: rm.object_ref.id,
                            object_type_tag: Some(*type_tag),
                            object_version: Some(rm.object_ref.version),
                            object_bcs: Some(crate::types::clone_bytes(contents)),
                            object_metadata: None,
                            status,
                        },
                    ),
                )
            },
            crate::types::ObjectData::Package { .. } => None,
        },
    }
}

/// Computes the canonical object-change records of one transaction: one
/// record per changed Move object by its write kind, one publication per
/// package created for the first time, and one record per removed Move
/// object the provider still resolves, by its remove kind.
pub fn get_object_changes<P: ObjectProvider>(
    provider: &mut P,
    sender: SuiAddress,
    modified_at_versions: &Vec<(ObjectId, u64)>,
    all_changed_objects: &Vec<ChangedObject>,
    all_removed_objects: &Vec<RemovedObject>,
) -> (r: Result<Vec<ObjectChange>, EngineError<P::Error>>)
    requires
        provider_wf(old(provider)),
    ensures
        provider_wf(final(provider)),
        final(provider).known() == old(provider).known(),
        forall|id2: ObjectId, v2: u64| #[trigger]
            final(provider).le_answer(id2, v2) == old(provider).le_answer(id2, v2),
        changed_flaw(old(provider).known(), all_changed_objects@, 0) matches Some(_) ==> r is Err,
        changed_flaw(old(provider).known(), all_changed_objects@, 0) is None
            && all_removed_objects@.len() == 0 ==> r is Ok,
        r matches Err(e) ==> e is Provider,
        r matches Ok(v) ==> changed_flaw(old(provider).known(), all_changed_objects@, 0) is None
            && changes_view(v@) == changed_records(
            old(provider).known(),
            sender,
            modified_at_versions@,
            all_changed_objects@,
            0,
        ) + removed_records(old(provider), sender, all_removed_objects@, 0),
{
    let ghost m = old(provider).known();
    let mut out: Vec<ObjectChange> = Vec::new();
    let n_changed = all_changed_objects.len();
    let mut i: usize = 0;
    while i < n_changed
        invariant
            provider_wf(&*provider),
            m == old(provider).known(),
            provider.known() == m,
            forall|id2: ObjectId, v2: u64| #[trigger]
                provider.le_answer(id2, v2) == old(provider).le_answer(id2, v2),
            n_changed == all_changed_objects@.len(),
            i <= n_changed,
            changed_flaw(m, all_changed_objects@, 0) == changed_flaw(
                m,
                all_changed_objects@,
                i as int,
            ),
            changed_records(m, sender, modified_at_versions@, all_changed_objects@, 0)
                == changes_view(out@) + changed_records(
                m,
                sender,
                modified_at_versions@,
                all_changed_objects@,
                i as int,
            ),
        decreases n_changed - i,
    {
        let c = all_changed_objects[i];
        match provider.get_object(&c.object_ref.id, c.object_ref.version) {
            Err(pe) => {
                return Err(EngineError::Provider(pe));
            },
            Ok(o) => {
                let prev = find_prev_version(modified_at_versions, &c.object_ref.id);
                match changed_record(sender, c, &o, prev) {
                    Some(rec) => {
                        proof {
                            let rest = changed_records(
                                m,
                                sender,
                                modified_at_versions@,
                                all_changed_objects@,
                                i + 1,
                            );
                            assert(changes_view(out@.push(rec)) =~= changes_view(out@).push(rec@));
                            assert((changes_view(out@) + seq![rec@]) + rest =~= changes_view(out@)
                                + (seq![rec@] + rest));
                            assert(changes_view(out@).push(rec@) =~= changes_view(out@) + seq![
                                rec@,
                            ]);
                        }
                        out.push(rec);
                    },
                    None => {},
                }
            },
        }
        i = i + 1;
    }
    proof {
        assert(changes_view(out@) + changed_records(
            m,
            sender,
            modified_at_versions@,
            all_changed_objects@,
            n_changed as int,
        ) =~= changes_view(out@));
    }

    let ghost full_changed = changed_records(
        m,
        sender,
        modified_at_versions@,
        all_changed_objects@,
        0,
    );
    let n_removed = all_removed_objects.len();
    let mut j: usize = 0;
    while j < n_removed
        invariant
            provider_wf(&*provider),
            m == old(provider).known(),
            provider.known() == m,
            forall|id2: ObjectId, v2: u64| #[trigger]
                provider.le_answer(id2, v2) == old(provider).le_answer(id2, v2),
            n_removed == all_removed_objects@.len(),
            j <= n_removed,
            changed_flaw(m, all_changed_objects@, 0) is None,
            full_changed == changed_records(
                m,
                sender,
                modified_at_versions@,
                all_changed_objects@,
                0,
            ),
            full_changed + removed_records(old(provider), sender, all_removed_objects@, 0)
                == changes_view(out@) + removed_records(
                old(provider),
                sender,
                all_removed_objects@,
                j as int,
            ),
        decreases n_removed - j,
    {
        let rm = all_removed_objects[j];
        match provider.find_object_lt_or_eq_version(&rm.object_ref.id, rm.object_ref.version) {
            Err(pe) => {
                return Err(EngineError::Provider(pe));
            },
            Ok(o) => {
                match removed_record(sender, rm, &o) {
                    Some(rec) => {
                        proof {
                            let rest = removed_records(
                                old(provider),
                                sender,
                                all_removed_objects@,
                                j + 1,
                            );
                            assert(changes_view(out@.push(rec)) =~= changes_view(out@).push(rec@));
                            assert(changes_view(out@).push(rec@) =~= changes_view(out@) + seq![
                                rec@,
                            ]);
                            assert((changes_view(out@) + seq![rec@]) + rest =~= changes_view(out@)
                                + (seq![rec@] + rest));
                        }
                        out.push(rec);
                    },
                    None => {},
                }
            },
        }
        j = j + 1;
    }
    proof {
        assert(changes_view(out@) + removed_records(
            old(provider),
            sender,
            all_removed_objects@,
            n_removed as int,
        ) =~= changes_view(out@));
    }
    Ok(out)
}

/// Computes both outputs of the object-change engine: the canonical
/// records, and the routed updates that detect ownership transfers by
/// comparing the pre-transaction owner of the input snapshot to the
/// post-transaction owner of each object.
pub fn custom_get_object_changes<P: ObjectProvider>(
    provider: &mut P,
    sender: SuiAddress,
    modified_at_versions: &Vec<(ObjectId, u64)>,
    all_changed_objects: &Vec<ChangedObject>,
    all_removed_objects: &Vec<RemovedObject>,
    input_objects: &Vec<Object>,
    output_objects: &Vec<Object>,
) -> (r: Result<
    (Vec<ObjectChange>, Vec<(Option<SuiAddress>, ObjectChangeUpdate)>),
    EngineError<P::Error>,
>)
    requires
        provider_wf(old(provider)),
    ensures
        provider_wf(final(provider)),
        final(provider).known() == old(provider).known(),
        forall|id2: ObjectId, v2: u64| #[trigger]
            final(provider).le_answer(id2, v2) == old(provider).le_answer(id2, v2),
        changed_flaw(old(provider).known(), all_changed_objects@, 0) matches Some(_) ==> r is Err,
        changed_flaw(old(provider).known(), all_changed_objects@, 0) is None
            && all_removed_objects@.len() == 0 ==> r is Ok,
        r matches Err(e) ==> e is Provider,
        r matches Ok(v) ==> {
            &&& changed_flaw(old(provider).known(), all_changed_objects@, 0) is None
            &&& changes_view(v.0@) == changed_records(
                old(provider).known(),
                sender,
                modified_at_versions@,
                all_changed_objects@,
                0,
            ) + removed_records(old(provider), sender, all_removed_objects@, 0)
            &&& updates_view(v.1@) == changed_updates(
                old(provider).known(),
                all_changed_objects@,
                input_objects@,
                0,
            ) + removed_updates(
                old(provider),
                all_removed_objects@,
                input_objects@,
                output_objects@,
                0,
            )
        },
{
    let ghost m = old(provider).known();
    let mut out: Vec<ObjectChange> = Vec::new();
    let mut ups: Vec<(Option<SuiAddress>, ObjectChangeUpdate)> = Vec::new();
    let n_changed = all_changed_objects.len();
    let mut i: usize = 0;
    while i < n_changed
        invariant
            provider_wf(&*provider),
            m == old(provider).known(),
            provider.known() == m,
            forall|id2: ObjectId, v2: u64| #[trigger]
                provider.le_answer(id2, v2) == old(provider).le_answer(id2, v2),
            n_changed == all_changed_objects@.len(),
            i <= n_changed,
            changed_flaw(m, all_changed_objects@, 0) == changed_flaw(
                m,
                all_changed_objects@,
                i as int,
            ),
            changed_records(m, sender, modified_at_versions@, all_changed_objects@, 0)
                == changes_view(out@) + changed_records(
                m,
                sender,
                modified_at_versions@,
                all_changed_objects@,
                i as int,
            ),
            changed_updates(m, all_changed_objects@, input_objects@, 0) == updates_view(ups@)
                + changed_updates(m, all_changed_objects@, input_objects@, i as int),
        decreases n_changed - i,
    {
        let c = all_changed_objects[i];
        match provider.get_object(&c.object_ref.id, c.object_ref.version) {
            Err(pe) => {
                return Err(EngineError::Provider(pe));
            },
            Ok(o) => {
                let prev = find_prev_version(modified_at_versions, &c.object_ref.id);
                let pre = find_snapshot_owner(input_objects, &c.object_ref.id);
                match changed_record(sender, c, &o, prev) {
                    Some(rec) => {
                        proof {
                            let rest = changed_records(
                                m,
                                sender,
                                modified_at_versions@,
                                all_changed_objects@,
                                i + 1,
                            );
                            assert(changes_view(out@.push(rec)) =~= changes_view(out@).push(rec@));
                            assert(changes_view(out@).push(rec@) =~= changes_view(out@) + seq![
                                rec@,
                            ]);
                            assert((changes_view(out@) + seq![rec@]) + rest =~= changes_view(out@)
                                + (seq![rec@] + rest));
                        }
                        out.push(rec);
                    },
                    None => {},
                }
                match changed_update(c, &o, pre) {
                    Some(u) => {
                        proof {
                            let uv = (u.0, u.1@);
                            let rest = changed_updates(
                                m,
                                all_changed_objects@,
                                input_objects@,
                                i + 1,
                            );
                            assert(updates_view(ups@.push(u)) =~= updates_view(ups@).push(uv));
                            assert(updates_view(ups@).push(uv) =~= updates_view(ups@) + seq![uv]);
                            assert((updates_view(ups@) + seq![uv]) + rest =~= updates_view(ups@) + (
                            seq![uv] + rest));
                        }
                        ups.push(u);
                    },
                    None => {},
                }
            },
        }
        i = i + 1;
    }
    proof {
        assert(changes_view(out@) + changed_records(
            m,
            sender,
            modified_at_versions@,
            all_changed_objects@,
            n_changed as int,
        ) =~= changes_view(out@));
        assert(updates_view(ups@) + changed_updates(
            m,
            all_changed_objects@,
            input_objects@,
            n_changed as int,
        ) =~= updates_view(ups@));
    }

    let ghost full_changed = changed_records(
        m,
        sender,
        modified_at_versions@,
        all_changed_objects@,
        0,
    );
    let ghost full_changed_ups = changed_updates(m, all_changed_objects@, input_objects@, 0);
    let n_removed = all_removed_objects.len();
    let mut j: usize = 0;
    while j < n_removed
        invariant
            provider_wf(&*provider),
            m == old(provider).known(),
            provider.known() == m,
            forall|id2: ObjectId, v2: u64| #[trigger]
                provider.le_answer(id2, v2) == old(provider).le_answer(id2, v2),
            n_removed == all_removed_objects@.len(),
            j <= n_removed,
            changed_flaw(m, all_changed_objects@, 0) is None,
            full_changed == changed_records(
                m,
                sender,
                modified_at_versions@,
                all_changed_objects@,
                0,
            ),
            full_changed_ups == changed_updates(m, all_changed_objects@, input_objects@, 0),
            full_changed + removed_records(old(provider), sender, all_removed_objects@, 0)
                == changes_view(out@) + removed_records(
                old(provider),
                sender,
                all_removed_objects@,
                j as int,
            ),
            full_changed_ups + removed_updates(
                old(provider),
                all_removed_objects@,
                input_objects@,
                output_objects@,
                0,
            ) == updates_view(ups@) + removed_updates(
                old(provider),
                all_removed_objects@,
                input_objects@,
                output_objects@,
                j as int,
            ),
        decreases n_removed - j,
    {
        let rm = all_removed_objects[j];
        match provider.find_object_lt_or_eq_version(&rm.object_ref.id, rm.object_ref.version) {
            Err(pe) => {
                return Err(EngineError::Provider(pe));
            },
            Ok(o) => {
                let pre = find_snapshot_owner(input_objects, &rm.object_ref.id);
                let post = find_snapshot_owner(output_objects, &rm.object_ref.id);
                match removed_record(sender, rm, &o) {
                    Some(rec) => {
                        proof {
                            let rest = removed_records(
                                old(provider),
                                sender,
                                all_removed_objects@,
                                j + 1,
                            );
                            assert(changes_view(out@.push(rec)) =~= changes_view(out@).push(rec@));
                            assert(changes_view(out@).push(rec@) =~= changes_view(out@) + seq![
                                rec@,
                            ]);
                            assert((changes_view(out@) + seq![rec@]) + rest =~= changes_view(out@)
                                + (seq![rec@] + rest));
                        }
                        out.push(rec);
                    },
                    None => {},
                }
                match removed_update(rm, &o, pre, post) {
                    Some(u) => {
                        proof {
                            let uv = (u.0, u.1@);
                            let rest = removed_updates(
                                old(provider),
                                all_removed_objects@,
                                input_objects@,
                                output_objects@,
                                j + 1,
                            );
                            assert(updates_view(ups@.push(u)) =~= updates_view(ups@).push(uv));
                            assert(updates_view(ups@).push(uv) =~= updates_view(ups@) + seq![uv]);
                            assert((updates_view(ups@) + seq![uv]) + rest =~= updates_view(ups@) + (
                            seq![uv] + rest));
                        }
                        ups.push(u);
                    },
                    None => {},
                }
            },
        }
        j = j + 1;
    }
    proof {
        assert(changes_view(out@) + removed_records(
            old(provider),
            sender,
            all_removed_objects@,
            n_removed as int,
        ) =~= changes_view(out@));
        assert(updates_view(ups@) + removed_updates(
            old(provider),
            all_removed_objects@,
            input_objects@,
            output_objects@,
            n_removed as int,
        ) =~= updates_view(ups@));
    }
    Ok((out, ups))
}

/// Ownership classification of a mutated object: a pre-owner address
/// that differs from the post-owner address makes the update read
/// Received from the one to the other, routed to the receiver.
pub proof fn lemma_ownership_classification(
    c: ChangedObject,
    o: ObjectView,
    a: SuiAddress,
    b: SuiAddress,
)
    requires
        c.write_kind is Mutate,
        o.data is Move,
        o.owner.address_spec() == Some(b),
        a != b,
    ensures
        classify_update(c, o, Some(Some(a))) matches Some(u) && u.0 == Some(b) && u.1.status
            == (ObjectUpdateStatus::Received { sender_address: a, receiver_address: b }),
{
}

/// Published record: a package written by a Create yields exactly one
/// publication, carrying the package's identity, version and module
/// names.
pub proof fn lemma_published_record(sender: SuiAddress, c: ChangedObject, o: ObjectView)
    requires
        c.write_kind is Create,
        o.data matches ObjectDataView::Package { modules },
    ensures
        classify_changed(sender, c, o, 0) == Some(
            ObjectChangeView::Published {
                package_id: o.id,
                version: o.version,
                digest: c.object_ref.digest,
                modules: o.data->Package_modules,
            },
        ),
{
}

} // verus!

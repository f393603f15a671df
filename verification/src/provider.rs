//! The object provider: the capability the engines consult to look up any
//! prior version of an object, and a simple in-memory implementation.

use crate::types::{Object, ObjectId, ObjectView};
use vstd::prelude::*;

verus! {

/// Well-formedness of a provider's memory: every object sits at the key
/// made of its own identity and version.
pub open spec fn known_wf(m: Map<(ObjectId, u64), ObjectView>) -> bool {
    forall|k: (ObjectId, u64)| #[trigger]
        m.contains_key(k) ==> m[k].id == k.0 && m[k].version == k.1
}

/// The view of an optional object.
pub open spec fn opt_view(o: Option<Object>) -> Option<ObjectView> {
    match o {
        Some(ob) => Some(ob@),
        None => None,
    }
}

/// Soundness of one latest-at-or-below answer against a memory: the
/// answer, when there is one, is a known object of the queried identity at
/// a version not above the queried one.
pub open spec fn le_answer_ok(
    m: Map<(ObjectId, u64), ObjectView>,
    id: ObjectId,
    v: u64,
    ans: Option<ObjectView>,
) -> bool {
    match ans {
        Some(o) => {
            &&& o.id == id
            &&& o.version <= v
            &&& m.contains_key((id, o.version))
            &&& m[(id, o.version)] == o
        },
        None => true,
    }
}

/// Greatest-ness of one latest-at-or-below answer against a memory: the
/// answer sits at the greatest known version of the queried identity at
/// or below the queried one, and there is no answer exactly when no such
/// version is known.
pub open spec fn le_answer_greatest_at(
    m: Map<(ObjectId, u64), ObjectView>,
    id: ObjectId,
    v: u64,
    ans: Option<ObjectView>,
) -> bool {
    match ans {
        Some(o) => forall|u: u64| #[trigger] m.contains_key((id, u)) && u <= v ==> u <= o.version,
        None => forall|u: u64| u <= v ==> !(#[trigger] m.contains_key((id, u))),
    }
}

/// A provider resolves greatest answers when every latest-at-or-below
/// answer is the greatest its memory allows. The trait's contracts ask
/// only for soundness, because a cache seeded with objects its wrapped
/// provider lacks answers unseeded queries from that provider and may
/// fall short of the seeded versions; this stronger property holds of
/// the in-memory provider always, of a freshly wrapped cache, and is
/// preserved by every call, since calls change neither the memory nor
/// the answers.
pub open spec fn le_greatest<P: ObjectProvider>(p: &P) -> bool {
    forall|id: ObjectId, v: u64|
        le_answer_greatest_at(p.known(), id, v, #[trigger] p.le_answer(id, v))
}

/// Greatest-ness carries over to any provider with the same memory and
/// the same answers; in particular it survives every trait call, whose
/// contract preserves both.
pub proof fn lemma_le_greatest_transfers<P1: ObjectProvider, P2: ObjectProvider>(
    p1: &P1,
    p2: &P2,
)
    requires
        le_greatest(p1),
        p2.known() == p1.known(),
        forall|id: ObjectId, v: u64| #[trigger] p2.le_answer(id, v) == p1.le_answer(id, v),
    ensures
        le_greatest(p2),
{
    assert forall|id: ObjectId, v: u64|
        le_answer_greatest_at(p2.known(), id, v, #[trigger] p2.le_answer(id, v)) by {
        assert(le_answer_greatest_at(p1.known(), id, v, p1.le_answer(id, v)));
    }
}

/// A source of historical object versions.
///
/// Implementations may be backed by anything that can be brought into
/// memory; the engines only rely on the two lookup operations. Both take
/// the receiver mutably so that an implementation may maintain internal
/// caches, but neither changes what the provider knows.
pub trait ObjectProvider: Sized {
    type Error;

    /// Every object the provider can hand out, keyed by identity and
    /// version.
    spec fn known(&self) -> Map<(ObjectId, u64), ObjectView>;

    /// The answer a latest-at-or-below query receives, as a function of
    /// the provider's state.
    spec fn le_answer(&self, id: ObjectId, version: u64) -> Option<ObjectView>;

    /// The implementation's own invariant: what its constructors
    /// establish and its methods keep.
    spec fn inv(&self) -> bool;

    /// Returns the object at exactly `(id, version)`, and fails if and
    /// only if that pair is unknown.
    fn get_object(&mut self, id: &ObjectId, version: u64) -> (r: Result<Object, Self::Error>)
        requires
            old(self).inv(),
            known_wf(old(self).known()),
            forall|id2: ObjectId, v2: u64|
                le_answer_ok(old(self).known(), id2, v2, #[trigger] old(self).le_answer(id2, v2)),
        ensures
            final(self).inv(),
            known_wf(final(self).known()),
            forall|id2: ObjectId, v2: u64|
                le_answer_ok(
                    final(self).known(),
                    id2,
                    v2,
                    #[trigger] final(self).le_answer(id2, v2),
                ),
            final(self).known() == old(self).known(),
            forall|id2: ObjectId, v2: u64| #[trigger]
                final(self).le_answer(id2, v2) == old(self).le_answer(id2, v2),
            r is Ok <==> old(self).known().contains_key((*id, version)),
            r matches Ok(o) ==> o@ == old(self).known()[(*id, version)],
    ;

    /// Returns the object this provider resolves for a
    /// latest-version-at-or-below query, or nothing when it resolves none.
    fn find_object_lt_or_eq_version(&mut self, id: &ObjectId, version: u64) -> (r: Result<
        Option<Object>,
        Self::Error,
    >)
        requires
            old(self).inv(),
            known_wf(old(self).known()),
            forall|id2: ObjectId, v2: u64|
                le_answer_ok(old(self).known(), id2, v2, #[trigger] old(self).le_answer(id2, v2)),
        ensures
            final(self).inv(),
            known_wf(final(self).known()),
            forall|id2: ObjectId, v2: u64|
                le_answer_ok(
                    final(self).known(),
                    id2,
                    v2,
                    #[trigger] final(self).le_answer(id2, v2),
                ),
            final(self).known() == old(self).known(),
            forall|id2: ObjectId, v2: u64| #[trigger]
                final(self).le_answer(id2, v2) == old(self).le_answer(id2, v2),
            r matches Ok(o) ==> opt_view(o) == old(self).le_answer(*id, version),
    ;
}

/// Soundness of a provider, as the engines require it: the conjunction of
/// the conditions the trait's methods ask of the caller.
pub open spec fn provider_wf<P: ObjectProvider>(p: &P) -> bool {
    &&& p.inv()
    &&& known_wf(p.known())
    &&& forall|id: ObjectId, v: u64|
        le_answer_ok(p.known(), id, v, #[trigger] p.le_answer(id, v))
}

/// The fault of the in-memory provider: the requested version is unknown.
#[derive(Clone, Copy, Debug, PartialEq, Eq, Structural, Hash)]
pub enum ProviderError {
    NotFound,
}

/// The memory of the in-memory provider, as a map; of elements sharing an
/// `(id, version)` pair the later one wins.
pub open spec fn map_of_objects(s: Seq<Object>) -> Map<(ObjectId, u64), ObjectView>
    decreases s.len(),
{
    if s.len() == 0 {
        Map::empty()
    } else {
        map_of_objects(s.drop_last()).insert((s.last().id, s.last().version), s.last()@)
    }
}

/// The greatest version of identity `id` at most `v` found in `s`.
pub open spec fn le_version_scan(s: Seq<Object>, id: ObjectId, v: u64) -> Option<u64>
    decreases s.len(),
{
    if s.len() == 0 {
        None
    } else {
        let rest = le_version_scan(s.drop_last(), id, v);
        let o = s.last();
        if o.id == id && o.version <= v && (rest is None || rest->Some_0 < o.version) {
            Some(o.version)
        } else {
            rest
        }
    }
}

/// The answer the in-memory store gives a latest-at-or-below query: the
/// held object at the greatest version of `id` at most `v`.
pub open spec fn scan_answer(s: Seq<Object>, id: ObjectId, v: u64) -> Option<ObjectView> {
    match le_version_scan(s, id, v) {
        Some(w) => Some(map_of_objects(s)[(id, w)]),
        None => None,
    }
}

proof fn lemma_map_of_objects_contains(s: Seq<Object>, k: (ObjectId, u64))
    ensures
        map_of_objects(s).contains_key(k) <==> exists|i: int|
            0 <= i < s.len() && ((#[trigger] s[i].id, s[i].version) == k),
    decreases s.len(),
{
    if s.len() > 0 {
        lemma_map_of_objects_contains(s.drop_last(), k);
        if map_of_objects(s).contains_key(k) {
            if (s.last().id, s.last().version) == k {
                assert((s[s.len() - 1].id, s[s.len() - 1].version) == k);
            } else {
                let i = choose|i: int|
                    0 <= i < s.drop_last().len() && ((#[trigger] s.drop_last()[i].id,
                    s.drop_last()[i].version) == k);
                assert((s[i].id, s[i].version) == k);
            }
        }
        if exists|i: int| 0 <= i < s.len() && ((#[trigger] s[i].id, s[i].version) == k) {
            let i = choose|i: int| 0 <= i < s.len() && ((#[trigger] s[i].id, s[i].version) == k);
            if i < s.len() - 1 {
                assert((s.drop_last()[i].id, s.drop_last()[i].version) == k);
            }
        }
    }
}

/// The map holds the last of the elements that share a key.
proof fn lemma_map_of_last_occurrence(s: Seq<Object>, i: int)
    requires
        0 <= i < s.len(),
        forall|j: int|
            i < j < s.len() ==> ((#[trigger] s[j].id, s[j].version) != (s[i].id, s[i].version)),
    ensures
        map_of_objects(s).contains_key((s[i].id, s[i].version)),
        map_of_objects(s)[(s[i].id, s[i].version)] == s[i]@,
    decreases s.len(),
{
    if i == s.len() - 1 {
    } else {
        assert(s.drop_last()[i] == s[i]);
        assert(forall|j: int|
            i < j < s.drop_last().len() ==> (#[trigger] s.drop_last()[j]) == s[j]);
        lemma_map_of_last_occurrence(s.drop_last(), i);
        assert((s.last().id, s.last().version) != (s[i].id, s[i].version));
    }
}

proof fn lemma_known_wf(s: Seq<Object>)
    ensures
        known_wf(map_of_objects(s)),
    decreases s.len(),
{
    if s.len() > 0 {
        lemma_known_wf(s.drop_last());
    }
}

/// What the version scan finds: an element's version, greatest among the
/// versions of `id` at most `v`; or nothing when there is no such element.
proof fn lemma_le_version_scan_greatest(s: Seq<Object>, id: ObjectId, v: u64)
    ensures
        le_version_scan(s, id, v) matches Some(w) ==> {
            &&& w <= v
            &&& exists|i: int| 0 <= i < s.len() && ((#[trigger] s[i].id, s[i].version) == (id, w))
            &&& forall|i: int|
                0 <= i < s.len() && (#[trigger] s[i].id) == id && s[i].version <= v
                    ==> s[i].version <= w
        },
        le_version_scan(s, id, v) is None ==> forall|i: int|
            0 <= i < s.len() ==> !((#[trigger] s[i].id) == id && s[i].version <= v),
    decreases s.len(),
{
    if s.len() > 0 {
        let d = s.drop_last();
        let rest = le_version_scan(d, id, v);
        let o = s.last();
        lemma_le_version_scan_greatest(d, id, v);
        assert(forall|i: int| 0 <= i < d.len() ==> (#[trigger] d[i]) == s[i]);
        if o.id == id && o.version <= v && (rest is None || rest->Some_0 < o.version) {
            let w = o.version;
            assert((s[s.len() - 1].id, s[s.len() - 1].version) == (id, w));
            assert forall|i: int|
                0 <= i < s.len() && (#[trigger] s[i].id) == id && s[i].version <= v implies s[i].version
                <= w by {
                if i < s.len() - 1 {
                    assert(d[i] == s[i]);
                    if rest is None {
                        assert(!((d[i].id) == id && d[i].version <= v));
                    }
                }
            }
        } else {
            if rest is Some {
                let w = rest->Some_0;
                let i = choose|i: int|
                    0 <= i < d.len() && ((#[trigger] d[i].id, d[i].version) == (id, w));
                assert((s[i].id, s[i].version) == (id, w));
                assert forall|i2: int|
                    0 <= i2 < s.len() && (#[trigger] s[i2].id) == id && s[i2].version <= v implies s[
                    i2].version <= w by {
                    if i2 < s.len() - 1 {
                        assert(d[i2] == s[i2]);
                    }
                }
            } else {
                assert forall|i2: int| 0 <= i2 < s.len() implies !((#[trigger] s[i2].id) == id
                    && s[i2].version <= v) by {
                    if i2 < s.len() - 1 {
                        assert(d[i2] == s[i2]);
                    }
                }
            }
        }
    }
}

/// Soundness of every latest-at-or-below answer of the in-memory store.
proof fn lemma_wf_all(s: Seq<Object>)
    ensures
        forall|id: ObjectId, v: u64|
            le_answer_ok(map_of_objects(s), id, v, #[trigger] scan_answer(s, id, v)),
{
    assert forall|id: ObjectId, v: u64|
        le_answer_ok(map_of_objects(s), id, v, #[trigger] scan_answer(s, id, v)) by {
        lemma_le_version_scan_greatest(s, id, v);
        if le_version_scan(s, id, v) is Some {
            let w = le_version_scan(s, id, v)->Some_0;
            lemma_map_of_objects_contains(s, (id, w));
            lemma_known_wf(s);
        }
    }
}

/// An object provider backed by a list of objects held in memory; the
/// trivial provider used by tests and seedable stores.
pub struct MemoryObjectProvider {
    objects: Vec<Object>,
}

impl MemoryObjectProvider {
    /// Creates a provider that knows nothing.
    pub fn new() -> (r: Self)
        ensures
            provider_wf(&r),
            r.known() == Map::<(ObjectId, u64), ObjectView>::empty(),
    {
        let r = MemoryObjectProvider { objects: Vec::new() };
        proof {
            lemma_known_wf(r.objects@);
            lemma_wf_all(r.objects@);
        }
        r
    }

    /// Adds one object the provider will hand out; an object already held
    /// under the same `(id, version)` pair is superseded.
    pub fn add_object(&mut self, o: Object)
        ensures
            provider_wf(final(self)),
            final(self).known() == old(self).known().insert((o.id, o.version), o@),
    {
        self.objects.push(o);
        proof {
            assert(self.objects@.drop_last() =~= old(self).objects@);
            lemma_known_wf(self.objects@);
            lemma_wf_all(self.objects@);
        }
    }
}

impl ObjectProvider for MemoryObjectProvider {
    type Error = ProviderError;

    closed spec fn inv(&self) -> bool {
        true
    }

    closed spec fn known(&self) -> Map<(ObjectId, u64), ObjectView> {
        map_of_objects(self.objects@)
    }

    closed spec fn le_answer(&self, id: ObjectId, version: u64) -> Option<ObjectView> {
        scan_answer(self.objects@, id, version)
    }

    fn get_object(&mut self, id: &ObjectId, version: u64) -> (r: Result<Object, Self::Error>) {
        let n = self.objects.len();
        let mut found: Option<usize> = None;
        let mut i: usize = n;
        while i > 0
            invariant
                n == self.objects@.len(),
                i <= n,
                *self == *old(self),
                match found {
                    Some(f) => {
                        &&& f < n
                        &&& (self.objects@[f as int].id, self.objects@[f as int].version) == (
                            *id,
                            version,
                        )
                        &&& forall|j: int|
                            f < j < n ==> ((#[trigger] self.objects@[j].id,
                            self.objects@[j].version) != (*id, version))
                    },
                    None => forall|j: int|
                        i <= j < n ==> ((#[trigger] self.objects@[j].id,
                        self.objects@[j].version) != (*id, version)),
                },
            decreases i,
        {
            i = i - 1;
            if found.is_none() && self.objects[i].id == *id && self.objects[i].version == version {
                found = Some(i);
            }
        }
        proof {
            lemma_map_of_objects_contains(self.objects@, (*id, version));
        }
        match found {
            Some(f) => {
                proof {
                    lemma_map_of_last_occurrence(self.objects@, f as int);
                }
                Ok(self.objects[f].clone())
            },
            None => {
                proof {
                    if map_of_objects(self.objects@).contains_key((*id, version)) {
                        let j = choose|j: int|
                            0 <= j < self.objects@.len() && ((#[trigger] self.objects@[j].id,
                            self.objects@[j].version) == (*id, version));
                    }
                }
                Err(ProviderError::NotFound)
            },
        }
    }

    fn find_object_lt_or_eq_version(&mut self, id: &ObjectId, version: u64) -> (r: Result<
        Option<Object>,
        Self::Error,
    >)
        ensures
            r is Ok,
    {
        let n = self.objects.len();
        let mut best: Option<usize> = None;
        let mut i: usize = 0;
        while i < n
            invariant
                n == self.objects@.len(),
                i <= n,
                *self == *old(self),
                match best {
                    Some(b) => {
                        &&& b < i
                        &&& self.objects@[b as int].id == *id
                        &&& self.objects@[b as int].version <= version
                        &&& le_version_scan(self.objects@.take(i as int), *id, version) == Some(
                            self.objects@[b as int].version,
                        )
                        &&& forall|j: int|
                            b < j < i ==> ((#[trigger] self.objects@[j].id,
                            self.objects@[j].version) != (*id, self.objects@[b as int].version))
                    },
                    None => le_version_scan(self.objects@.take(i as int), *id, version) is None,
                },
            decreases n - i,
        {
            let ghost prefix = self.objects@.take(i as int);
            let o_id = self.objects[i].id;
            let o_version = self.objects[i].version;
            let better = o_id == *id && o_version <= version && (match best {
                Some(b) => self.objects[b].version <= o_version,
                None => true,
            });
            proof {
                let next = self.objects@.take(i + 1);
                assert(next.drop_last() =~= prefix);
                assert(next.last() == self.objects@[i as int]);
            }
            if better {
                best = Some(i);
            }
            i = i + 1;
        }
        proof {
            assert(self.objects@.take(n as int) =~= self.objects@);
        }
        match best {
            Some(b) => {
                proof {
                    lemma_map_of_last_occurrence(self.objects@, b as int);
                }
                Ok(Some(self.objects[b].clone()))
            },
            None => Ok(None),
        }
    }
}

/// The answer of the in-memory provider is the greatest it can give: the
/// object it resolves for a latest-at-or-below query sits at the greatest
/// known version of that identity at or below the queried one, and it
/// resolves none exactly when it knows no such version.
pub proof fn lemma_memory_provider_le_greatest(p: &MemoryObjectProvider, id: ObjectId, v: u64)
    ensures
        p.le_answer(id, v) matches Some(o) ==> {
            &&& o.id == id
            &&& o.version <= v
            &&& p.known().contains_key((id, o.version))
            &&& forall|u: u64| p.known().contains_key((id, u)) && u <= v ==> u <= o.version
        },
        p.le_answer(id, v) is None ==> forall|u: u64| u <= v ==> !p.known().contains_key((id, u)),
{
    let s = p.objects@;
    lemma_le_version_scan_greatest(s, id, v);
    lemma_wf_all(s);
    lemma_known_wf(s);
    if p.le_answer(id, v) is Some {
        let o = p.le_answer(id, v)->Some_0;
        let w = le_version_scan(s, id, v)->Some_0;
        lemma_map_of_objects_contains(s, (id, w));
        assert(p.known().contains_key((id, w)));
        assert(o.version == w);
        assert forall|u: u64| p.known().contains_key((id, u)) && u <= v implies u <= o.version by {
            lemma_map_of_objects_contains(s, (id, u));
            let i = choose|i: int|
                0 <= i < s.len() && ((#[trigger] s[i].id, s[i].version) == (id, u));
            assert(s[i].id == id && s[i].version <= v);
        }
    }
    if p.le_answer(id, v) is None {
        assert forall|u: u64| u <= v implies !p.known().contains_key((id, u)) by {
            lemma_map_of_objects_contains(s, (id, u));
            if p.known().contains_key((id, u)) {
                let i = choose|i: int|
                    0 <= i < s.len() && ((#[trigger] s[i].id, s[i].version) == (id, u));
                assert(s[i].id == id && s[i].version <= v);
            }
        }
    }
}

/// The in-memory provider resolves greatest answers, always.
pub proof fn lemma_memory_provider_greatest(p: &MemoryObjectProvider)
    ensures
        le_greatest(p),
{
    assert forall|id: ObjectId, v: u64|
        le_answer_greatest_at(p.known(), id, v, #[trigger] p.le_answer(id, v)) by {
        lemma_memory_provider_le_greatest(p, id, v);
    }
}

} // verus!

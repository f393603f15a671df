//! The versioned object cache: wraps a provider, memoizes exact lookups
//! by `(id, version)`, and remembers which version each
//! latest-at-or-below query resolved to, so that repeating a query never
//! asks the provider again.

use crate::provider::{
    known_wf, le_answer_ok, le_greatest, lemma_le_greatest_transfers, provider_wf, ObjectProvider,
};
use crate::types::{Object, ObjectId, ObjectView};
use vstd::prelude::*;

verus! {

/// The exact cache as a map; of entries sharing a key the later wins.
pub open spec fn cache_map(s: Seq<(ObjectId, u64, Object)>) -> Map<(ObjectId, u64), ObjectView>
    decreases s.len(),
{
    if s.len() == 0 {
        Map::empty()
    } else {
        cache_map(s.drop_last()).insert((s.last().0, s.last().1), s.last().2@)
    }
}

/// The version the resolved-at-or-below cache remembers for a query key;
/// of entries sharing a key the later wins.
pub open spec fn memo_lookup(s: Seq<((ObjectId, u64), u64)>, id: ObjectId, v: u64) -> Option<u64>
    decreases s.len(),
{
    if s.len() == 0 {
        None
    } else if s.last().0 == (id, v) {
        Some(s.last().1)
    } else {
        memo_lookup(s.drop_last(), id, v)
    }
}

proof fn lemma_cache_map_contains(s: Seq<(ObjectId, u64, Object)>, k: (ObjectId, u64))
    ensures
        cache_map(s).contains_key(k) <==> exists|i: int|
            0 <= i < s.len() && (((#[trigger] s[i]).0, s[i].1) == k),
    decreases s.len(),
{
    if s.len() > 0 {
        lemma_cache_map_contains(s.drop_last(), k);
        assert(forall|i: int| 0 <= i < s.drop_last().len() ==> (#[trigger] s.drop_last()[i]) == s[i]);
        if cache_map(s).contains_key(k) {
            if (s.last().0, s.last().1) == k {
                assert((s[s.len() - 1].0, s[s.len() - 1].1) == k);
            } else {
                let i = choose|i: int|
                    0 <= i < s.drop_last().len() && (((#[trigger] s.drop_last()[i]).0,
                    s.drop_last()[i].1) == k);
                assert((s[i].0, s[i].1) == k);
            }
        }
        if exists|i: int| 0 <= i < s.len() && (((#[trigger] s[i]).0, s[i].1) == k) {
            let i = choose|i: int| 0 <= i < s.len() && (((#[trigger] s[i]).0, s[i].1) == k);
            if i < s.len() - 1 {
                assert(((s.drop_last()[i]).0, s.drop_last()[i].1) == k);
            }
        }
    }
}

/// The exact cache holds the last of the entries that share a key.
proof fn lemma_cache_map_last_occurrence(s: Seq<(ObjectId, u64, Object)>, i: int)
    requires
        0 <= i < s.len(),
        forall|j: int| i < j < s.len() ==> (((#[trigger] s[j]).0, s[j].1) != (s[i].0, s[i].1)),
    ensures
        cache_map(s).contains_key((s[i].0, s[i].1)),
        cache_map(s)[(s[i].0, s[i].1)] == s[i].2@,
    decreases s.len(),
{
    if i == s.len() - 1 {
    } else {
        assert(s.drop_last()[i] == s[i]);
        assert(forall|j: int|
            i < j < s.drop_last().len() ==> (#[trigger] s.drop_last()[j]) == s[j]);
        lemma_cache_map_last_occurrence(s.drop_last(), i);
        assert((s.last().0, s.last().1) != (s[i].0, s[i].1));
    }
}

/// Wraps a provider with an exact cache by `(id, version)` and a
/// resolved-at-or-below cache by `(id, queried version)`.
pub struct ObjectProviderCache<P> {
    object_cache: Vec<(ObjectId, u64, Object)>,
    last_version_cache: Vec<((ObjectId, u64), u64)>,
    provider: P,
}

impl<P: ObjectProvider> ObjectProviderCache<P> {
    /// Whether the resolved-at-or-below cache already remembers the
    /// query `(id, version)`; such a query is answered without the
    /// provider and cannot fail.
    pub closed spec fn resolved(&self, id: ObjectId, version: u64) -> bool {
        memo_lookup(self.last_version_cache@, id, version) is Some
    }

    /// Finds the exact-cache slot holding `(id, v)`, scanning for the
    /// latest entry.
    fn find_cached(&self, id: &ObjectId, v: u64) -> (r: Option<usize>)
        ensures
            match r {
                Some(i) => i < self.object_cache@.len() && (self.object_cache@[i as int].0,
                self.object_cache@[i as int].1) == (*id, v) && forall|j: int|
                    i < j < self.object_cache@.len() ==> (((#[trigger] self.object_cache@[j]).0,
                    self.object_cache@[j].1) != (*id, v)),
                None => !cache_map(self.object_cache@).contains_key((*id, v)),
            },
    {
        let n = self.object_cache.len();
        let mut i: usize = n;
        while i > 0
            invariant
                n == self.object_cache@.len(),
                i <= n,
                forall|j: int|
                    i <= j < n ==> (((#[trigger] self.object_cache@[j]).0,
                    self.object_cache@[j].1) != (*id, v)),
            decreases i,
        {
            i = i - 1;
            if self.object_cache[i].0 == *id && self.object_cache[i].1 == v {
                return Some(i);
            }
        }
        proof {
            lemma_cache_map_contains(self.object_cache@, (*id, v));
        }
        None
    }

    /// Finds the version the resolved-at-or-below cache remembers for
    /// the query `(id, v)`.
    fn find_memo(&self, id: &ObjectId, v: u64) -> (r: Option<u64>)
        ensures
            r == memo_lookup(self.last_version_cache@, *id, v),
    {
        let n = self.last_version_cache.len();
        let mut r: Option<u64> = None;
        let mut i: usize = 0;
        while i < n
            invariant
                n == self.last_version_cache@.len(),
                i <= n,
                r == memo_lookup(self.last_version_cache@.take(i as int), *id, v),
            decreases n - i,
        {
            proof {
                assert(self.last_version_cache@.take(i + 1).drop_last()
                    =~= self.last_version_cache@.take(i as int));
                assert(self.last_version_cache@.take(i + 1).last()
                    == self.last_version_cache@[i as int]);
            }
            if self.last_version_cache[i].0.0 == *id && self.last_version_cache[i].0.1 == v {
                r = Some(self.last_version_cache[i].1);
            }
            i = i + 1;
        }
        proof {
            assert(self.last_version_cache@.take(n as int) =~= self.last_version_cache@);
        }
        r
    }

    /// Wraps a provider with empty caches: the cache then knows exactly
    /// what the provider knows and resolves exactly what it resolves.
    pub fn new(provider: P) -> (r: Self)
        requires
            provider_wf(&provider),
        ensures
            provider_wf(&r),
            r.known() == provider.known(),
            forall|id: ObjectId, v: u64| #[trigger]
                r.le_answer(id, v) == provider.le_answer(id, v),
            le_greatest(&provider) ==> le_greatest(&r),
    {
        let ghost p0 = provider;
        let r = ObjectProviderCache {
            object_cache: Vec::new(),
            last_version_cache: Vec::new(),
            provider,
        };
        proof {
            assert(cache_map(r.object_cache@) =~= Map::<(ObjectId, u64), ObjectView>::empty());
            assert(r.known() =~= p0.known());
            if le_greatest(&p0) {
                lemma_le_greatest_transfers(&p0, &r);
            }
        }
        r
    }

    /// Wraps a provider and seeds the caches with objects the
    /// transaction wrote, so that lookups at their exact versions never
    /// reach the provider. A seeded object the provider also knows must
    /// agree with it: objects are content-addressed.
    pub fn new_with_cache(provider: P, written_objects: Vec<Object>) -> (r: Self)
        requires
            provider_wf(&provider),
            forall|i: int|
                0 <= i < written_objects@.len() ==> (provider.known().contains_key(
                    ((#[trigger] written_objects@[i]).id, written_objects@[i].version),
                ) ==> provider.known()[(written_objects@[i].id, written_objects@[i].version)]
                    == written_objects@[i]@),
        ensures
            provider_wf(&r),
            r.known() == seeded_known(provider.known(), written_objects@),
            forall|i: int|
                0 <= i < written_objects@.len() ==> r.resolved(
                    (#[trigger] written_objects@[i]).id,
                    written_objects@[i].version,
                ),
            forall|i: int|
                0 <= i < written_objects@.len() ==> r.le_answer(
                    (#[trigger] written_objects@[i]).id,
                    written_objects@[i].version,
                ) == Some(
                    r.known()[(written_objects@[i].id, written_objects@[i].version)],
                ),
            forall|id: ObjectId, v: u64|
                (forall|i: int|
                    0 <= i < written_objects@.len() ==> ((#[trigger] written_objects@[i]).id,
                    written_objects@[i].version) != (id, v)) ==> #[trigger] r.le_answer(id, v)
                    == provider.le_answer(id, v),
    {
        let ghost p0 = provider;
        let mut object_cache: Vec<(ObjectId, u64, Object)> = Vec::new();
        let mut last_version_cache: Vec<((ObjectId, u64), u64)> = Vec::new();
        let n = written_objects.len();
        let mut i: usize = 0;
        let written = written_objects;
        while i < n
            invariant
                n == written@.len(),
                i <= n,
                object_cache@.len() == i,
                last_version_cache@.len() == i,
                forall|j: int|
                    0 <= j < i ==> (#[trigger] object_cache@[j]).0 == written@[j].id
                        && object_cache@[j].1 == written@[j].version && object_cache@[j].2@
                        == written@[j]@,
                forall|j: int|
                    0 <= j < i ==> (#[trigger] last_version_cache@[j]) == ((written@[j].id,
                    written@[j].version), written@[j].version),
            decreases n - i,
        {
            let o = written[i].clone();
            let ghost oi = written@[i as int];
            proof {
                assert(o@ == oi@);
            }
            object_cache.push((written[i].id, written[i].version, o));
            last_version_cache.push(((written[i].id, written[i].version), written[i].version));
            i = i + 1;
        }
        let r = ObjectProviderCache { object_cache, last_version_cache, provider };
        proof {
            lemma_seeded(p0.known(), written@, r.object_cache@);
            assert(r.known() =~= seeded_known(p0.known(), written@));
            assert(cache_inv(&r)) by {
                assert forall|j: int| 0 <= j < r.last_version_cache@.len() implies {
                    let me = #[trigger] r.last_version_cache@[j];
                    &&& me.1 <= me.0.1
                    &&& cache_map(r.object_cache@).contains_key((me.0.0, me.1))
                } by {
                    lemma_cache_map_contains(
                        r.object_cache@,
                        (written@[j].id, written@[j].version),
                    );
                    assert((r.object_cache@[j].0, r.object_cache@[j].1) == (written@[j].id,
                    written@[j].version));
                }
            }
            lemma_cache_wf(&r);
            lemma_seeded_memo_all(r.last_version_cache@, written@);
            assert forall|i2: int|
                0 <= i2 < written@.len() implies r.le_answer(
                (#[trigger] written@[i2]).id,
                written@[i2].version,
            ) == Some(r.known()[(written@[i2].id, written@[i2].version)]) by {
                assert(memo_lookup(
                    r.last_version_cache@,
                    written@[i2].id,
                    written@[i2].version,
                ) == Some(written@[i2].version));
            }
        }
        r
    }
}

/// A seeded memory knows every written object's key; the last write of
/// a key decides its object.
pub proof fn lemma_seeded_known_at(
    m: Map<(ObjectId, u64), ObjectView>,
    written: Seq<Object>,
    i: int,
)
    requires
        0 <= i < written.len(),
    ensures
        seeded_known(m, written).contains_key((written[i].id, written[i].version)),
        (forall|j: int|
            i < j < written.len() ==> ((#[trigger] written[j]).id, written[j].version) != (
            written[i].id,
            written[i].version,
        )) ==> seeded_known(m, written)[(written[i].id, written[i].version)] == written[i]@,
    decreases written.len(),
{
    if i == written.len() - 1 {
    } else {
        let d = written.drop_last();
        assert(forall|j: int| 0 <= j < d.len() ==> (#[trigger] d[j]) == written[j]);
        lemma_seeded_known_at(m, d, i);
        assert(written[written.len() - 1] == written.last());
    }
}

/// What a memo list of seeded pairs remembers: exactly the seeded
/// `(id, version)` queries, each resolving to its own version.
proof fn lemma_seeded_memo(
    s: Seq<((ObjectId, u64), u64)>,
    w: Seq<Object>,
    id: ObjectId,
    v: u64,
)
    requires
        s.len() == w.len(),
        forall|j: int|
            0 <= j < w.len() ==> (#[trigger] s[j]) == ((w[j].id, w[j].version), w[j].version),
    ensures
        memo_lookup(s, id, v) is Some <==> exists|j: int|
            0 <= j < w.len() && ((#[trigger] w[j]).id, w[j].version) == (id, v),
        memo_lookup(s, id, v) is Some ==> memo_lookup(s, id, v) == Some(v),
    decreases s.len(),
{
    if s.len() > 0 {
        let sd = s.drop_last();
        let wd = w.drop_last();
        assert(forall|j: int| 0 <= j < sd.len() ==> (#[trigger] sd[j]) == s[j]);
        assert(forall|j: int| 0 <= j < wd.len() ==> (#[trigger] wd[j]) == w[j]);
        lemma_seeded_memo(sd, wd, id, v);
        assert(s[s.len() - 1] == s.last());
        assert(w[w.len() - 1] == w.last());
        if s.last().0 == (id, v) {
            assert((w[w.len() - 1].id, w[w.len() - 1].version) == (id, v));
        } else {
            if memo_lookup(s, id, v) is Some {
                let j = choose|j: int|
                    0 <= j < wd.len() && ((#[trigger] wd[j]).id, wd[j].version) == (id, v);
                assert((w[j].id, w[j].version) == (id, v));
            }
            if exists|j: int| 0 <= j < w.len() && ((#[trigger] w[j]).id, w[j].version) == (id, v) {
                let j = choose|j: int|
                    0 <= j < w.len() && ((#[trigger] w[j]).id, w[j].version) == (id, v);
                assert(j < w.len() - 1);
                assert((wd[j].id, wd[j].version) == (id, v));
            }
        }
    }
}

proof fn lemma_seeded_memo_all(s: Seq<((ObjectId, u64), u64)>, w: Seq<Object>)
    requires
        s.len() == w.len(),
        forall|j: int|
            0 <= j < w.len() ==> (#[trigger] s[j]) == ((w[j].id, w[j].version), w[j].version),
    ensures
        forall|id: ObjectId, v: u64|
            #[trigger] memo_lookup(s, id, v) is Some <==> exists|j: int|
                0 <= j < w.len() && ((#[trigger] w[j]).id, w[j].version) == (id, v),
        forall|id: ObjectId, v: u64|
            #[trigger] memo_lookup(s, id, v) is Some ==> memo_lookup(s, id, v) == Some(v),
{
    assert forall|id: ObjectId, v: u64| true implies ((#[trigger] memo_lookup(s, id, v) is Some
        <==> exists|j: int|
            0 <= j < w.len() && ((#[trigger] w[j]).id, w[j].version) == (id, v)) && (memo_lookup(
        s,
        id,
        v,
    ) is Some ==> memo_lookup(s, id, v) == Some(v))) by {
        lemma_seeded_memo(s, w, id, v);
    }
}

/// What the cache knows after seeding: the provider's memory, with each
/// written object inserted at its own key.
pub open spec fn seeded_known(
    m: Map<(ObjectId, u64), ObjectView>,
    written: Seq<Object>,
) -> Map<(ObjectId, u64), ObjectView>
    decreases written.len(),
{
    if written.len() == 0 {
        m
    } else {
        seeded_known(m, written.drop_last()).insert(
            (written.last().id, written.last().version),
            written.last()@,
        )
    }
}

/// The union the cache's memory forms equals the seeded memory, when the
/// exact cache holds exactly the written objects.
proof fn lemma_seeded(
    m: Map<(ObjectId, u64), ObjectView>,
    written: Seq<Object>,
    cache: Seq<(ObjectId, u64, Object)>,
)
    requires
        cache.len() == written.len(),
        forall|j: int|
            0 <= j < written.len() ==> (#[trigger] cache[j]).0 == written[j].id && cache[j].1
                == written[j].version && cache[j].2@ == written[j]@,
    ensures
        m.union_prefer_right(cache_map(cache)) =~= seeded_known(m, written),
    decreases written.len(),
{
    if written.len() > 0 {
        assert(cache.drop_last().len() == written.drop_last().len());
        assert(forall|j: int|
            0 <= j < written.drop_last().len() ==> (#[trigger] cache.drop_last()[j]) == cache[j]
                && (#[trigger] written.drop_last()[j]) == written[j]);
        lemma_seeded(m, written.drop_last(), cache.drop_last());
        assert(cache.last().0 == written.last().id && cache.last().1 == written.last().version
            && cache.last().2@ == written.last()@);
    }
}

/// The cache's full invariant: the wrapped provider is sound, every
/// exact-cache entry sits under its own key and agrees with the provider
/// where both know the object, and every remembered resolution points at
/// a cached object at or below the queried version.
spec fn cache_inv<P: ObjectProvider>(c: &ObjectProviderCache<P>) -> bool {
    &&& provider_wf(&c.provider)
    &&& forall|j: int|
        0 <= j < c.object_cache@.len() ==> {
            let e = #[trigger] c.object_cache@[j];
            &&& e.2@.id == e.0
            &&& e.2@.version == e.1
            &&& (c.provider.known().contains_key((e.0, e.1)) ==> c.provider.known()[(e.0, e.1)]
                == e.2@)
        }
    &&& forall|j: int|
        0 <= j < c.last_version_cache@.len() ==> {
            let me = #[trigger] c.last_version_cache@[j];
            &&& me.1 <= me.0.1
            &&& cache_map(c.object_cache@).contains_key((me.0.0, me.1))
        }
}

/// A cache whose invariant holds is a sound provider.
proof fn lemma_cache_wf<P: ObjectProvider>(c: &ObjectProviderCache<P>)
    requires
        cache_inv(c),
    ensures
        known_wf(c.known()),
        forall|id: ObjectId, v: u64|
            le_answer_ok(c.known(), id, v, #[trigger] c.le_answer(id, v)),
{
    assert forall|k: (ObjectId, u64)| #[trigger]
        c.known().contains_key(k) implies c.known()[k].id == k.0 && c.known()[k].version
        == k.1 by {
        if cache_map(c.object_cache@).contains_key(k) {
            lemma_cache_map_contains(c.object_cache@, k);
            let j = choose|j: int|
                0 <= j < c.object_cache@.len() && (((#[trigger] c.object_cache@[j]).0,
                c.object_cache@[j].1) == k);
            lemma_cache_entry_value(c, j, k);
        }
    }
    assert forall|id: ObjectId, v: u64|
        le_answer_ok(c.known(), id, v, #[trigger] c.le_answer(id, v)) by {
        match memo_lookup(c.last_version_cache@, id, v) {
            Some(w) => {
                lemma_memo_entry(c, id, v, w);
            },
            None => {
                if c.provider.le_answer(id, v) is Some {
                    let o = c.provider.le_answer(id, v)->Some_0;
                    assert(le_answer_ok(c.provider.known(), id, v, c.provider.le_answer(id, v)));
                    assert(c.known().contains_key((id, o.version)));
                    if cache_map(c.object_cache@).contains_key((id, o.version)) {
                        lemma_cache_map_contains(c.object_cache@, (id, o.version));
                        let j = choose|j: int|
                            0 <= j < c.object_cache@.len() && (((#[trigger] c.object_cache@[j]).0,
                            c.object_cache@[j].1) == (id, o.version));
                        lemma_cache_entry_value(c, j, (id, o.version));
                    }
                }
            },
        }
    }
}

/// The exact cache's value at a key agrees with what the union memory
/// holds there.
proof fn lemma_cache_entry_value<P: ObjectProvider>(
    c: &ObjectProviderCache<P>,
    j: int,
    k: (ObjectId, u64),
)
    requires
        cache_inv(c),
        0 <= j < c.object_cache@.len(),
        (c.object_cache@[j].0, c.object_cache@[j].1) == k,
    ensures
        c.known().contains_key(k),
        c.known()[k].id == k.0,
        c.known()[k].version == k.1,
        c.provider.known().contains_key(k) ==> c.known()[k] == c.provider.known()[k],
{
    let s = c.object_cache@;
    let l = lemma_last_occurrence_exists(s, j, k);
    lemma_cache_map_last_occurrence(s, l);
}

/// Of the entries holding a key, there is a last one.
proof fn lemma_last_occurrence_exists(
    s: Seq<(ObjectId, u64, Object)>,
    j: int,
    k: (ObjectId, u64),
) -> (l: int)
    requires
        0 <= j < s.len(),
        (s[j].0, s[j].1) == k,
    ensures
        0 <= l < s.len(),
        (s[l].0, s[l].1) == k,
        forall|j2: int| l < j2 < s.len() ==> (((#[trigger] s[j2]).0, s[j2].1) != k),
    decreases s.len() - j,
{
    if exists|j2: int| j < j2 < s.len() && (((#[trigger] s[j2]).0, s[j2].1) == k) {
        let j2 = choose|j2: int| j < j2 < s.len() && (((#[trigger] s[j2]).0, s[j2].1) == k);
        lemma_last_occurrence_exists(s, j2, k)
    } else {
        j
    }
}

/// A remembered resolution is a sound answer.
proof fn lemma_memo_entry<P: ObjectProvider>(c: &ObjectProviderCache<P>, id: ObjectId, v: u64, w: u64)
    requires
        cache_inv(c),
        memo_lookup(c.last_version_cache@, id, v) == Some(w),
    ensures
        w <= v,
        cache_map(c.object_cache@).contains_key((id, w)),
        c.known().contains_key((id, w)),
        le_answer_ok(c.known(), id, v, Some(c.known()[(id, w)])),
{
    lemma_memo_is_entry(c.last_version_cache@, id, v, w);
    lemma_cache_map_contains(c.object_cache@, (id, w));
    let j = choose|j: int|
        0 <= j < c.object_cache@.len() && (((#[trigger] c.object_cache@[j]).0,
        c.object_cache@[j].1) == (id, w));
    lemma_cache_entry_value(c, j, (id, w));
}

/// A remembered resolution comes from some memo entry.
proof fn lemma_memo_is_entry(s: Seq<((ObjectId, u64), u64)>, id: ObjectId, v: u64, w: u64)
    requires
        memo_lookup(s, id, v) == Some(w),
    ensures
        exists|j: int| 0 <= j < s.len() && (#[trigger] s[j]) == ((id, v), w),
    decreases s.len(),
{
    if s.len() > 0 {
        if s.last().0 == (id, v) {
            assert(s[s.len() - 1] == ((id, v), w));
        } else {
            lemma_memo_is_entry(s.drop_last(), id, v, w);
            let j = choose|j: int|
                0 <= j < s.drop_last().len() && (#[trigger] s.drop_last()[j]) == ((id, v), w);
            assert(s[j] == ((id, v), w));
        }
    }
}

impl<P: ObjectProvider> ObjectProvider for ObjectProviderCache<P> {
    type Error = P::Error;

    closed spec fn known(&self) -> Map<(ObjectId, u64), ObjectView> {
        self.provider.known().union_prefer_right(cache_map(self.object_cache@))
    }

    closed spec fn le_answer(&self, id: ObjectId, version: u64) -> Option<ObjectView> {
        match memo_lookup(self.last_version_cache@, id, version) {
            Some(w) => Some(self.known()[(id, w)]),
            None => self.provider.le_answer(id, version),
        }
    }

    closed spec fn inv(&self) -> bool {
        cache_inv(self)
    }

    fn get_object(&mut self, id: &ObjectId, version: u64) -> (r: Result<Object, Self::Error>) {
        match self.find_cached(id, version) {
            Some(i) => {
                proof {
                    lemma_cache_map_last_occurrence(self.object_cache@, i as int);
                    lemma_cache_map_contains(self.object_cache@, (*id, version));
                }
                Ok(self.object_cache[i].2.clone())
            },
            None => {
                let ghost pre = *self;
                match self.provider.get_object(id, version) {
                    Err(e) => {
                        proof {
                            assert(self.known() =~= pre.known());
                            lemma_le_unchanged(&pre, &*self);
                        }
                        Err(e)
                    },
                    Ok(o) => {
                        let ghost mid = *self;
                        let oc = o.clone();
                        self.object_cache.push((*id, version, oc));
                        proof {
                            assert(self.object_cache@.drop_last() =~= pre.object_cache@);
                            assert(cache_map(self.object_cache@) =~= cache_map(
                                pre.object_cache@,
                            ).insert((*id, version), o@));
                            assert(self.known() =~= pre.known());
                            lemma_cache_inv_after_insert(&pre, &*self);
                            lemma_le_unchanged(&pre, &*self);
                            lemma_cache_wf(&*self);
                        }
                        Ok(o)
                    },
                }
            },
        }
    }

    fn find_object_lt_or_eq_version(&mut self, id: &ObjectId, version: u64) -> (r: Result<
        Option<Object>,
        Self::Error,
    >)
        ensures
            old(self).resolved(*id, version) ==> r is Ok,
    {
        match self.find_memo(id, version) {
            Some(w) => {
                proof {
                    lemma_memo_entry(&*self, *id, version, w);
                }
                match self.find_cached(id, w) {
                    Some(i) => {
                        proof {
                            lemma_cache_map_last_occurrence(self.object_cache@, i as int);
                            let j = i as int;
                            lemma_cache_entry_value(
                                &*self,
                                j,
                                (*id, w),
                            );
                        }
                        Ok(Some(self.object_cache[i].2.clone()))
                    },
                    None => {
                        // the invariant keeps every remembered resolution cached
                        proof {
                            assert(false);
                        }
                        Ok(None)
                    },
                }
            },
            None => {
                let ghost pre = *self;
                match self.provider.find_object_lt_or_eq_version(id, version) {
                    Err(e) => {
                        proof {
                            assert(self.known() =~= pre.known());
                            lemma_le_unchanged(&pre, &*self);
                        }
                        Err(e)
                    },
                    Ok(None) => {
                        proof {
                            assert(self.known() =~= pre.known());
                            lemma_le_unchanged(&pre, &*self);
                        }
                        Ok(None)
                    },
                    Ok(Some(o)) => {
                        let ghost pre2 = *self;
                        let o_version = o.version;
                        let oc = o.clone();
                        proof {
                            assert(le_answer_ok(
                                pre.provider.known(),
                                *id,
                                version,
                                pre.provider.le_answer(*id, version),
                            ));
                            assert(o@.id == *id && o@.version <= version);
                        }
                        self.object_cache.push((*id, o_version, oc));
                        self.last_version_cache.push(((*id, version), o_version));
                        proof {
                            assert(self.object_cache@.drop_last() =~= pre.object_cache@);
                            assert(self.last_version_cache@.drop_last()
                                =~= pre.last_version_cache@);
                            assert(cache_map(self.object_cache@) =~= cache_map(
                                pre.object_cache@,
                            ).insert((*id, o_version), o@));
                            assert(pre.provider.known().contains_key((*id, o_version))
                                && pre.provider.known()[(*id, o_version)] == o@);
                            if cache_map(pre.object_cache@).contains_key((*id, o_version)) {
                                lemma_cache_map_contains(pre.object_cache@, (*id, o_version));
                                let j = choose|j: int|
                                    0 <= j < pre.object_cache@.len() && (((
                                    #[trigger] pre.object_cache@[j]).0, pre.object_cache@[j].1)
                                        == (*id, o_version));
                                let l = lemma_last_occurrence_exists(
                                    pre.object_cache@,
                                    j,
                                    (*id, o_version),
                                );
                                lemma_cache_map_last_occurrence(pre.object_cache@, l);
                                assert(pre.object_cache@[l].2@ == o@);
                            }
                            assert(self.known() =~= pre.known());
                            lemma_cache_wf_after_resolve(&pre, &*self, *id, version, o@);
                        }
                        Ok(Some(o))
                    },
                }
            },
        }
    }
}

/// After an exact lookup is cached, the cache invariant still holds.
proof fn lemma_cache_inv_after_insert<P: ObjectProvider>(
    pre: &ObjectProviderCache<P>,
    post: &ObjectProviderCache<P>,
)
    requires
        cache_inv(pre),
        provider_wf(&post.provider),
        post.provider.known() == pre.provider.known(),
        post.object_cache@.drop_last() == pre.object_cache@,
        post.object_cache@.len() == pre.object_cache@.len() + 1,
        post.object_cache@.last().2@.id == post.object_cache@.last().0,
        post.object_cache@.last().2@.version == post.object_cache@.last().1,
        post.provider.known().contains_key(
            (post.object_cache@.last().0, post.object_cache@.last().1),
        ) ==> post.provider.known()[(post.object_cache@.last().0, post.object_cache@.last().1)]
            == post.object_cache@.last().2@,
        post.last_version_cache@ == pre.last_version_cache@,
    ensures
        cache_inv(post),
{
    assert(forall|j: int|
        0 <= j < pre.object_cache@.len() ==> (#[trigger] post.object_cache@[j])
            == pre.object_cache@[j]);
    assert forall|j: int| 0 <= j < post.last_version_cache@.len() implies {
        let me = #[trigger] post.last_version_cache@[j];
        &&& me.1 <= me.0.1
        &&& cache_map(post.object_cache@).contains_key((me.0.0, me.1))
    } by {
        let me = pre.last_version_cache@[j];
        lemma_cache_map_contains(pre.object_cache@, (me.0.0, me.1));
        lemma_cache_map_contains(post.object_cache@, (me.0.0, me.1));
    }
}

/// A step that changes neither cache leaves every latest-at-or-below
/// answer unchanged.
proof fn lemma_le_unchanged<P: ObjectProvider>(
    pre: &ObjectProviderCache<P>,
    post: &ObjectProviderCache<P>,
)
    requires
        post.last_version_cache@ == pre.last_version_cache@,
        forall|id: ObjectId, v: u64| #[trigger]
            post.provider.le_answer(id, v) == pre.provider.le_answer(id, v),
        post.known() == pre.known(),
    ensures
        forall|id: ObjectId, v: u64| #[trigger] post.le_answer(id, v) == pre.le_answer(id, v),
{
    assert forall|id: ObjectId, v: u64| #[trigger]
        post.le_answer(id, v) == pre.le_answer(id, v) by {
        assert(memo_lookup(post.last_version_cache@, id, v) == memo_lookup(
            pre.last_version_cache@,
            id,
            v,
        ));
    }
}

/// After a resolved query is cached and remembered, the cache stays
/// sound and answers every query as before.
proof fn lemma_cache_wf_after_resolve<P: ObjectProvider>(
    pre: &ObjectProviderCache<P>,
    post: &ObjectProviderCache<P>,
    id: ObjectId,
    version: u64,
    o: ObjectView,
)
    requires
        cache_inv(pre),
        provider_wf(&post.provider),
        memo_lookup(pre.last_version_cache@, id, version) is None,
        pre.provider.le_answer(id, version) == Some(o),
        post.provider.known() == pre.provider.known(),
        forall|id2: ObjectId, v2: u64| #[trigger]
            post.provider.le_answer(id2, v2) == pre.provider.le_answer(id2, v2),
        post.object_cache@.drop_last() == pre.object_cache@,
        post.object_cache@.len() == pre.object_cache@.len() + 1,
        (post.object_cache@.last().0, post.object_cache@.last().1) == (id, o.version),
        post.object_cache@.last().2@ == o,
        post.last_version_cache@ == pre.last_version_cache@.push(((id, version), o.version)),
        post.known() == pre.known(),
    ensures
        cache_inv(post),
        forall|id2: ObjectId, v2: u64| #[trigger] post.le_answer(id2, v2) == pre.le_answer(
            id2,
            v2,
        ),
{
    assert(le_answer_ok(pre.provider.known(), id, version, pre.provider.le_answer(id, version)));
    assert(o.id == id && o.version <= version);
    assert(cache_inv(post)) by {
        assert(forall|j: int|
            0 <= j < pre.object_cache@.len() ==> (#[trigger] post.object_cache@[j])
                == pre.object_cache@[j]);
        assert(forall|j: int|
            0 <= j < pre.last_version_cache@.len() ==> (#[trigger] post.last_version_cache@[j])
                == pre.last_version_cache@[j]);
        assert(post.object_cache@.last().0 == id && post.object_cache@.last().1 == o.version);
        assert(cache_map(post.object_cache@).contains_key((id, o.version))) by {
            lemma_cache_map_contains(post.object_cache@, (id, o.version));
            assert((post.object_cache@[post.object_cache@.len() - 1].0,
            post.object_cache@[post.object_cache@.len() - 1].1) == (id, o.version));
        }
        assert forall|j: int| 0 <= j < post.last_version_cache@.len() implies {
            let me = #[trigger] post.last_version_cache@[j];
            &&& me.1 <= me.0.1
            &&& cache_map(post.object_cache@).contains_key((me.0.0, me.1))
        } by {
            if j < pre.last_version_cache@.len() {
                let me = pre.last_version_cache@[j];
                lemma_cache_map_contains(pre.object_cache@, (me.0.0, me.1));
                lemma_cache_map_contains(post.object_cache@, (me.0.0, me.1));
            }
        }
    }
    assert forall|id2: ObjectId, v2: u64| #[trigger]
        post.le_answer(id2, v2) == pre.le_answer(id2, v2) by {
        if (id2, v2) == (id, version) {
            assert(memo_lookup(post.last_version_cache@, id2, v2) == Some(o.version));
            assert(post.known()[(id, o.version)] == o) by {
                assert(le_answer_ok(pre.known(), id, version, pre.le_answer(id, version)));
                assert(pre.le_answer(id, version) == pre.provider.le_answer(id, version));
                assert(pre.known().contains_key((id, o.version)) && pre.known()[(id, o.version)]
                    == o);
            }
            assert(pre.le_answer(id2, v2) == Some(o));
        } else {
            assert(post.last_version_cache@.drop_last() =~= pre.last_version_cache@);
            assert(memo_lookup(post.last_version_cache@, id2, v2) == memo_lookup(
                pre.last_version_cache@,
                id2,
                v2,
            ));
        }
    }
}

} // verus!

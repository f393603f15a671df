//! The ordered publisher: per-checkpoint message batches arrive possibly
//! out of order, and leave strictly in ascending checkpoint-sequence
//! order; a batch ahead of the expected sequence waits in a gap buffer
//! until the gap fills, and a batch behind it is dropped.

use vstd::prelude::*;

verus! {

/// Mathematical image of one publisher channel: the next expected
/// checkpoint sequence, uninitialized until the first batch arrives, and
/// the gap buffer.
pub ghost struct ChannelView<M> {
    pub next_index: Option<u64>,
    pub pending: Map<u64, Seq<M>>,
}

/// Well-formedness of a channel view: the gap buffer is finite, empty
/// while the channel is uninitialized, and holds only sequences strictly
/// between the expected one and the largest representable one.
pub open spec fn view_wf<M>(s: ChannelView<M>) -> bool {
    &&& s.pending.dom().finite()
    &&& match s.next_index {
        Some(e) => forall|k: u64| #[trigger] s.pending.contains_key(k) ==> e < k < u64::MAX,
        None => s.pending =~= Map::<u64, Seq<M>>::empty(),
    }
}

/// Flushes the consecutive run of buffered batches starting at `e`:
/// returns the remaining buffer, the flushed messages in order, and the
/// next sequence yet to arrive.
pub open spec fn drain<M>(pending: Map<u64, Seq<M>>, e: u64) -> (Map<u64, Seq<M>>, Seq<M>, u64)
    decreases pending.dom().len()
        when pending.dom().finite()
{
    if pending.dom().finite() && pending.contains_key(e) && e < u64::MAX {
        let rest = drain(pending.remove(e), (e + 1) as u64);
        (rest.0, pending[e] + rest.1, rest.2)
    } else {
        (pending, Seq::empty(), e)
    }
}

/// One step of a publisher channel: what the batch `(seq_no, msgs)` does
/// to the state, and which messages leave, in order.
pub open spec fn channel_step<M>(s: ChannelView<M>, seq_no: u64, msgs: Seq<M>) -> (
    ChannelView<M>,
    Seq<M>,
) {
    let e = match s.next_index {
        Some(e) => e,
        None => seq_no,
    };
    if seq_no < e {
        (s, Seq::empty())
    } else if seq_no == e {
        let rest = drain(s.pending, (e + 1) as u64);
        (ChannelView { next_index: Some(rest.2), pending: rest.0 }, msgs + rest.1)
    } else {
        let merged = if s.pending.contains_key(seq_no) {
            s.pending.insert(seq_no, s.pending[seq_no] + msgs)
        } else {
            s.pending.insert(seq_no, msgs)
        };
        (ChannelView { next_index: Some(e), pending: merged }, Seq::empty())
    }
}

/// The gap buffer of a channel, keyed by checkpoint sequence; of entries
/// sharing a key the later one wins, though a well-formed channel never
/// holds two.
pub open spec fn pending_map<M>(s: Seq<(u64, Vec<M>)>) -> Map<u64, Seq<M>>
    decreases s.len(),
{
    if s.len() == 0 {
        Map::empty()
    } else {
        pending_map(s.drop_last()).insert(s.last().0, s.last().1@)
    }
}

/// Distinctness of the sequence keys of a gap buffer.
pub open spec fn distinct_seq_keys<M>(s: Seq<(u64, Vec<M>)>) -> bool {
    forall|i: int, j: int| 0 <= i < j < s.len() ==> (#[trigger] s[i]).0 != (#[trigger] s[j]).0
}

proof fn lemma_pending_map_contains<M>(s: Seq<(u64, Vec<M>)>, k: u64)
    ensures
        pending_map(s).contains_key(k) <==> exists|i: int|
            0 <= i < s.len() && (#[trigger] s[i]).0 == k,
    decreases s.len(),
{
    if s.len() > 0 {
        lemma_pending_map_contains(s.drop_last(), k);
        assert(forall|i: int| 0 <= i < s.drop_last().len() ==> (#[trigger] s.drop_last()[i]) == s[i]);
        if pending_map(s).contains_key(k) {
            if s.last().0 == k {
                assert((s[s.len() - 1]).0 == k);
            } else {
                let i = choose|i: int|
                    0 <= i < s.drop_last().len() && (#[trigger] s.drop_last()[i]).0 == k;
                assert(s[i].0 == k);
            }
        }
        if exists|i: int| 0 <= i < s.len() && (#[trigger] s[i]).0 == k {
            let i = choose|i: int| 0 <= i < s.len() && (#[trigger] s[i]).0 == k;
            if i < s.len() - 1 {
                assert(s.drop_last()[i].0 == k);
            }
        }
    }
}

proof fn lemma_pending_map_finite<M>(s: Seq<(u64, Vec<M>)>)
    ensures
        pending_map(s).dom().finite(),
    decreases s.len(),
{
    if s.len() > 0 {
        lemma_pending_map_finite(s.drop_last());
    }
}

/// With distinct keys, each entry is in the buffer map.
proof fn lemma_pending_map_at<M>(s: Seq<(u64, Vec<M>)>, i: int)
    requires
        0 <= i < s.len(),
        forall|j: int| i < j < s.len() ==> (#[trigger] s[j]).0 != s[i].0,
    ensures
        pending_map(s).contains_key(s[i].0),
        pending_map(s)[s[i].0] == s[i].1@,
    decreases s.len(),
{
    if i == s.len() - 1 {
    } else {
        assert(s.drop_last()[i] == s[i]);
        assert(forall|j: int|
            i < j < s.drop_last().len() ==> (#[trigger] s.drop_last()[j]) == s[j]);
        lemma_pending_map_at(s.drop_last(), i);
    }
}

/// Removing the entry at `i` removes its key from the buffer map.
proof fn lemma_pending_map_remove<M>(s: Seq<(u64, Vec<M>)>, i: int)
    requires
        distinct_seq_keys(s),
        0 <= i < s.len(),
    ensures
        distinct_seq_keys(s.remove(i)),
        pending_map(s.remove(i)) =~= pending_map(s).remove(s[i].0),
    decreases s.len(),
{
    let r = s.remove(i);
    assert(forall|j: int| 0 <= j < i ==> (#[trigger] r[j]) == s[j]);
    assert(forall|j: int| i <= j < r.len() ==> (#[trigger] r[j]) == s[j + 1]);
    if i == s.len() - 1 {
        assert(r =~= s.drop_last());
        assert(forall|j: int|
            0 <= j < s.drop_last().len() ==> (#[trigger] s.drop_last()[j]) == s[j]);
        lemma_pending_map_contains(s.drop_last(), s[i].0);
        assert(!pending_map(s.drop_last()).contains_key(s[i].0));
        assert(pending_map(s) == pending_map(s.drop_last()).insert(s[i].0, s[i].1@));
        assert(pending_map(s.remove(i)) =~= pending_map(s).remove(s[i].0));
    } else {
        assert(r.drop_last() =~= s.drop_last().remove(i));
        assert(r.last() == s.last());
        assert(distinct_seq_keys(s.drop_last())) by {
            assert(forall|j: int|
                0 <= j < s.drop_last().len() ==> (#[trigger] s.drop_last()[j]) == s[j]);
        }
        lemma_pending_map_remove(s.drop_last(), i);
        assert(s.drop_last()[i] == s[i]);
        assert(pending_map(r) =~= pending_map(s.drop_last()).remove(s[i].0).insert(
            s.last().0,
            s.last().1@,
        ));
        assert(s.last().0 != s[i].0);
    }
}

/// One reorder channel of the publisher: it holds batches that arrived
/// ahead of the expected checkpoint sequence and releases each batch when
/// its sequence becomes the expected one.
pub struct OrderedChannel<M> {
    next_index: Option<u64>,
    pending: Vec<(u64, Vec<M>)>,
}

impl<M> OrderedChannel<M> {
    /// The channel as its mathematical image.
    pub closed spec fn view(&self) -> ChannelView<M> {
        ChannelView { next_index: self.next_index, pending: pending_map(self.pending@) }
    }

    /// The channel's private invariant.
    pub closed spec fn wf(&self) -> bool {
        &&& distinct_seq_keys(self.pending@)
        &&& match self.next_index {
            Some(e) => forall|i: int|
                0 <= i < self.pending@.len() ==> e < (#[trigger] self.pending@[i]).0 < u64::MAX,
            None => self.pending@.len() == 0,
        }
    }

    /// Creates a channel with an uninitialized expected index and an
    /// empty gap buffer.
    pub fn new() -> (r: Self)
        ensures
            r.wf(),
            view_wf(r.view()),
            r.view().next_index is None,
            r.view().pending =~= Map::<u64, Seq<M>>::empty(),
    {
        let r = OrderedChannel { next_index: None, pending: Vec::new() };
        proof {
            lemma_pending_map_finite(r.pending@);
        }
        r
    }

    /// How many batches wait in the gap buffer; what a closing channel
    /// reports as discarded.
    pub fn pending_batch_count(&self) -> (n: usize)
        ensures
            self.wf() ==> n == self.view().pending.dom().len(),
    {
        proof {
            if self.wf() {
                lemma_pending_len(self.pending@);
            }
        }
        self.pending.len()
    }

    /// The expected next checkpoint sequence, once initialized.
    pub fn next_expected(&self) -> (r: Option<u64>)
        ensures
            r == self.view().next_index,
    {
        self.next_index
    }

    /// Feeds one batch into the channel and returns the messages that
    /// leave now, in the order they must reach the bus.
    ///
    /// A batch at the expected sequence leaves at once, followed by the
    /// consecutive run it completes; a batch ahead of the expected
    /// sequence joins the gap buffer; a batch behind it is dropped.
    /// Finds the gap-buffer slot holding `k`, if any.
    fn find_pending_index(&self, k: u64) -> (r: Option<usize>)
        ensures
            match r {
                Some(i) => i < self.pending@.len() && self.pending@[i as int].0 == k,
                None => forall|j: int| 0 <= j < self.pending@.len() ==> (#[trigger] self.pending@[j]).0 != k,
            },
    {
        let n = self.pending.len();
        let mut i: usize = 0;
        while i < n
            invariant
                n == self.pending@.len(),
                i <= n,
                forall|j: int| 0 <= j < i ==> (#[trigger] self.pending@[j]).0 != k,
            decreases n - i,
        {
            if self.pending[i].0 == k {
                return Some(i);
            }
            i = i + 1;
        }
        None
    }

    /// Feeds one batch into the channel and returns the messages that
    /// leave now, in the order they must reach the bus.
    ///
    /// A batch at the expected sequence leaves at once, followed by the
    /// consecutive run it completes; a batch ahead of the expected
    /// sequence joins the gap buffer; a batch behind it is dropped.
    pub fn on_batch(&mut self, seq_no: u64, msgs: Vec<M>) -> (out: Vec<M>)
        requires
            old(self).wf(),
            seq_no < u64::MAX,
        ensures
            final(self).wf(),
            view_wf(final(self).view()),
            final(self).view() == channel_step(old(self).view(), seq_no, msgs@).0,
            out@ == channel_step(old(self).view(), seq_no, msgs@).1,
    {
        let ghost msgs0 = msgs@;
        proof {
            lemma_pending_map_finite(self.pending@);
        }
        let e = match self.next_index {
            Some(e) => e,
            None => seq_no,
        };
        if seq_no < e {
            proof {
                lemma_wf_view(&*self);
            }
            return Vec::new();
        }
        if seq_no == e {
            let ghost s0 = self.view();
            let ghost full = drain(s0.pending, (e + 1) as u64);
            let mut out = msgs;
            let mut next: u64 = e + 1;
            let mut found = self.find_pending_index(next);
            while found.is_some()
                invariant
                    seq_no < u64::MAX,
                    distinct_seq_keys(self.pending@),
                    next <= u64::MAX,
                    forall|i: int|
                        0 <= i < self.pending@.len() ==> next <= (#[trigger] self.pending@[i]).0
                            < u64::MAX,
                    match found {
                        Some(i) => i < self.pending@.len() && self.pending@[i as int].0 == next,
                        None => forall|j: int|
                            0 <= j < self.pending@.len() ==> (#[trigger] self.pending@[j]).0
                                != next,
                    },
                    full == drain(s0.pending, (e + 1) as u64),
                    full.0 == drain(pending_map(self.pending@), next).0,
                    msgs@ + full.1 == out@ + drain(pending_map(self.pending@), next).1,
                    full.2 == drain(pending_map(self.pending@), next).2,
                decreases self.pending@.len(),
            {
                let idx = found.unwrap();
                let ghost pre = self.pending@;
                proof {
                    assert(forall|j: int|
                        idx < j < pre.len() ==> (#[trigger] pre[j]).0 != pre[idx as int].0);
                    lemma_pending_map_at(pre, idx as int);
                    lemma_pending_map_remove(pre, idx as int);
                    lemma_pending_map_finite(pre);
                }
                let mut batch = self.pending.remove(idx);
                let ghost cur = pending_map(pre);
                proof {
                    assert(cur.contains_key(next) && cur[next] == batch.1@);
                    assert(pending_map(self.pending@) =~= cur.remove(next));
                    assert(drain(cur, next) == (
                        drain(cur.remove(next), (next + 1) as u64).0,
                        cur[next] + drain(cur.remove(next), (next + 1) as u64).1,
                        drain(cur.remove(next), (next + 1) as u64).2,
                    ));
                    assert((out@ + batch.1@) + drain(cur.remove(next), (next + 1) as u64).1
                        =~= out@ + (batch.1@ + drain(cur.remove(next), (next + 1) as u64).1));
                }
                out.append(&mut batch.1);
                next = next + 1;
                found = self.find_pending_index(next);
            }
            proof {
                lemma_pending_map_finite(self.pending@);
                let cur = pending_map(self.pending@);
                lemma_pending_map_contains(self.pending@, next);
                assert(!cur.contains_key(next));
                assert(drain(cur, next) == (cur, Seq::<M>::empty(), next));
                assert(out@ + Seq::<M>::empty() =~= out@);
            }
            self.next_index = Some(next);
            proof {
                lemma_pending_map_finite(self.pending@);
                assert(forall|i: int|
                    0 <= i < self.pending@.len() ==> next < (#[trigger] self.pending@[i]).0
                        < u64::MAX);
                lemma_wf_view(&*self);
                assert(msgs0 + full.1 == out@);
            }
            return out;
        }
        // seq_no is ahead of the expected index: it waits in the gap buffer
        let ghost s0 = self.view();
        let mut msgs = msgs;
        let found = self.find_pending_index(seq_no);
        match found {
            Some(idx) => {
                let ghost pre = self.pending@;
                proof {
                    assert(forall|j: int|
                        idx < j < pre.len() ==> (#[trigger] pre[j]).0 != pre[idx as int].0);
                    lemma_pending_map_at(pre, idx as int);
                    lemma_pending_map_remove(pre, idx as int);
                }
                let ghost old_batch = pre[idx as int].1@;
                let mut entry = self.pending.remove(idx);
                entry.1.append(&mut msgs);
                self.pending.push(entry);
                proof {
                    assert(self.pending@.drop_last() =~= pre.remove(idx as int));
                    assert(self.pending@.last().0 == seq_no);
                    assert(self.pending@.last().1@ == old_batch + msgs0);
                    assert(s0.pending.contains_key(seq_no) && s0.pending[seq_no] == old_batch);
                    assert(pending_map(self.pending@) == pending_map(pre.remove(idx as int)).insert(
                        seq_no,
                        old_batch + msgs0,
                    ));
                    assert(pending_map(self.pending@) =~= s0.pending.insert(
                        seq_no,
                        s0.pending[seq_no] + msgs0,
                    ));
                    assert(distinct_seq_keys(self.pending@)) by {
                        let d = pre.remove(idx as int);
                        assert(forall|j: int|
                            0 <= j < d.len() ==> (#[trigger] self.pending@[j]) == d[j]);
                        assert(forall|j: int| 0 <= j < d.len() ==> (#[trigger] d[j]).0 != seq_no);
                    }
                    lemma_wf_view(&*self);
                }
            },
            None => {
                let ghost pre = self.pending@;
                proof {
                    lemma_pending_map_contains(pre, seq_no);
                }
                self.pending.push((seq_no, msgs));
                proof {
                    assert(self.pending@.drop_last() =~= pre);
                    assert(pending_map(self.pending@) =~= s0.pending.insert(seq_no, msgs0));
                    lemma_wf_view(&*self);
                }
            },
        }
        Vec::new()
    }
}

/// What a full drain guarantees: the expected index never moves back,
/// the buffer only shrinks, and it never still holds the sequence the
/// drain stopped at.
pub proof fn lemma_drain_properties<M>(p: Map<u64, Seq<M>>, e: u64)
    requires
        p.dom().finite(),
    ensures
        drain(p, e).2 >= e,
        forall|k: u64| #[trigger] drain(p, e).0.contains_key(k) ==> p.contains_key(k),
        drain(p, e).2 < u64::MAX ==> !drain(p, e).0.contains_key(drain(p, e).2),
    decreases p.dom().len(),
{
    if p.contains_key(e) && e < u64::MAX {
        lemma_drain_properties(p.remove(e), (e + 1) as u64);
    }
}

/// A batch whose sequence was already flushed is silently dropped: the
/// state does not change and nothing is forwarded.
pub proof fn lemma_late_duplicate_dropped<M>(s: ChannelView<M>, seq_no: u64, msgs: Seq<M>)
    requires
        s.next_index matches Some(e) && seq_no < e,
    ensures
        channel_step(s, seq_no, msgs) == (s, Seq::<M>::empty()),
{
}

/// An in-order batch on an empty gap buffer is forwarded at once and
/// whole, with no buffering, and the expected index moves one up.
pub proof fn lemma_in_order_forward<M>(s: ChannelView<M>, seq_no: u64, msgs: Seq<M>)
    requires
        view_wf(s),
        s.next_index == Some(seq_no),
        s.pending == Map::<u64, Seq<M>>::empty(),
    ensures
        channel_step(s, seq_no, msgs).1 == msgs,
        channel_step(s, seq_no, msgs).0 == (ChannelView {
            next_index: Some((seq_no + 1) as u64),
            pending: s.pending,
        }),
{
    assert(!s.pending.contains_key((seq_no + 1) as u64));
    assert(msgs + Seq::<M>::empty() =~= msgs);
}

/// A batch ahead of the expected sequence forwards nothing: it joins the
/// gap buffer whole, appended to what already waits under its sequence.
pub proof fn lemma_gap_buffers<M>(s: ChannelView<M>, seq_no: u64, msgs: Seq<M>)
    requires
        s.next_index matches Some(e) && seq_no > e,
    ensures
        channel_step(s, seq_no, msgs).1 == Seq::<M>::empty(),
        channel_step(s, seq_no, msgs).0.next_index == s.next_index,
        channel_step(s, seq_no, msgs).0.pending.contains_key(seq_no),
        channel_step(s, seq_no, msgs).0.pending[seq_no] == if s.pending.contains_key(seq_no) {
            s.pending[seq_no] + msgs
        } else {
            msgs
        },
{
}

/// The expected index never moves backwards, and once a batch has been
/// seen the channel stays initialized.
pub proof fn lemma_expected_monotone<M>(s: ChannelView<M>, seq_no: u64, msgs: Seq<M>)
    requires
        view_wf(s),
        seq_no < u64::MAX,
    ensures
        channel_step(s, seq_no, msgs).0.next_index is Some,
        s.next_index matches Some(e) ==> channel_step(s, seq_no, msgs).0.next_index->Some_0 >= e,
{
    match s.next_index {
        Some(e) => {
            if seq_no == e {
                lemma_drain_properties(s.pending, (e + 1) as u64);
            }
        },
        None => {
            if seq_no == seq_no {
                lemma_drain_properties(s.pending, (seq_no + 1) as u64);
            }
        },
    }
}

/// The first position of the smallest inner key among a batch's groups.
pub open spec fn min_key_index<M>(gs: Seq<(u64, Vec<M>)>) -> int
    decreases gs.len(),
{
    if gs.len() <= 1 {
        0
    } else {
        let r = min_key_index(gs.drop_last());
        if gs.last().0 < gs[r].0 {
            gs.len() - 1
        } else {
            r
        }
    }
}

/// The position the selection picks is in range and holds a smallest
/// key; of equal keys it is the earliest.
pub proof fn lemma_min_key_index<M>(gs: Seq<(u64, Vec<M>)>)
    requires
        gs.len() > 0,
    ensures
        0 <= min_key_index(gs) < gs.len(),
        forall|j: int| 0 <= j < gs.len() ==> gs[min_key_index(gs)].0 <= (#[trigger] gs[j]).0,
        forall|j: int| 0 <= j < min_key_index(gs) ==> (#[trigger] gs[j]).0 > gs[min_key_index(gs)].0,
    decreases gs.len(),
{
    if gs.len() > 1 {
        let d = gs.drop_last();
        assert(forall|j: int| 0 <= j < d.len() ==> (#[trigger] d[j]) == gs[j]);
        lemma_min_key_index(d);
        assert(gs[gs.len() - 1] == gs.last());
        let i = min_key_index(gs);
        let rd = min_key_index(d);
        assert forall|j: int| 0 <= j < gs.len() implies gs[i].0 <= (#[trigger] gs[j]).0 by {
            if j < gs.len() - 1 {
                assert(d[j] == gs[j]);
                assert(d[rd].0 <= d[j].0);
            }
        }
        assert forall|j: int| 0 <= j < i implies (#[trigger] gs[j]).0 > gs[i].0 by {
            assert(d[j] == gs[j]);
            if i == gs.len() - 1 {
                assert(d[rd].0 <= d[j].0);
            } else {
                assert(d[j].0 > d[rd].0);
            }
        }
    }
}

/// The messages of a batch's groups, flattened in ascending order of
/// their inner key; groups that share a key keep their arrival order.
pub open spec fn flatten_ascending<M>(gs: Seq<(u64, Vec<M>)>) -> Seq<M>
    decreases gs.len(),
{
    if gs.len() == 0 {
        Seq::empty()
    } else {
        let i = min_key_index(gs);
        if 0 <= i < gs.len() {
            gs[i].1@ + flatten_ascending(gs.remove(i))
        } else {
            Seq::empty()
        }
    }
}

/// Finds the first group holding the smallest inner key.
fn find_min_key_index<M>(groups: &Vec<(u64, Vec<M>)>) -> (r: usize)
    requires
        groups@.len() > 0,
    ensures
        r < groups@.len(),
        r == min_key_index(groups@),
{
    let n = groups.len();
    let mut best: usize = 0;
    let mut j: usize = 1;
    while j < n
        invariant
            n == groups@.len(),
            1 <= j <= n,
            best < j,
            best == min_key_index(groups@.take(j as int)),
        decreases n - j,
    {
        proof {
            assert(groups@.take(j + 1).drop_last() =~= groups@.take(j as int));
            assert(groups@.take(j + 1).last() == groups@[j as int]);
            assert(groups@.take(j + 1)[best as int] == groups@[best as int]);
        }
        if groups[j].0 < groups[best].0 {
            best = j;
        }
        j = j + 1;
    }
    proof {
        assert(groups@.take(n as int) =~= groups@);
    }
    best
}

/// Flattens a batch of message groups in ascending order of their inner
/// key: the delivery order of the notifications inside one checkpoint's
/// batch.
pub fn flatten_groups_ascending<M>(groups: Vec<(u64, Vec<M>)>) -> (r: Vec<M>)
    ensures
        r@ == flatten_ascending(groups@),
{
    let ghost g0 = groups@;
    let mut groups = groups;
    let mut out: Vec<M> = Vec::new();
    while groups.len() > 0
        invariant
            flatten_ascending(g0) == out@ + flatten_ascending(groups@),
        decreases groups@.len(),
    {
        let i = find_min_key_index(&groups);
        let ghost pre = groups@;
        let mut g = groups.remove(i);
        proof {
            lemma_min_key_index(pre);
            let rest = flatten_ascending(pre.remove(i as int));
            assert(flatten_ascending(pre) == pre[i as int].1@ + rest);
            assert((out@ + pre[i as int].1@) + rest =~= out@ + (pre[i as int].1@ + rest));
        }
        out.append(&mut g.1);
    }
    proof {
        assert(out@ + flatten_ascending(groups@) =~= out@);
    }
    out
}

/// A well-formed channel has a well-formed view.
proof fn lemma_wf_view<M>(c: &OrderedChannel<M>)
    requires
        c.wf(),
    ensures
        view_wf(c.view()),
{
    lemma_pending_map_finite(c.pending@);
    match c.next_index {
        Some(e) => {
            assert forall|k: u64| #[trigger]
                pending_map(c.pending@).contains_key(k) implies e < k < u64::MAX by {
                lemma_pending_map_contains(c.pending@, k);
            }
        },
        None => {
            assert(c.pending@.len() == 0);
            assert(pending_map(c.pending@) =~= Map::<u64, Seq<M>>::empty());
        },
    }
}

proof fn lemma_pending_len<M>(s: Seq<(u64, Vec<M>)>)
    requires
        distinct_seq_keys(s),
    ensures
        pending_map(s).dom().len() == s.len(),
    decreases s.len(),
{
    if s.len() > 0 {
        assert(distinct_seq_keys(s.drop_last())) by {
            assert(forall|i: int|
                0 <= i < s.drop_last().len() ==> (#[trigger] s.drop_last()[i]) == s[i]);
        }
        lemma_pending_len(s.drop_last());
        lemma_pending_map_contains(s.drop_last(), s.last().0);
        lemma_pending_map_finite(s.drop_last());
    }
}

} // verus!

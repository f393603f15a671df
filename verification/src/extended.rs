//! The extended balance-change engine: the same accumulation as the
//! balance-change engine, but keyed per object, classified as Created,
//! Mutated or Deleted against the pre- and post-transaction owner maps,
//! and closed by a synthetic gas-charge record.

use crate::balance::{
    coins_from, fetch_coins, first_flaw, flaw_err, input_lookups, output_lookups, FetchedCoin,
};
use crate::provider::{provider_wf, ObjectProvider};
use crate::types::{
    BalanceChange, EngineError, ExecutionStatus, InputObjectKind, ObjectId, ObjectLookup,
    ObjectView, Owner, TransactionEffects, TypeTag,
};
use vstd::pervasive::VecAdditionalExecFns;
use vstd::prelude::*;

verus! {

/// How an object that produced a balance change fared in the
/// transaction.
#[derive(Clone, Copy, Debug, PartialEq, Eq, Structural, Hash)]
pub enum ObjectStatus {
    Created,
    Mutated,
    Deleted,
}

/// A per-object signed balance movement.
#[derive(Clone, Copy, Debug, PartialEq, Eq, Structural, Hash)]
pub struct CustomBalanceChange {
    pub owner: Owner,
    pub coin_type: TypeTag,
    pub amount: i128,
    pub object_id: ObjectId,
}

/// A per-object signed balance movement with its classified status.
#[derive(Clone, Copy, Debug, PartialEq, Eq, Structural, Hash)]
pub struct BalanceChangeWithStatus {
    pub owner: Owner,
    pub coin_type: TypeTag,
    pub amount: i128,
    pub object_id: ObjectId,
    pub status: ObjectStatus,
}

impl From<BalanceChangeWithStatus> for BalanceChange {
    fn from(b: BalanceChangeWithStatus) -> (r: Self) {
        BalanceChange { owner: b.owner, coin_type: b.coin_type, amount: b.amount }
    }
}

impl vstd::std_specs::convert::FromSpecImpl<BalanceChangeWithStatus> for BalanceChange {
    open spec fn obeys_from_spec() -> bool {
        true
    }

    open spec fn from_spec(b: BalanceChangeWithStatus) -> Self {
        BalanceChange { owner: b.owner, coin_type: b.coin_type, amount: b.amount }
    }
}

/// Total balance the coins of `s` hold for the per-object key.
pub open spec fn custom_sum(
    s: Seq<FetchedCoin>,
    owner: Owner,
    coin_type: TypeTag,
    object_id: ObjectId,
) -> int
    decreases s.len(),
{
    if s.len() == 0 {
        0
    } else {
        custom_sum(s.drop_last(), owner, coin_type, object_id) + if s.last().owner == owner
            && s.last().coin_type == coin_type && s.last().object_id == object_id {
            s.last().balance as int
        } else {
            0
        }
    }
}

/// The net signed movement of a per-object key.
pub open spec fn custom_delta(
    ins: Seq<FetchedCoin>,
    outs: Seq<FetchedCoin>,
    owner: Owner,
    coin_type: TypeTag,
    object_id: ObjectId,
) -> int {
    custom_sum(outs, owner, coin_type, object_id) - custom_sum(ins, owner, coin_type, object_id)
}

/// Whether a per-object key occurs among the fetched coins.
pub open spec fn key_appears(
    s: Seq<FetchedCoin>,
    owner: Owner,
    coin_type: TypeTag,
    object_id: ObjectId,
) -> bool {
    exists|j: int|
        0 <= j < s.len() && (#[trigger] s[j]).owner == owner && s[j].coin_type == coin_type
            && s[j].object_id == object_id
}

proof fn lemma_custom_sum_bound(
    s: Seq<FetchedCoin>,
    owner: Owner,
    coin_type: TypeTag,
    object_id: ObjectId,
)
    ensures
        0 <= custom_sum(s, owner, coin_type, object_id) <= s.len() * 0x1_0000_0000_0000_0000,
    decreases s.len(),
{
    if s.len() > 0 {
        lemma_custom_sum_bound(s.drop_last(), owner, coin_type, object_id);
    }
}

/// The amount the per-object accumulator holds for a key; zero when the
/// key is absent.
pub open spec fn custom_acc_amount(
    s: Seq<CustomBalanceChange>,
    owner: Owner,
    coin_type: TypeTag,
    object_id: ObjectId,
) -> int
    decreases s.len(),
{
    if s.len() == 0 {
        0
    } else if s.last().owner == owner && s.last().coin_type == coin_type && s.last().object_id
        == object_id {
        s.last().amount as int
    } else {
        custom_acc_amount(s.drop_last(), owner, coin_type, object_id)
    }
}

/// Whether a key occurs among the accumulator entries.
pub open spec fn custom_key_present(
    s: Seq<CustomBalanceChange>,
    owner: Owner,
    coin_type: TypeTag,
    object_id: ObjectId,
) -> bool {
    exists|i: int|
        0 <= i < s.len() && (#[trigger] s[i]).owner == owner && s[i].coin_type == coin_type
            && s[i].object_id == object_id
}

/// No two entries share an `(owner, coin_type, object_id)` key.
pub open spec fn distinct_custom_keys(s: Seq<CustomBalanceChange>) -> bool {
    forall|i: int, j: int|
        0 <= i < j < s.len() ==> !((#[trigger] s[i]).owner == (#[trigger] s[j]).owner
            && s[i].coin_type == s[j].coin_type && s[i].object_id == s[j].object_id)
}

proof fn lemma_custom_acc_absent(
    s: Seq<CustomBalanceChange>,
    owner: Owner,
    coin_type: TypeTag,
    object_id: ObjectId,
)
    requires
        !custom_key_present(s, owner, coin_type, object_id),
    ensures
        custom_acc_amount(s, owner, coin_type, object_id) == 0,
    decreases s.len(),
{
    if s.len() > 0 {
        assert(forall|j: int| 0 <= j < s.drop_last().len() ==> (#[trigger] s.drop_last()[j]) == s[j]);
        assert(!custom_key_present(s.drop_last(), owner, coin_type, object_id)) by {
            if custom_key_present(s.drop_last(), owner, coin_type, object_id) {
                let j = choose|j: int|
                    0 <= j < s.drop_last().len() && (#[trigger] s.drop_last()[j]).owner == owner
                        && s.drop_last()[j].coin_type == coin_type && s.drop_last()[j].object_id
                        == object_id;
                assert(s[j].owner == owner && s[j].coin_type == coin_type && s[j].object_id
                    == object_id);
            }
        }
        lemma_custom_acc_absent(s.drop_last(), owner, coin_type, object_id);
        assert(s[s.len() - 1] == s.last());
    }
}

/// In a distinct accumulator, each entry's amount is what the
/// accumulator holds for its key.
proof fn lemma_custom_acc_entry(s: Seq<CustomBalanceChange>, i: int)
    requires
        distinct_custom_keys(s),
        0 <= i < s.len(),
    ensures
        custom_acc_amount(s, s[i].owner, s[i].coin_type, s[i].object_id) == s[i].amount,
    decreases s.len(),
{
    if i == s.len() - 1 {
    } else {
        assert(forall|j: int| 0 <= j < s.drop_last().len() ==> (#[trigger] s.drop_last()[j]) == s[j]);
        lemma_custom_acc_entry(s.drop_last(), i);
    }
}

/// Replacing the entry at `i` by one of the same key changes only that
/// key's amount.
proof fn lemma_custom_acc_update(
    s: Seq<CustomBalanceChange>,
    i: int,
    v: CustomBalanceChange,
)
    requires
        distinct_custom_keys(s),
        0 <= i < s.len(),
        s[i].owner == v.owner,
        s[i].coin_type == v.coin_type,
        s[i].object_id == v.object_id,
    ensures
        distinct_custom_keys(s.update(i, v)),
        forall|o2: Owner, t2: TypeTag, d2: ObjectId|
            #[trigger] custom_acc_amount(s.update(i, v), o2, t2, d2) == if o2 == v.owner && t2
                == v.coin_type && d2 == v.object_id {
                v.amount as int
            } else {
                custom_acc_amount(s, o2, t2, d2)
            },
        forall|o2: Owner, t2: TypeTag, d2: ObjectId|
            #[trigger] custom_key_present(s.update(i, v), o2, t2, d2) == custom_key_present(
                s,
                o2,
                t2,
                d2,
            ),
    decreases s.len(),
{
    let u = s.update(i, v);
    assert(forall|j: int| 0 <= j < s.len() && j != i ==> (#[trigger] u[j]) == s[j]);
    assert(u[i] == v);
    assert forall|o2: Owner, t2: TypeTag, d2: ObjectId|
        #[trigger] custom_key_present(u, o2, t2, d2) == custom_key_present(s, o2, t2, d2) by {
        if custom_key_present(u, o2, t2, d2) {
            let j = choose|j: int|
                0 <= j < u.len() && (#[trigger] u[j]).owner == o2 && u[j].coin_type == t2
                    && u[j].object_id == d2;
            assert(s[j].owner == o2 && s[j].coin_type == t2 && s[j].object_id == d2);
        }
        if custom_key_present(s, o2, t2, d2) {
            let j = choose|j: int|
                0 <= j < s.len() && (#[trigger] s[j]).owner == o2 && s[j].coin_type == t2
                    && s[j].object_id == d2;
            assert(u[j].owner == o2 && u[j].coin_type == t2 && u[j].object_id == d2);
        }
    }
    if i == s.len() - 1 {
        assert(u.drop_last() =~= s.drop_last());
        assert(u.last() == v);
    } else {
        assert(forall|j: int|
            0 <= j < s.drop_last().len() ==> (#[trigger] s.drop_last()[j]) == s[j]);
        lemma_custom_acc_update(s.drop_last(), i, v);
        assert(u.drop_last() =~= s.drop_last().update(i, v));
        assert(u.last() == s.last());
        assert forall|o2: Owner, t2: TypeTag, d2: ObjectId|
            #[trigger] custom_acc_amount(u, o2, t2, d2) == if o2 == v.owner && t2 == v.coin_type
                && d2 == v.object_id {
                v.amount as int
            } else {
                custom_acc_amount(s, o2, t2, d2)
            } by {
            assert(custom_acc_amount(s.drop_last().update(i, v), o2, t2, d2) == if o2 == v.owner
                && t2 == v.coin_type && d2 == v.object_id {
                v.amount as int
            } else {
                custom_acc_amount(s.drop_last(), o2, t2, d2)
            });
            assert(custom_acc_amount(u.drop_last(), o2, t2, d2) == custom_acc_amount(
                s.drop_last().update(i, v),
                o2,
                t2,
                d2,
            ));
        }
    }
}

/// The per-object signed balance accumulator: one entry per
/// `(owner, coin_type, object_id)` key seen, in first-occurrence order.
struct CustomAcc {
    entries: Vec<CustomBalanceChange>,
}

impl CustomAcc {
    spec fn view(&self) -> Seq<CustomBalanceChange> {
        self.entries@
    }

    fn new() -> (r: Self)
        ensures
            r.view() =~= Seq::<CustomBalanceChange>::empty(),
            distinct_custom_keys(r.view()),
    {
        CustomAcc { entries: Vec::new() }
    }

    /// Adds `delta` to the amount held for the key, creating the entry
    /// when the key is new.
    fn add(&mut self, owner: Owner, coin_type: TypeTag, object_id: ObjectId, delta: i128)
        requires
            distinct_custom_keys(old(self).view()),
            -0x4000_0000_0000_0000_0000_0000_0000_0000 <= custom_acc_amount(
                old(self).view(),
                owner,
                coin_type,
                object_id,
            ) + delta <= 0x4000_0000_0000_0000_0000_0000_0000_0000,
        ensures
            distinct_custom_keys(final(self).view()),
            forall|o2: Owner, t2: TypeTag, d2: ObjectId|
                #[trigger] custom_acc_amount(final(self).view(), o2, t2, d2) == if o2 == owner
                    && t2 == coin_type && d2 == object_id {
                    custom_acc_amount(old(self).view(), owner, coin_type, object_id) + delta
                } else {
                    custom_acc_amount(old(self).view(), o2, t2, d2)
                },
            forall|o2: Owner, t2: TypeTag, d2: ObjectId|
                #[trigger] custom_key_present(final(self).view(), o2, t2, d2)
                    == (custom_key_present(old(self).view(), o2, t2, d2) || (o2 == owner && t2
                    == coin_type && d2 == object_id)),
    {
        let n = self.entries.len();
        let mut i: usize = 0;
        let mut found: Option<usize> = None;
        while i < n
            invariant
                n == self.entries@.len(),
                i <= n,
                *self == *old(self),
                match found {
                    Some(f) => f < i && self.entries@[f as int].owner == owner
                        && self.entries@[f as int].coin_type == coin_type
                        && self.entries@[f as int].object_id == object_id,
                    None => forall|j: int|
                        0 <= j < i ==> !((#[trigger] self.entries@[j]).owner == owner
                            && self.entries@[j].coin_type == coin_type
                            && self.entries@[j].object_id == object_id),
                },
            decreases n - i,
        {
            if found.is_none() && self.entries[i].owner == owner && self.entries[i].coin_type
                == coin_type && self.entries[i].object_id == object_id {
                found = Some(i);
            }
            i = i + 1;
        }
        match found {
            Some(f) => {
                proof {
                    lemma_custom_acc_entry(self.entries@, f as int);
                }
                let old_amount = self.entries[f].amount;
                let updated = CustomBalanceChange {
                    owner,
                    coin_type,
                    amount: old_amount + delta,
                    object_id,
                };
                let ghost pre = self.entries@;
                self.entries.set(f, updated);
                proof {
                    lemma_custom_acc_update(pre, f as int, updated);
                    assert forall|o2: Owner, t2: TypeTag, d2: ObjectId|
                        #[trigger] custom_key_present(self.entries@, o2, t2, d2)
                            == (custom_key_present(pre, o2, t2, d2) || (o2 == owner && t2
                            == coin_type && d2 == object_id)) by {
                        if o2 == owner && t2 == coin_type && d2 == object_id {
                            assert(pre[f as int].owner == o2 && pre[f as int].coin_type == t2
                                && pre[f as int].object_id == d2);
                            assert(custom_key_present(pre, o2, t2, d2));
                        }
                    }
                }
            },
            None => {
                proof {
                    assert(!custom_key_present(self.entries@, owner, coin_type, object_id));
                    lemma_custom_acc_absent(self.entries@, owner, coin_type, object_id);
                }
                let ghost pre = self.entries@;
                self.entries.push(CustomBalanceChange { owner, coin_type, amount: delta, object_id });
                proof {
                    assert(self.entries@.drop_last() =~= pre);
                    assert(self.entries@.last() == (CustomBalanceChange {
                        owner,
                        coin_type,
                        amount: delta,
                        object_id,
                    }));
                    assert forall|o2: Owner, t2: TypeTag, d2: ObjectId|
                        #[trigger] custom_key_present(self.entries@, o2, t2, d2)
                            == (custom_key_present(pre, o2, t2, d2) || (o2 == owner && t2
                            == coin_type && d2 == object_id)) by {
                        let u = self.entries@;
                        if custom_key_present(u, o2, t2, d2) {
                            let j = choose|j: int|
                                0 <= j < u.len() && (#[trigger] u[j]).owner == o2 && u[j].coin_type
                                    == t2 && u[j].object_id == d2;
                            if j < u.len() - 1 {
                                assert(pre[j].owner == o2 && pre[j].coin_type == t2
                                    && pre[j].object_id == d2);
                            }
                        }
                        if custom_key_present(pre, o2, t2, d2) {
                            let j = choose|j: int|
                                0 <= j < pre.len() && (#[trigger] pre[j]).owner == o2
                                    && pre[j].coin_type == t2 && pre[j].object_id == d2;
                            assert(u[j].owner == o2 && u[j].coin_type == t2 && u[j].object_id
                                == d2);
                        }
                        if o2 == owner && t2 == coin_type && d2 == object_id {
                            assert(u[u.len() - 1].owner == o2 && u[u.len() - 1].coin_type == t2
                                && u[u.len() - 1].object_id == d2);
                        }
                    }
                    assert(distinct_custom_keys(self.entries@)) by {
                        assert(forall|j: int| 0 <= j < pre.len() ==> (#[trigger] self.entries@[j])
                            == pre[j]);
                    }
                }
            },
        }
    }
}

/// Exactness of a per-object balance-change list against the fetched
/// coins: each record carries the net movement of its key, every key that
/// occurs among the coins is recorded, no key is recorded twice, and
/// nothing else is. The order of the records is left open; records of a
/// zero net movement are kept.
pub open spec fn custom_changes_ok(
    out: Seq<CustomBalanceChange>,
    ins: Seq<FetchedCoin>,
    outs: Seq<FetchedCoin>,
) -> bool {
    &&& forall|i: int|
        0 <= i < out.len() ==> (#[trigger] out[i]).amount == custom_delta(
            ins,
            outs,
            out[i].owner,
            out[i].coin_type,
            out[i].object_id,
        )
    &&& forall|i: int|
        0 <= i < out.len() ==> key_appears(
            ins,
            (#[trigger] out[i]).owner,
            out[i].coin_type,
            out[i].object_id,
        ) || key_appears(outs, out[i].owner, out[i].coin_type, out[i].object_id)
    &&& forall|owner: Owner, coin_type: TypeTag, object_id: ObjectId| #![auto]
        key_appears(ins, owner, coin_type, object_id) || key_appears(
            outs,
            owner,
            coin_type,
            object_id,
        ) ==> custom_key_present(out, owner, coin_type, object_id)
    &&& distinct_custom_keys(out)
}

/// What the per-object balance-change engine must return.
pub open spec fn custom_result_ok<E>(
    m: Map<(ObjectId, u64), ObjectView>,
    ins_entries: Seq<ObjectLookup>,
    outs_entries: Seq<ObjectLookup>,
    r: Result<Vec<CustomBalanceChange>, EngineError<E>>,
) -> bool {
    match first_flaw(m, ins_entries, 0) {
        Some(f) => flaw_err(f, r),
        None => match first_flaw(m, outs_entries, 0) {
            Some(f) => flaw_err(f, r),
            None => r matches Ok(v) && custom_changes_ok(
                v@,
                coins_from(m, ins_entries, 0),
                coins_from(m, outs_entries, 0),
            ),
        },
    }
}

/// Computes the per-object signed balance changes of one transaction:
/// the same accumulation as the balance-change engine, keyed by
/// `(owner, coin_type, object_id)`, with one record per key seen.
pub fn custom_get_balance_changes<P: ObjectProvider>(
    provider: &mut P,
    modified_at_version: &Vec<ObjectLookup>,
    all_mutated: &Vec<ObjectLookup>,
) -> (r: Result<Vec<CustomBalanceChange>, EngineError<P::Error>>)
    requires
        provider_wf(old(provider)),
        modified_at_version@.len() + all_mutated@.len() <= 0x1000_0000_0000_0000,
    ensures
        provider_wf(final(provider)),
        final(provider).known() == old(provider).known(),
        forall|id2: ObjectId, v2: u64| #[trigger]
            final(provider).le_answer(id2, v2) == old(provider).le_answer(id2, v2),
        custom_result_ok(old(provider).known(), modified_at_version@, all_mutated@, r),
{
    let ghost m = old(provider).known();
    let in_coins = match fetch_coins(provider, modified_at_version) {
        Ok(v) => v,
        Err(e) => {
            return Err(e);
        },
    };
    let out_coins = match fetch_coins(provider, all_mutated) {
        Ok(v) => v,
        Err(e) => {
            return Err(e);
        },
    };
    proof {
        crate::balance::lemma_coins_from_len(m, modified_at_version@, 0);
        crate::balance::lemma_coins_from_len(m, all_mutated@, 0);
    }
    let ghost ins = in_coins@;
    let ghost outs = out_coins@;
    let mut acc = CustomAcc::new();

    let n_in = in_coins.len();
    let mut i: usize = 0;
    while i < n_in
        invariant
            n_in == ins.len(),
            ins.len() <= 0x1000_0000_0000_0000,
            i <= n_in,
            in_coins@ == ins,
            distinct_custom_keys(acc.view()),
            forall|o2: Owner, t2: TypeTag, d2: ObjectId|
                #[trigger] custom_acc_amount(acc.view(), o2, t2, d2) == -custom_sum(
                    ins.take(i as int),
                    o2,
                    t2,
                    d2,
                ),
            forall|o2: Owner, t2: TypeTag, d2: ObjectId|
                #[trigger] custom_key_present(acc.view(), o2, t2, d2) == key_appears(
                    ins.take(i as int),
                    o2,
                    t2,
                    d2,
                ),
        decreases n_in - i,
    {
        let c = in_coins[i];
        proof {
            lemma_custom_sum_bound(ins.take(i as int), c.owner, c.coin_type, c.object_id);
            assert(ins.take(i + 1).drop_last() =~= ins.take(i as int));
            assert(ins.take(i + 1).last() == ins[i as int]);
            assert forall|o2: Owner, t2: TypeTag, d2: ObjectId| #[trigger]
                custom_sum(ins.take(i + 1), o2, t2, d2) == custom_sum(ins.take(i as int), o2, t2, d2)
                + if ins[i as int].owner == o2 && ins[i as int].coin_type == t2
                    && ins[i as int].object_id == d2 {
                    ins[i as int].balance as int
                } else {
                    0
                } by {}
            assert forall|o2: Owner, t2: TypeTag, d2: ObjectId| #[trigger]
                key_appears(ins.take(i + 1), o2, t2, d2) == (key_appears(
                    ins.take(i as int),
                    o2,
                    t2,
                    d2,
                ) || (ins[i as int].owner == o2 && ins[i as int].coin_type == t2
                    && ins[i as int].object_id == d2)) by {
                let u = ins.take(i + 1);
                let pre = ins.take(i as int);
                if key_appears(u, o2, t2, d2) {
                    let j = choose|j: int|
                        0 <= j < u.len() && (#[trigger] u[j]).owner == o2 && u[j].coin_type == t2
                            && u[j].object_id == d2;
                    if j < u.len() - 1 {
                        assert(pre[j].owner == o2 && pre[j].coin_type == t2 && pre[j].object_id
                            == d2);
                    }
                }
                if key_appears(pre, o2, t2, d2) {
                    let j = choose|j: int|
                        0 <= j < pre.len() && (#[trigger] pre[j]).owner == o2 && pre[j].coin_type
                            == t2 && pre[j].object_id == d2;
                    assert(u[j].owner == o2 && u[j].coin_type == t2 && u[j].object_id == d2);
                }
                if ins[i as int].owner == o2 && ins[i as int].coin_type == t2
                    && ins[i as int].object_id == d2 {
                    assert(u[u.len() - 1].owner == o2 && u[u.len() - 1].coin_type == t2
                        && u[u.len() - 1].object_id == d2);
                }
            }
        }
        proof {
            assert(custom_acc_amount(acc.view(), c.owner, c.coin_type, c.object_id) == -custom_sum(
                ins.take(i as int),
                c.owner,
                c.coin_type,
                c.object_id,
            ));
            assert(ins.take(i as int).len() == i as int);
            assert((i as int) * 0x1_0000_0000_0000_0000 <= 0x1000_0000_0000_0000
                * 0x1_0000_0000_0000_0000) by (nonlinear_arith)
                requires
                    0 <= i as int <= 0x1000_0000_0000_0000,
            ;
        }
        acc.add(c.owner, c.coin_type, c.object_id, -(c.balance as i128));
        i = i + 1;
    }
    proof {
        assert(ins.take(n_in as int) =~= ins);
    }

    let n_out = out_coins.len();
    let mut j: usize = 0;
    while j < n_out
        invariant
            n_out == outs.len(),
            ins.len() <= 0x1000_0000_0000_0000,
            outs.len() <= 0x1000_0000_0000_0000,
            j <= n_out,
            out_coins@ == outs,
            distinct_custom_keys(acc.view()),
            forall|o2: Owner, t2: TypeTag, d2: ObjectId|
                #[trigger] custom_acc_amount(acc.view(), o2, t2, d2) == custom_sum(
                    outs.take(j as int),
                    o2,
                    t2,
                    d2,
                ) - custom_sum(ins, o2, t2, d2),
            forall|o2: Owner, t2: TypeTag, d2: ObjectId|
                #[trigger] custom_key_present(acc.view(), o2, t2, d2) == (key_appears(
                    ins,
                    o2,
                    t2,
                    d2,
                ) || key_appears(outs.take(j as int), o2, t2, d2)),
        decreases n_out - j,
    {
        let c = out_coins[j];
        proof {
            lemma_custom_sum_bound(outs.take(j as int), c.owner, c.coin_type, c.object_id);
            lemma_custom_sum_bound(ins, c.owner, c.coin_type, c.object_id);
            assert(outs.take(j + 1).drop_last() =~= outs.take(j as int));
            assert(outs.take(j + 1).last() == outs[j as int]);
            assert forall|o2: Owner, t2: TypeTag, d2: ObjectId| #[trigger]
                custom_sum(outs.take(j + 1), o2, t2, d2) == custom_sum(
                    outs.take(j as int),
                    o2,
                    t2,
                    d2,
                ) + if outs[j as int].owner == o2 && outs[j as int].coin_type == t2
                    && outs[j as int].object_id == d2 {
                    outs[j as int].balance as int
                } else {
                    0
                } by {}
            assert forall|o2: Owner, t2: TypeTag, d2: ObjectId| #[trigger]
                key_appears(outs.take(j + 1), o2, t2, d2) == (key_appears(
                    outs.take(j as int),
                    o2,
                    t2,
                    d2,
                ) || (outs[j as int].owner == o2 && outs[j as int].coin_type == t2
                    && outs[j as int].object_id == d2)) by {
                let u = outs.take(j + 1);
                let pre = outs.take(j as int);
                if key_appears(u, o2, t2, d2) {
                    let j2 = choose|j2: int|
                        0 <= j2 < u.len() && (#[trigger] u[j2]).owner == o2 && u[j2].coin_type
                            == t2 && u[j2].object_id == d2;
                    if j2 < u.len() - 1 {
                        assert(pre[j2].owner == o2 && pre[j2].coin_type == t2 && pre[j2].object_id
                            == d2);
                    }
                }
                if key_appears(pre, o2, t2, d2) {
                    let j2 = choose|j2: int|
                        0 <= j2 < pre.len() && (#[trigger] pre[j2]).owner == o2 && pre[j2].coin_type
                            == t2 && pre[j2].object_id == d2;
                    assert(u[j2].owner == o2 && u[j2].coin_type == t2 && u[j2].object_id == d2);
                }
                if outs[j as int].owner == o2 && outs[j as int].coin_type == t2
                    && outs[j as int].object_id == d2 {
                    assert(u[u.len() - 1].owner == o2 && u[u.len() - 1].coin_type == t2
                        && u[u.len() - 1].object_id == d2);
                }
            }
        }
        proof {
            assert(custom_acc_amount(acc.view(), c.owner, c.coin_type, c.object_id) == custom_sum(
                outs.take(j as int),
                c.owner,
                c.coin_type,
                c.object_id,
            ) - custom_sum(ins, c.owner, c.coin_type, c.object_id));
            assert(outs.take(j as int).len() == j as int);
            assert((j as int) * 0x1_0000_0000_0000_0000 <= 0x1000_0000_0000_0000
                * 0x1_0000_0000_0000_0000) by (nonlinear_arith)
                requires
                    0 <= j as int <= 0x1000_0000_0000_0000,
            ;
            assert(ins.len() * 0x1_0000_0000_0000_0000 <= 0x1000_0000_0000_0000
                * 0x1_0000_0000_0000_0000) by (nonlinear_arith)
                requires
                    0 <= ins.len() <= 0x1000_0000_0000_0000,
            ;
        }
        acc.add(c.owner, c.coin_type, c.object_id, c.balance as i128);
        j = j + 1;
    }
    let ghost fa = acc.view();
    let result = acc.entries;
    proof {
        assert(result@ == fa);
        assert(outs.take(n_out as int) =~= outs);
        assert forall|i2: int|
            0 <= i2 < fa.len() implies (#[trigger] fa[i2]).amount == custom_delta(
            ins,
            outs,
            fa[i2].owner,
            fa[i2].coin_type,
            fa[i2].object_id,
        ) by {
            lemma_custom_acc_entry(fa, i2);
        }
        assert forall|i2: int|
            0 <= i2 < fa.len() implies key_appears(
            ins,
            (#[trigger] fa[i2]).owner,
            fa[i2].coin_type,
            fa[i2].object_id,
        ) || key_appears(outs, fa[i2].owner, fa[i2].coin_type, fa[i2].object_id) by {
            let e = fa[i2];
            assert(custom_key_present(fa, e.owner, e.coin_type, e.object_id));
        }
        assert forall|owner: Owner, coin_type: TypeTag, object_id: ObjectId|
            #[trigger] key_appears(ins, owner, coin_type, object_id) || #[trigger] key_appears(
            outs,
            owner,
            coin_type,
            object_id,
        ) implies custom_key_present(fa, owner, coin_type, object_id) by {}
        assert(custom_changes_ok(fa, ins, outs));
    }
    Ok(result)
}

/// The owner an association list records for `id`, if any; later entries
/// win.
pub open spec fn owner_lookup(s: Seq<(ObjectId, Owner)>, id: ObjectId) -> Option<Owner>
    decreases s.len(),
{
    if s.len() == 0 {
        None
    } else if s.last().0 == id {
        Some(s.last().1)
    } else {
        owner_lookup(s.drop_last(), id)
    }
}

/// The status an association list records for `id`, if any; later
/// entries win.
pub open spec fn status_lookup(s: Seq<(ObjectId, ObjectStatus)>, id: ObjectId) -> Option<
    ObjectStatus,
>
    decreases s.len(),
{
    if s.len() == 0 {
        None
    } else if s.last().0 == id {
        Some(s.last().1)
    } else {
        status_lookup(s.drop_last(), id)
    }
}

/// How a per-object balance change is classified: an object whose
/// pre-transaction owner differs from the record's owner arrived at a new
/// owner (Created); one whose post-transaction owner differs departed
/// (Deleted); otherwise the caller-supplied status map decides, and an
/// absent entry is the caller's fault, reported by the object's identity.
pub open spec fn classify_key(
    owner: Owner,
    id: ObjectId,
    input_owners: Seq<(ObjectId, Owner)>,
    output_owners: Seq<(ObjectId, Owner)>,
    statuses: Seq<(ObjectId, ObjectStatus)>,
) -> Result<ObjectStatus, ObjectId> {
    match owner_lookup(input_owners, id) {
        Some(o) if o != owner => Ok(ObjectStatus::Created),
        _ => match owner_lookup(output_owners, id) {
            Some(o) if o != owner => Ok(ObjectStatus::Deleted),
            _ => match status_lookup(statuses, id) {
                Some(st) => Ok(st),
                None => Err(id),
            },
        },
    }
}

/// The gas record of a failed transaction: the whole net gas usage,
/// charged negatively in the gas currency, attributed to the gas object
/// as a mutation.
pub open spec fn failure_gas_status_record(
    gas_owner: Owner,
    net_gas_usage: i64,
    gas_id: ObjectId,
) -> BalanceChangeWithStatus {
    BalanceChangeWithStatus {
        owner: gas_owner,
        coin_type: TypeTag::Gas,
        amount: (-(net_gas_usage as int)) as i128,
        object_id: gas_id,
        status: ObjectStatus::Mutated,
    }
}

/// The synthetic record closing a successful transaction: the net gas
/// usage under the out-of-band gas-charge marker, attributed to the gas
/// object as a mutation.
pub open spec fn success_gas_record(
    gas_owner: Owner,
    net_gas_usage: i64,
    gas_id: ObjectId,
) -> BalanceChangeWithStatus {
    BalanceChangeWithStatus {
        owner: gas_owner,
        coin_type: TypeTag::GasCharge,
        amount: net_gas_usage as i128,
        object_id: gas_id,
        status: ObjectStatus::Mutated,
    }
}

/// Whether a per-object key occurs among the classified records.
pub open spec fn status_key_present(
    s: Seq<BalanceChangeWithStatus>,
    owner: Owner,
    coin_type: TypeTag,
    object_id: ObjectId,
) -> bool {
    exists|i: int|
        0 <= i < s.len() && (#[trigger] s[i]).owner == owner && s[i].coin_type == coin_type
            && s[i].object_id == object_id
}

/// Exactness of the classified records against the fetched coins and the
/// caller's maps: every record carries its key's net movement and its
/// classified status, every key occurring among the coins is recorded,
/// and no key twice. The order is left open.
pub open spec fn status_records_ok(
    w: Seq<BalanceChangeWithStatus>,
    ins: Seq<FetchedCoin>,
    outs: Seq<FetchedCoin>,
    input_owners: Seq<(ObjectId, Owner)>,
    output_owners: Seq<(ObjectId, Owner)>,
    statuses: Seq<(ObjectId, ObjectStatus)>,
) -> bool {
    &&& forall|i: int|
        0 <= i < w.len() ==> (#[trigger] w[i]).amount == custom_delta(
            ins,
            outs,
            w[i].owner,
            w[i].coin_type,
            w[i].object_id,
        )
    &&& forall|i: int|
        0 <= i < w.len() ==> key_appears(
            ins,
            (#[trigger] w[i]).owner,
            w[i].coin_type,
            w[i].object_id,
        ) || key_appears(outs, w[i].owner, w[i].coin_type, w[i].object_id)
    &&& forall|i: int|
        0 <= i < w.len() ==> classify_key(
            (#[trigger] w[i]).owner,
            w[i].object_id,
            input_owners,
            output_owners,
            statuses,
        ) == Ok::<ObjectStatus, ObjectId>(w[i].status)
    &&& forall|owner: Owner, coin_type: TypeTag, object_id: ObjectId| #![auto]
        key_appears(ins, owner, coin_type, object_id) || key_appears(
            outs,
            owner,
            coin_type,
            object_id,
        ) ==> status_key_present(w, owner, coin_type, object_id)
    &&& forall|i: int, j: int|
        0 <= i < j < w.len() ==> !((#[trigger] w[i]).owner == (#[trigger] w[j]).owner
            && w[i].coin_type == w[j].coin_type && w[i].object_id == w[j].object_id)
}

/// What the status-classifying engine must return, after the flaw cases
/// of fetching are ruled out: classified records closed by the gas
/// record; a missing status reported as such, for a key that occurs; and
/// success owed whenever every occurring key classifies.
pub open spec fn with_status_result_ok<E>(
    m: Map<(ObjectId, u64), ObjectView>,
    ins_entries: Seq<ObjectLookup>,
    outs_entries: Seq<ObjectLookup>,
    input_owners: Seq<(ObjectId, Owner)>,
    output_owners: Seq<(ObjectId, Owner)>,
    statuses: Seq<(ObjectId, ObjectStatus)>,
    gas_owner: Owner,
    net_gas_usage: i64,
    gas_id: ObjectId,
    r: Result<Vec<BalanceChangeWithStatus>, EngineError<E>>,
) -> bool {
    match first_flaw(m, ins_entries, 0) {
        Some(f) => flaw_err(f, r),
        None => match first_flaw(m, outs_entries, 0) {
            Some(f) => flaw_err(f, r),
            None => {
                let ins = coins_from(m, ins_entries, 0);
                let outs = coins_from(m, outs_entries, 0);
                &&& (r matches Ok(v) ==> v@.len() >= 1 && v@.last() == success_gas_record(
                    gas_owner,
                    net_gas_usage,
                    gas_id,
                ) && status_records_ok(
                    v@.drop_last(),
                    ins,
                    outs,
                    input_owners,
                    output_owners,
                    statuses,
                ))
                &&& (r matches Err(e) ==> e matches EngineError::MissingStatus { id }
                    && classify_key_missing(ins, outs, input_owners, output_owners, statuses, id))
                &&& ((forall|owner: Owner, coin_type: TypeTag, object_id: ObjectId| #![auto]
                    key_appears(ins, owner, coin_type, object_id) || key_appears(
                        outs,
                        owner,
                        coin_type,
                        object_id,
                    ) ==> classify_key(
                        owner,
                        object_id,
                        input_owners,
                        output_owners,
                        statuses,
                    ) is Ok) ==> r is Ok)
            },
        },
    }
}

/// Whether some key occurring among the coins carries the identity `id`
/// and fails classification.
pub open spec fn classify_key_missing(
    ins: Seq<FetchedCoin>,
    outs: Seq<FetchedCoin>,
    input_owners: Seq<(ObjectId, Owner)>,
    output_owners: Seq<(ObjectId, Owner)>,
    statuses: Seq<(ObjectId, ObjectStatus)>,
    id: ObjectId,
) -> bool {
    exists|owner: Owner, coin_type: TypeTag| #![auto]
        (key_appears(ins, owner, coin_type, id) || key_appears(outs, owner, coin_type, id))
            && classify_key(owner, id, input_owners, output_owners, statuses) == Err::<
            ObjectStatus,
            ObjectId,
        >(id)
}

/// Finds the owner an association list records for `id`.
fn find_owner(s: &Vec<(ObjectId, Owner)>, id: &ObjectId) -> (r: Option<Owner>)
    ensures
        r == owner_lookup(s@, *id),
{
    let n = s.len();
    let mut r: Option<Owner> = None;
    let mut i: usize = 0;
    while i < n
        invariant
            n == s@.len(),
            i <= n,
            r == owner_lookup(s@.take(i as int), *id),
        decreases n - i,
    {
        proof {
            assert(s@.take(i + 1).drop_last() =~= s@.take(i as int));
            assert(s@.take(i + 1).last() == s@[i as int]);
        }
        if s[i].0 == *id {
            r = Some(s[i].1);
        }
        i = i + 1;
    }
    proof {
        assert(s@.take(n as int) =~= s@);
    }
    r
}

/// Finds the status an association list records for `id`.
fn find_status(s: &Vec<(ObjectId, ObjectStatus)>, id: &ObjectId) -> (r: Option<ObjectStatus>)
    ensures
        r == status_lookup(s@, *id),
{
    let n = s.len();
    let mut r: Option<ObjectStatus> = None;
    let mut i: usize = 0;
    while i < n
        invariant
            n == s@.len(),
            i <= n,
            r == status_lookup(s@.take(i as int), *id),
        decreases n - i,
    {
        proof {
            assert(s@.take(i + 1).drop_last() =~= s@.take(i as int));
            assert(s@.take(i + 1).last() == s@[i as int]);
        }
        if s[i].0 == *id {
            r = Some(s[i].1);
        }
        i = i + 1;
    }
    proof {
        assert(s@.take(n as int) =~= s@);
    }
    r
}

/// Classifies one per-object balance change against the owner and
/// status maps.
fn classify_record(
    bc: &CustomBalanceChange,
    input_owners: &Vec<(ObjectId, Owner)>,
    output_owners: &Vec<(ObjectId, Owner)>,
    statuses: &Vec<(ObjectId, ObjectStatus)>,
) -> (r: Result<ObjectStatus, ObjectId>)
    ensures
        r == classify_key(bc.owner, bc.object_id, input_owners@, output_owners@, statuses@),
{
    match find_owner(input_owners, &bc.object_id) {
        Some(o) if o != bc.owner => {
            return Ok(ObjectStatus::Created);
        },
        _ => {},
    }
    match find_owner(output_owners, &bc.object_id) {
        Some(o) if o != bc.owner => {
            return Ok(ObjectStatus::Deleted);
        },
        _ => {},
    }
    match find_status(statuses, &bc.object_id) {
        Some(st) => Ok(st),
        None => Err(bc.object_id),
    }
}

/// Computes the status-classified balance changes of one transaction
/// from its effects.
///
/// A failed transaction short-circuits into the single negative gas
/// record. Otherwise the per-object engine runs on the same filtered
/// lookups as the balance-change engine, each record is classified
/// against the pre- and post-transaction owner maps and the status map,
/// and the synthetic gas-charge record closes the list.
pub fn get_balance_changes_with_status_from_effect<P: ObjectProvider>(
    provider: &mut P,
    effects: &TransactionEffects,
    input_objs: &Vec<InputObjectKind>,
    mocked_coin: Option<ObjectId>,
    status_map: &Vec<(ObjectId, ObjectStatus)>,
    input_objects_to_owner: &Vec<(ObjectId, Owner)>,
    output_objects_to_owner: &Vec<(ObjectId, Owner)>,
) -> (r: Result<Vec<BalanceChangeWithStatus>, EngineError<P::Error>>)
    requires
        provider_wf(old(provider)),
        effects.modified_at_versions@.len() + effects.all_changed_objects@.len()
            <= 0x1000_0000_0000_0000,
    ensures
        provider_wf(final(provider)),
        final(provider).known() == old(provider).known(),
        forall|id2: ObjectId, v2: u64| #[trigger]
            final(provider).le_answer(id2, v2) == old(provider).le_answer(id2, v2),
        effects.status is Failure ==> (r matches Ok(v) && v@ == seq![
            failure_gas_status_record(
                effects.gas_owner,
                effects.net_gas_usage,
                effects.gas_object.id,
            ),
        ]),
        effects.status is Success ==> with_status_result_ok(
            old(provider).known(),
            input_lookups(
                effects.modified_at_versions@,
                mocked_coin,
                effects.unwrapped_then_deleted@,
                input_objs@,
            ),
            output_lookups(effects.all_changed_objects@, mocked_coin),
            input_objects_to_owner@,
            output_objects_to_owner@,
            status_map@,
            effects.gas_owner,
            effects.net_gas_usage,
            effects.gas_object.id,
            r,
        ),
{
    if matches!(effects.status, ExecutionStatus::Failure) {
        let amount: i128 = -(effects.net_gas_usage as i128);
        let mut v: Vec<BalanceChangeWithStatus> = Vec::new();
        v.push(
            BalanceChangeWithStatus {
                owner: effects.gas_owner,
                coin_type: TypeTag::Gas,
                amount,
                object_id: effects.gas_object.id,
                status: ObjectStatus::Mutated,
            },
        );
        proof {
            assert(v@ =~= seq![
                failure_gas_status_record(
                    effects.gas_owner,
                    effects.net_gas_usage,
                    effects.gas_object.id,
                ),
            ]);
        }
        return Ok(v);
    }

    let ghost m = old(provider).known();

    let outs_v = crate::balance::build_output_lookups(&effects.all_changed_objects, mocked_coin);
    let ins_v = crate::balance::build_input_lookups(
        &effects.modified_at_versions,
        mocked_coin,
        &effects.unwrapped_then_deleted,
        input_objs,
    );
    proof {
        crate::balance::lemma_input_lookups_len(
            effects.modified_at_versions@,
            mocked_coin,
            effects.unwrapped_then_deleted@,
            input_objs@,
        );
        crate::balance::lemma_output_lookups_len(effects.all_changed_objects@, mocked_coin);
    }

    let ghost ins = coins_from(m, ins_v@, 0);
    let ghost outs = coins_from(m, outs_v@, 0);
    let records = match custom_get_balance_changes(provider, &ins_v, &outs_v) {
        Ok(v) => v,
        Err(e) => {
            return Err(e);
        },
    };

    let n_rec = records.len();
    let mut out: Vec<BalanceChangeWithStatus> = Vec::new();
    let mut k: usize = 0;
    while k < n_rec
        invariant
            provider_wf(&*provider),
            m == old(provider).known(),
            provider.known() == m,
            forall|id2: ObjectId, v2: u64| #[trigger]
                provider.le_answer(id2, v2) == old(provider).le_answer(id2, v2),
            effects.status is Success,
            ins_v@ == input_lookups(
                effects.modified_at_versions@,
                mocked_coin,
                effects.unwrapped_then_deleted@,
                input_objs@,
            ),
            outs_v@ == output_lookups(effects.all_changed_objects@, mocked_coin),
            first_flaw(m, ins_v@, 0) is None,
            first_flaw(m, outs_v@, 0) is None,
            ins == coins_from(m, ins_v@, 0),
            outs == coins_from(m, outs_v@, 0),
            n_rec == records@.len(),
            k <= n_rec,
            custom_changes_ok(records@, ins, outs),
            out@.len() == k,
            forall|k2: int|
                0 <= k2 < k ==> (#[trigger] out@[k2]).owner == records@[k2].owner
                    && out@[k2].coin_type == records@[k2].coin_type && out@[k2].object_id
                    == records@[k2].object_id && out@[k2].amount == records@[k2].amount
                    && classify_key(
                    records@[k2].owner,
                    records@[k2].object_id,
                    input_objects_to_owner@,
                    output_objects_to_owner@,
                    status_map@,
                ) == Ok::<ObjectStatus, ObjectId>(out@[k2].status),
        decreases n_rec - k,
    {
        let bc = records[k];
        match classify_record(&bc, input_objects_to_owner, output_objects_to_owner, status_map) {
            Ok(st) => {
                out.push(
                    BalanceChangeWithStatus {
                        owner: bc.owner,
                        coin_type: bc.coin_type,
                        amount: bc.amount,
                        object_id: bc.object_id,
                        status: st,
                    },
                );
            },
            Err(id) => {
                proof {
                    assert(key_appears(ins, bc.owner, bc.coin_type, bc.object_id) || key_appears(
                        outs,
                        bc.owner,
                        bc.coin_type,
                        bc.object_id,
                    ));
                    assert(classify_key_missing(
                        ins,
                        outs,
                        input_objects_to_owner@,
                        output_objects_to_owner@,
                        status_map@,
                        id,
                    ));
                }
                return Err(EngineError::MissingStatus { id });
            },
        }
        k = k + 1;
    }
    proof {
        let w = out@;
        assert(custom_changes_ok(records@, ins, outs));
        assert forall|i2: int|
            0 <= i2 < w.len() implies (#[trigger] w[i2]).amount == custom_delta(
            ins,
            outs,
            w[i2].owner,
            w[i2].coin_type,
            w[i2].object_id,
        ) by {
            assert(records@[i2].amount == custom_delta(
                ins,
                outs,
                records@[i2].owner,
                records@[i2].coin_type,
                records@[i2].object_id,
            ));
        }
        assert forall|i2: int|
            0 <= i2 < w.len() implies key_appears(
            ins,
            (#[trigger] w[i2]).owner,
            w[i2].coin_type,
            w[i2].object_id,
        ) || key_appears(outs, w[i2].owner, w[i2].coin_type, w[i2].object_id) by {
            assert(key_appears(
                ins,
                records@[i2].owner,
                records@[i2].coin_type,
                records@[i2].object_id,
            ) || key_appears(
                outs,
                records@[i2].owner,
                records@[i2].coin_type,
                records@[i2].object_id,
            ));
        }
        assert forall|i2: int, j2: int|
            0 <= i2 < j2 < w.len() implies !((#[trigger] w[i2]).owner == (#[trigger] w[j2]).owner
            && w[i2].coin_type == w[j2].coin_type && w[i2].object_id == w[j2].object_id) by {
            assert(!(records@[i2].owner == records@[j2].owner && records@[i2].coin_type
                == records@[j2].coin_type && records@[i2].object_id == records@[j2].object_id));
        }
        assert forall|i2: int|
            0 <= i2 < w.len() implies classify_key(
            (#[trigger] w[i2]).owner,
            w[i2].object_id,
            input_objects_to_owner@,
            output_objects_to_owner@,
            status_map@,
        ) == Ok::<ObjectStatus, ObjectId>(w[i2].status) by {
            assert(w[i2].owner == records@[i2].owner && w[i2].object_id == records@[i2].object_id);
        }
        assert forall|owner: Owner, coin_type: TypeTag, object_id: ObjectId| #![auto]
            key_appears(ins, owner, coin_type, object_id) || key_appears(
            outs,
            owner,
            coin_type,
            object_id,
        ) implies status_key_present(w, owner, coin_type, object_id) by {
            assert(key_appears(ins, owner, coin_type, object_id) || key_appears(
                outs,
                owner,
                coin_type,
                object_id,
            ));
            assert(custom_changes_ok(records@, ins, outs));
            assert(custom_key_present(records@, owner, coin_type, object_id));
            let k2 = choose|k2: int|
                0 <= k2 < records@.len() && (#[trigger] records@[k2]).owner == owner
                    && records@[k2].coin_type == coin_type && records@[k2].object_id == object_id;
            assert(w[k2].owner == owner && w[k2].coin_type == coin_type && w[k2].object_id
                == object_id);
        }
        assert(status_records_ok(
            w,
            ins,
            outs,
            input_objects_to_owner@,
            output_objects_to_owner@,
            status_map@,
        ));
    }
    let ghost w_final = out@;
    out.push(
        BalanceChangeWithStatus {
            owner: effects.gas_owner,
            coin_type: TypeTag::GasCharge,
            amount: effects.net_gas_usage as i128,
            object_id: effects.gas_object.id,
            status: ObjectStatus::Mutated,
        },
    );
    proof {
        assert(out@.last() == success_gas_record(
            effects.gas_owner,
            effects.net_gas_usage,
            effects.gas_object.id,
        ));
        assert(out@.drop_last() =~= w_final);
    }
    Ok(out)
}

} // verus!
//! The balance-change engine: signed per-owner, per-currency deltas of a
//! transaction, computed by subtracting every input coin and adding every
//! output coin.

use crate::coin::extract_coin_spec;
use crate::provider::{provider_wf, ObjectProvider};
use crate::types::{
    BalanceChange, ChangedObject, CoinError, EngineError, ExecutionStatus, InputObjectKind,
    ObjectDigest, ObjectId, ObjectLookup, ObjectRef, ObjectView, Owner, TransactionEffects,
    TypeTag,
};
use vstd::pervasive::VecAdditionalExecFns;
use vstd::prelude::*;

verus! {

/// A coin fetched while accumulating balance changes, together with the
/// identity of the object that carried it.
#[derive(Clone, Copy, Debug, PartialEq, Eq, Structural, Hash)]
pub struct FetchedCoin {
    pub owner: Owner,
    pub coin_type: TypeTag,
    pub object_id: ObjectId,
    pub balance: u64,
}

/// A fault hit while fetching the coins of a lookup list.
#[derive(Clone, Copy, Debug, PartialEq, Eq, Structural, Hash)]
pub enum FetchFlaw {
    /// The provider does not know the requested version.
    NotFound { id: ObjectId, version: u64 },
    /// The fetched object failed coin extraction.
    Coin(CoinError),
}

/// The fault one lookup runs into, if any.
pub open spec fn entry_flaw(
    m: Map<(ObjectId, u64), ObjectView>,
    e: ObjectLookup,
) -> Option<FetchFlaw> {
    if !m.contains_key((e.id, e.version)) {
        Some(FetchFlaw::NotFound { id: e.id, version: e.version })
    } else {
        match extract_coin_spec(m[(e.id, e.version)], e.digest) {
            Err(c) => Some(FetchFlaw::Coin(c)),
            Ok(_) => None,
        }
    }
}

/// The coin one lookup contributes, if any.
pub open spec fn entry_coin(
    m: Map<(ObjectId, u64), ObjectView>,
    e: ObjectLookup,
) -> Option<FetchedCoin> {
    if !m.contains_key((e.id, e.version)) {
        None
    } else {
        match extract_coin_spec(m[(e.id, e.version)], e.digest) {
            Ok(Some(c)) => Some(
                FetchedCoin {
                    owner: c.owner,
                    coin_type: c.coin_type,
                    object_id: m[(e.id, e.version)].id,
                    balance: c.balance,
                },
            ),
            _ => None,
        }
    }
}

/// The first fault of the lookups from position `i` on, if any.
pub open spec fn first_flaw(
    m: Map<(ObjectId, u64), ObjectView>,
    entries: Seq<ObjectLookup>,
    i: int,
) -> Option<FetchFlaw>
    decreases entries.len() - i,
{
    if i < 0 || i >= entries.len() {
        None
    } else {
        match entry_flaw(m, entries[i]) {
            Some(f) => Some(f),
            None => first_flaw(m, entries, i + 1),
        }
    }
}

/// The coins of the lookups from position `i` on, in order.
pub open spec fn coins_from(
    m: Map<(ObjectId, u64), ObjectView>,
    entries: Seq<ObjectLookup>,
    i: int,
) -> Seq<FetchedCoin>
    decreases entries.len() - i,
{
    if i < 0 || i >= entries.len() {
        Seq::empty()
    } else {
        match entry_coin(m, entries[i]) {
            Some(c) => seq![c] + coins_from(m, entries, i + 1),
            None => coins_from(m, entries, i + 1),
        }
    }
}

/// What the result of fetching coins must look like, given the provider's
/// memory: the coins of the list when no lookup faults, and the first
/// fault otherwise, mapped onto the engine's error.
pub open spec fn fetch_result_ok<E>(
    m: Map<(ObjectId, u64), ObjectView>,
    entries: Seq<ObjectLookup>,
    r: Result<Vec<FetchedCoin>, EngineError<E>>,
) -> bool {
    match first_flaw(m, entries, 0) {
        None => r matches Ok(v) && v@ == coins_from(m, entries, 0),
        Some(f) => match f {
            FetchFlaw::NotFound { .. } => r matches Err(e) && e is Provider,
            FetchFlaw::Coin(c) => r matches Err(e) && e == EngineError::<E>::Coin(c),
        },
    }
}

/// Fetches each listed object and keeps the coins among them.
///
/// Fails on the first lookup the provider does not resolve, on the first
/// digest disagreement, and on the first declared coin whose payload does
/// not decode.
pub fn fetch_coins<P: ObjectProvider>(provider: &mut P, objects: &Vec<ObjectLookup>) -> (r: Result<
    Vec<FetchedCoin>,
    EngineError<P::Error>,
>)
    requires
        provider_wf(old(provider)),
    ensures
        provider_wf(final(provider)),
        final(provider).known() == old(provider).known(),
        forall|id2: ObjectId, v2: u64| #[trigger]
            final(provider).le_answer(id2, v2) == old(provider).le_answer(id2, v2),
        fetch_result_ok(old(provider).known(), objects@, r),
{
    let ghost m = old(provider).known();
    let mut out: Vec<FetchedCoin> = Vec::new();
    let n = objects.len();
    let mut i: usize = 0;
    while i < n
        invariant
            provider_wf(&*provider),
            m == old(provider).known(),
            provider.known() == m,
            forall|id2: ObjectId, v2: u64| #[trigger]
                provider.le_answer(id2, v2) == old(provider).le_answer(id2, v2),
            n == objects@.len(),
            i <= n,
            first_flaw(m, objects@, 0) == first_flaw(m, objects@, i as int),
            coins_from(m, objects@, 0) == out@ + coins_from(m, objects@, i as int),
        decreases n - i,
    {
        let e = objects[i];
        match provider.get_object(&e.id, e.version) {
            Err(pe) => {
                proof {
                    assert(!m.contains_key((e.id, e.version)));
                    assert(entry_flaw(m, objects@[i as int]) == Some(
                        FetchFlaw::NotFound { id: e.id, version: e.version },
                    ));
                }
                return Err(EngineError::Provider(pe));
            },
            Ok(o) => {
                proof {
                    assert(o@ == m[(e.id, e.version)]);
                }
                match o.extract_coin(e.digest) {
                    Err(c) => {
                        return Err(EngineError::Coin(c));
                    },
                    Ok(Some(cb)) => {
                        let fc = FetchedCoin {
                            owner: cb.owner,
                            coin_type: cb.coin_type,
                            object_id: o.id,
                            balance: cb.balance,
                        };
                        proof {
                            assert(entry_coin(m, objects@[i as int]) == Some(fc));
                            let rest = coins_from(m, objects@, i + 1);
                            assert(out@.push(fc) =~= out@ + seq![fc]);
                            assert((out@ + seq![fc]) + rest =~= out@ + (seq![fc] + rest));
                        }
                        out.push(fc);
                    },
                    Ok(None) => {
                    },
                }
            },
        }
        i = i + 1;
    }
    proof {
        assert(out@ + coins_from(m, objects@, n as int) =~= out@);
    }
    Ok(out)
}

/// Total balance the coins of `s` hold for `(owner, coin_type)`.
pub open spec fn balance_sum(s: Seq<FetchedCoin>, owner: Owner, coin_type: TypeTag) -> int
    decreases s.len(),
{
    if s.len() == 0 {
        0
    } else {
        balance_sum(s.drop_last(), owner, coin_type) + if s.last().owner == owner
            && s.last().coin_type == coin_type {
            s.last().balance as int
        } else {
            0
        }
    }
}

/// The net signed movement of a key: output coins minus input coins.
pub open spec fn balance_delta(
    ins: Seq<FetchedCoin>,
    outs: Seq<FetchedCoin>,
    owner: Owner,
    coin_type: TypeTag,
) -> int {
    balance_sum(outs, owner, coin_type) - balance_sum(ins, owner, coin_type)
}

proof fn lemma_balance_sum_bound(s: Seq<FetchedCoin>, owner: Owner, coin_type: TypeTag)
    ensures
        0 <= balance_sum(s, owner, coin_type) <= s.len() * 0x1_0000_0000_0000_0000,
    decreases s.len(),
{
    if s.len() > 0 {
        lemma_balance_sum_bound(s.drop_last(), owner, coin_type);
    }
}

/// The amount the accumulator holds for a key; zero when the key is
/// absent.
pub open spec fn acc_amount(s: Seq<BalanceChange>, owner: Owner, coin_type: TypeTag) -> int
    decreases s.len(),
{
    if s.len() == 0 {
        0
    } else if s.last().owner == owner && s.last().coin_type == coin_type {
        s.last().amount as int
    } else {
        acc_amount(s.drop_last(), owner, coin_type)
    }
}

/// No two entries share an `(owner, coin_type)` key.
pub open spec fn distinct_balance_keys(s: Seq<BalanceChange>) -> bool {
    forall|i: int, j: int|
        0 <= i < j < s.len() ==> !((#[trigger] s[i]).owner == (#[trigger] s[j]).owner
            && s[i].coin_type == s[j].coin_type)
}

proof fn lemma_acc_amount_absent(s: Seq<BalanceChange>, owner: Owner, coin_type: TypeTag)
    requires
        forall|i: int|
            0 <= i < s.len() ==> !((#[trigger] s[i]).owner == owner && s[i].coin_type == coin_type),
    ensures
        acc_amount(s, owner, coin_type) == 0,
    decreases s.len(),
{
    if s.len() > 0 {
        assert(forall|i: int| 0 <= i < s.drop_last().len() ==> (#[trigger] s.drop_last()[i]) == s[i]);
        lemma_acc_amount_absent(s.drop_last(), owner, coin_type);
    }
}

/// In a distinct accumulator, each entry's amount is what the accumulator
/// holds for its key.
proof fn lemma_acc_entry(s: Seq<BalanceChange>, i: int)
    requires
        distinct_balance_keys(s),
        0 <= i < s.len(),
    ensures
        acc_amount(s, s[i].owner, s[i].coin_type) == s[i].amount,
    decreases s.len(),
{
    if i == s.len() - 1 {
    } else {
        assert(forall|j: int| 0 <= j < s.drop_last().len() ==> (#[trigger] s.drop_last()[j]) == s[j]);
        lemma_acc_entry(s.drop_last(), i);
    }
}

/// The signed balance accumulator: one entry per `(owner, coin_type)` key
/// seen, in first-occurrence order.
struct BalanceAcc {
    entries: Vec<BalanceChange>,
}

impl BalanceAcc {
    spec fn view(&self) -> Seq<BalanceChange> {
        self.entries@
    }

    fn new() -> (r: Self)
        ensures
            r.view() =~= Seq::<BalanceChange>::empty(),
            distinct_balance_keys(r.view()),
    {
        BalanceAcc { entries: Vec::new() }
    }

    /// Adds `delta` to the amount held for `(owner, coin_type)`, creating
    /// the entry when the key is new.
    fn add(&mut self, owner: Owner, coin_type: TypeTag, delta: i128)
        requires
            distinct_balance_keys(old(self).view()),
            -0x4000_0000_0000_0000_0000_0000_0000_0000 <= acc_amount(
                old(self).view(),
                owner,
                coin_type,
            ) + delta <= 0x4000_0000_0000_0000_0000_0000_0000_0000,
        ensures
            distinct_balance_keys(final(self).view()),
            final(self).view().len() <= old(self).view().len() + 1,
            forall|o2: Owner, t2: TypeTag|
                #[trigger] acc_amount(final(self).view(), o2, t2) == if o2 == owner && t2
                    == coin_type {
                    acc_amount(old(self).view(), owner, coin_type) + delta
                } else {
                    acc_amount(old(self).view(), o2, t2)
                },
    {
        let n = self.entries.len();
        let mut i: usize = 0;
        let mut found: Option<usize> = None;
        while i < n
            invariant
                n == self.entries@.len(),
                i <= n,
                *self == *old(self),
                match found {
                    Some(f) => f < i && self.entries@[f as int].owner == owner
                        && self.entries@[f as int].coin_type == coin_type,
                    None => forall|j: int|
                        0 <= j < i ==> !((#[trigger] self.entries@[j]).owner == owner
                            && self.entries@[j].coin_type == coin_type),
                },
            decreases n - i,
        {
            if found.is_none() && self.entries[i].owner == owner && self.entries[i].coin_type
                == coin_type {
                found = Some(i);
            }
            i = i + 1;
        }
        match found {
            Some(f) => {
                proof {
                    lemma_acc_entry(self.entries@, f as int);
                }
                let old_amount = self.entries[f].amount;
                let updated = BalanceChange { owner, coin_type, amount: old_amount + delta };
                let ghost pre = self.entries@;
                self.entries.set(f, updated);
                proof {
                    lemma_acc_amount_update(pre, f as int, updated, owner, coin_type);
                }
            },
            None => {
                proof {
                    lemma_acc_amount_absent(self.entries@, owner, coin_type);
                }
                let ghost pre = self.entries@;
                self.entries.push(BalanceChange { owner, coin_type, amount: delta });
                proof {
                    assert(self.entries@.drop_last() =~= pre);
                    assert forall|o2: Owner, t2: TypeTag|
                        #[trigger] acc_amount(self.entries@, o2, t2) == if o2 == owner && t2
                            == coin_type {
                            acc_amount(pre, owner, coin_type) + delta
                        } else {
                            acc_amount(pre, o2, t2)
                        } by {}
                }
            },
        }
    }
}

/// Replacing the entry at `i` by one of the same key changes only that
/// key's amount.
proof fn lemma_acc_amount_update(
    s: Seq<BalanceChange>,
    i: int,
    v: BalanceChange,
    owner: Owner,
    coin_type: TypeTag,
)
    requires
        distinct_balance_keys(s),
        0 <= i < s.len(),
        s[i].owner == owner,
        s[i].coin_type == coin_type,
        v.owner == owner,
        v.coin_type == coin_type,
    ensures
        distinct_balance_keys(s.update(i, v)),
        forall|o2: Owner, t2: TypeTag|
            #[trigger] acc_amount(s.update(i, v), o2, t2) == if o2 == owner && t2 == coin_type {
                v.amount as int
            } else {
                acc_amount(s, o2, t2)
            },
    decreases s.len(),
{
    let u = s.update(i, v);
    assert(forall|j: int| 0 <= j < s.len() && j != i ==> (#[trigger] u[j]) == s[j]);
    assert(u[i] == v);
    if i == s.len() - 1 {
        assert(u.drop_last() =~= s.drop_last());
        assert(u.last() == v);
        assert forall|o2: Owner, t2: TypeTag|
            #[trigger] acc_amount(u, o2, t2) == if o2 == owner && t2 == coin_type {
                v.amount as int
            } else {
                acc_amount(s, o2, t2)
            } by {
            if o2 == owner && t2 == coin_type {
            } else {
            }
        }
    } else {
        assert(forall|j: int|
            0 <= j < s.drop_last().len() ==> (#[trigger] s.drop_last()[j]) == s[j]);
        lemma_acc_amount_update(s.drop_last(), i, v, owner, coin_type);
        assert(u.drop_last() =~= s.drop_last().update(i, v));
        assert(u.last() == s.last());
        assert(!(s.last().owner == owner && s.last().coin_type == coin_type));
        assert forall|o2: Owner, t2: TypeTag|
            #[trigger] acc_amount(u, o2, t2) == if o2 == owner && t2 == coin_type {
                v.amount as int
            } else {
                acc_amount(s, o2, t2)
            } by {
            assert(acc_amount(s.drop_last().update(i, v), o2, t2) == if o2 == owner && t2
                == coin_type {
                v.amount as int
            } else {
                acc_amount(s.drop_last(), o2, t2)
            });
            assert(acc_amount(u.drop_last(), o2, t2) == acc_amount(
                s.drop_last().update(i, v),
                o2,
                t2,
            ));
        }
    }
}

/// The entries of `s` whose amount is not zero, in order.
pub open spec fn nonzero_entries(s: Seq<BalanceChange>) -> Seq<BalanceChange>
    decreases s.len(),
{
    if s.len() == 0 {
        Seq::empty()
    } else if s.last().amount != 0 {
        nonzero_entries(s.drop_last()).push(s.last())
    } else {
        nonzero_entries(s.drop_last())
    }
}

/// Every kept entry is an entry of `s` with a non-zero amount.
proof fn lemma_nonzero_sub(s: Seq<BalanceChange>, k: int)
    requires
        0 <= k < nonzero_entries(s).len(),
    ensures
        exists|j: int| 0 <= j < s.len() && (#[trigger] s[j]) == nonzero_entries(s)[k],
        nonzero_entries(s)[k].amount != 0,
    decreases s.len(),
{
    if s.len() > 0 {
        let d = s.drop_last();
        assert(forall|j: int| 0 <= j < d.len() ==> (#[trigger] d[j]) == s[j]);
        if s.last().amount != 0 && k == nonzero_entries(s).len() - 1 {
            assert(s[s.len() - 1] == nonzero_entries(s)[k]);
        } else {
            lemma_nonzero_sub(d, k);
            let j = choose|j: int| 0 <= j < d.len() && (#[trigger] d[j]) == nonzero_entries(d)[k];
            assert(s[j] == nonzero_entries(s)[k]);
        }
    }
}

/// Every entry of `s` with a non-zero amount is kept.
proof fn lemma_nonzero_mem(s: Seq<BalanceChange>, j: int)
    requires
        0 <= j < s.len(),
        s[j].amount != 0,
    ensures
        exists|k: int|
            0 <= k < nonzero_entries(s).len() && (#[trigger] nonzero_entries(s)[k]) == s[j],
    decreases s.len(),
{
    if j == s.len() - 1 {
        let r = nonzero_entries(s);
        assert(r[r.len() - 1] == s[j]);
    } else {
        let d = s.drop_last();
        assert(d[j] == s[j]);
        lemma_nonzero_mem(d, j);
        let k = choose|k: int|
            0 <= k < nonzero_entries(d).len() && (#[trigger] nonzero_entries(d)[k]) == d[j];
        assert(nonzero_entries(s)[k] == s[j]);
    }
}

proof fn lemma_nonzero_distinct(s: Seq<BalanceChange>)
    requires
        distinct_balance_keys(s),
    ensures
        distinct_balance_keys(nonzero_entries(s)),
    decreases s.len(),
{
    if s.len() > 0 {
        let d = s.drop_last();
        assert(forall|j: int| 0 <= j < d.len() ==> (#[trigger] d[j]) == s[j]);
        lemma_nonzero_distinct(d);
        if s.last().amount != 0 {
            let r = nonzero_entries(s);
            assert forall|i: int, j: int|
                0 <= i < j < r.len() implies !((#[trigger] r[i]).owner == (#[trigger] r[j]).owner
                && r[i].coin_type == r[j].coin_type) by {
                if j == r.len() - 1 {
                    lemma_nonzero_sub(d, i);
                    let j2 = choose|j2: int| 0 <= j2 < d.len() && (#[trigger] d[j2]) == r[i];
                    assert(s[j2] == r[i]);
                    assert(!(s[j2].owner == s.last().owner && s[j2].coin_type
                        == s.last().coin_type));
                } else {
                    assert(r[i] == nonzero_entries(d)[i] && r[j] == nonzero_entries(d)[j]);
                }
            }
        }
    }
}

/// Exactness of a balance-change list against the fetched coins: each
/// record carries the non-zero net movement of its key, every key with a
/// non-zero net movement is recorded, and no key is recorded twice. The
/// order of the records is left open.
pub open spec fn balance_changes_ok(
    out: Seq<BalanceChange>,
    ins: Seq<FetchedCoin>,
    outs: Seq<FetchedCoin>,
) -> bool {
    &&& forall|i: int|
        0 <= i < out.len() ==> (#[trigger] out[i]).amount == balance_delta(
            ins,
            outs,
            out[i].owner,
            out[i].coin_type,
        ) && out[i].amount != 0
    &&& forall|owner: Owner, coin_type: TypeTag|
        #[trigger] balance_delta(ins, outs, owner, coin_type) != 0 ==> exists|i: int|
            0 <= i < out.len() && (#[trigger] out[i]).owner == owner && out[i].coin_type
                == coin_type
    &&& distinct_balance_keys(out)
}

/// What a flawed fetch forces the engine's result to be.
pub open spec fn flaw_err<T, E>(f: FetchFlaw, r: Result<T, EngineError<E>>) -> bool {
    match f {
        FetchFlaw::NotFound { .. } => r matches Err(e) && e is Provider,
        FetchFlaw::Coin(c) => r matches Err(e) && e == EngineError::<E>::Coin(c),
    }
}

/// What the balance-change engine must return, given the provider's
/// memory and the two lookup lists.
pub open spec fn balance_result_ok<E>(
    m: Map<(ObjectId, u64), ObjectView>,
    ins_entries: Seq<ObjectLookup>,
    outs_entries: Seq<ObjectLookup>,
    r: Result<Vec<BalanceChange>, EngineError<E>>,
) -> bool {
    match first_flaw(m, ins_entries, 0) {
        Some(f) => flaw_err(f, r),
        None => match first_flaw(m, outs_entries, 0) {
            Some(f) => flaw_err(f, r),
            None => r matches Ok(v) && balance_changes_ok(
                v@,
                coins_from(m, ins_entries, 0),
                coins_from(m, outs_entries, 0),
            ),
        },
    }
}

/// An upper bound all lookup lists handed to the balance engines must
/// respect, so that the accumulated amounts fit the signed 128-bit
/// arithmetic; no realizable list comes near it.
pub open spec fn fits_accumulator(ins: Seq<ObjectLookup>, outs: Seq<ObjectLookup>) -> bool {
    ins.len() + outs.len() <= 0x1000_0000_0000_0000
}

pub proof fn lemma_coins_from_len(
    m: Map<(ObjectId, u64), ObjectView>,
    entries: Seq<ObjectLookup>,
    i: int,
)
    requires
        0 <= i <= entries.len(),
    ensures
        coins_from(m, entries, i).len() <= entries.len() - i,
    decreases entries.len() - i,
{
    if i < entries.len() {
        lemma_coins_from_len(m, entries, i + 1);
    }
}

/// Computes the signed balance changes of one transaction: every input
/// coin subtracts its balance, every output coin adds its, and one record
/// per `(owner, coin_type)` key with a non-zero net movement is returned.
pub fn get_balance_changes<P: ObjectProvider>(
    provider: &mut P,
    modified_at_version: &Vec<ObjectLookup>,
    all_mutated: &Vec<ObjectLookup>,
) -> (r: Result<Vec<BalanceChange>, EngineError<P::Error>>)
    requires
        provider_wf(old(provider)),
        fits_accumulator(modified_at_version@, all_mutated@),
    ensures
        provider_wf(final(provider)),
        final(provider).known() == old(provider).known(),
        forall|id2: ObjectId, v2: u64| #[trigger]
            final(provider).le_answer(id2, v2) == old(provider).le_answer(id2, v2),
        balance_result_ok(old(provider).known(), modified_at_version@, all_mutated@, r),
{
    let ghost m = old(provider).known();
    let in_coins = match fetch_coins(provider, modified_at_version) {
        Ok(v) => v,
        Err(e) => {
            return Err(e);
        },
    };
    let out_coins = match fetch_coins(provider, all_mutated) {
        Ok(v) => v,
        Err(e) => {
            return Err(e);
        },
    };
    proof {
        lemma_coins_from_len(m, modified_at_version@, 0);
        lemma_coins_from_len(m, all_mutated@, 0);
    }
    let ghost ins = in_coins@;
    let ghost outs = out_coins@;
    let mut acc = BalanceAcc::new();

    // subtract every input coin
    let n_in = in_coins.len();
    let mut i: usize = 0;
    while i < n_in
        invariant
            n_in == ins.len(),
            ins.len() <= 0x1000_0000_0000_0000,
            i <= n_in,
            in_coins@ == ins,
            distinct_balance_keys(acc.view()),
            forall|o2: Owner, t2: TypeTag| #[trigger]
                acc_amount(acc.view(), o2, t2) == -balance_sum(ins.take(i as int), o2, t2),
        decreases n_in - i,
    {
        let c = in_coins[i];
        proof {
            lemma_balance_sum_bound(ins.take(i as int), c.owner, c.coin_type);
            assert(ins.take(i + 1).drop_last() =~= ins.take(i as int));
            assert(ins.take(i + 1).last() == ins[i as int]);
            assert forall|o2: Owner, t2: TypeTag| #[trigger]
                balance_sum(ins.take(i + 1), o2, t2) == balance_sum(ins.take(i as int), o2, t2)
                + if ins[i as int].owner == o2 && ins[i as int].coin_type == t2 {
                    ins[i as int].balance as int
                } else {
                    0
                } by {}
        }
        acc.add(c.owner, c.coin_type, -(c.balance as i128));
        i = i + 1;
    }
    proof {
        assert(ins.take(n_in as int) =~= ins);
    }

    // add every output coin
    let n_out = out_coins.len();
    let mut j: usize = 0;
    while j < n_out
        invariant
            n_out == outs.len(),
            ins.len() <= 0x1000_0000_0000_0000,
            outs.len() <= 0x1000_0000_0000_0000,
            j <= n_out,
            out_coins@ == outs,
            distinct_balance_keys(acc.view()),
            forall|o2: Owner, t2: TypeTag| #[trigger]
                acc_amount(acc.view(), o2, t2) == balance_sum(outs.take(j as int), o2, t2)
                - balance_sum(ins, o2, t2),
        decreases n_out - j,
    {
        let c = out_coins[j];
        proof {
            lemma_balance_sum_bound(outs.take(j as int), c.owner, c.coin_type);
            lemma_balance_sum_bound(ins, c.owner, c.coin_type);
            assert(outs.take(j + 1).drop_last() =~= outs.take(j as int));
            assert(outs.take(j + 1).last() == outs[j as int]);
            assert forall|o2: Owner, t2: TypeTag| #[trigger]
                balance_sum(outs.take(j + 1), o2, t2) == balance_sum(outs.take(j as int), o2, t2)
                + if outs[j as int].owner == o2 && outs[j as int].coin_type == t2 {
                    outs[j as int].balance as int
                } else {
                    0
                } by {}
        }
        acc.add(c.owner, c.coin_type, c.balance as i128);
        j = j + 1;
    }
    proof {
        assert(outs.take(n_out as int) =~= outs);
    }

    // emit one record per key whose net movement is not zero
    let n_acc = acc.entries.len();
    let mut out: Vec<BalanceChange> = Vec::new();
    let mut k: usize = 0;
    while k < n_acc
        invariant
            n_acc == acc.view().len(),
            k <= n_acc,
            out@ == nonzero_entries(acc.view().take(k as int)),
        decreases n_acc - k,
    {
        let e = acc.entries[k];
        proof {
            assert(acc.view().take(k + 1).drop_last() =~= acc.view().take(k as int));
            assert(acc.view().take(k + 1).last() == acc.view()[k as int]);
        }
        if e.amount != 0 {
            out.push(e);
        }
        k = k + 1;
    }
    proof {
        assert(acc.view().take(n_acc as int) =~= acc.view());
        let final_acc = acc.view();
        let result = nonzero_entries(final_acc);
        lemma_nonzero_distinct(final_acc);
        assert forall|i2: int|
            0 <= i2 < result.len() implies (#[trigger] result[i2]).amount == balance_delta(
            ins,
            outs,
            result[i2].owner,
            result[i2].coin_type,
        ) && result[i2].amount != 0 by {
            lemma_nonzero_sub(final_acc, i2);
            let j2 = choose|j2: int| 0 <= j2 < final_acc.len() && (#[trigger] final_acc[j2])
                == result[i2];
            lemma_acc_entry(final_acc, j2);
        }
        assert forall|owner: Owner, coin_type: TypeTag|
            #[trigger] balance_delta(ins, outs, owner, coin_type) != 0 implies exists|i2: int|
            0 <= i2 < result.len() && (#[trigger] result[i2]).owner == owner
                && result[i2].coin_type == coin_type by {
            assert(acc_amount(final_acc, owner, coin_type) == balance_delta(
                ins,
                outs,
                owner,
                coin_type,
            ));
            if forall|j2: int|
                0 <= j2 < final_acc.len() ==> !((#[trigger] final_acc[j2]).owner == owner
                    && final_acc[j2].coin_type == coin_type) {
                lemma_acc_amount_absent(final_acc, owner, coin_type);
                assert(false);
            }
            let j2 = choose|j2: int|
                0 <= j2 < final_acc.len() && ((#[trigger] final_acc[j2]).owner == owner
                    && final_acc[j2].coin_type == coin_type);
            lemma_acc_entry(final_acc, j2);
            lemma_nonzero_mem(final_acc, j2);
            let k2 = choose|k2: int|
                0 <= k2 < result.len() && (#[trigger] result[k2]) == final_acc[j2];
            assert(result[k2].owner == owner && result[k2].coin_type == coin_type);
        }
    }
    Ok(out)
}

/// Whether `id` is the caller-designated mocked coin.
pub open spec fn is_mocked(mocked_coin: Option<ObjectId>, id: ObjectId) -> bool {
    match mocked_coin {
        Some(c) => c == id,
        None => false,
    }
}

/// Whether the unwrapped-then-deleted set mentions `id`.
pub open spec fn utd_contains(utd: Seq<ObjectRef>, id: ObjectId) -> bool {
    exists|i: int| 0 <= i < utd.len() && (#[trigger] utd[i]).id == id
}

/// The digest the declared input objects pin for `id`, if any; later
/// declarations win.
pub open spec fn input_digest(input_objs: Seq<InputObjectKind>, id: ObjectId) -> Option<
    ObjectDigest,
>
    decreases input_objs.len(),
{
    if input_objs.len() == 0 {
        None
    } else {
        match input_objs.last() {
            InputObjectKind::ImmOrOwnedMoveObject(oref) => if oref.id == id {
                Some(oref.digest)
            } else {
                input_digest(input_objs.drop_last(), id)
            },
            _ => input_digest(input_objs.drop_last(), id),
        }
    }
}

/// The output-side lookups of the effects: every changed object at its
/// new version, pinned to its declared digest; the mocked coin is
/// skipped.
pub open spec fn output_lookups(
    changed: Seq<ChangedObject>,
    mocked_coin: Option<ObjectId>,
) -> Seq<ObjectLookup>
    decreases changed.len(),
{
    if changed.len() == 0 {
        Seq::empty()
    } else {
        let rest = output_lookups(changed.drop_last(), mocked_coin);
        let c = changed.last();
        if is_mocked(mocked_coin, c.object_ref.id) {
            rest
        } else {
            rest.push(
                ObjectLookup {
                    id: c.object_ref.id,
                    version: c.object_ref.version,
                    digest: Some(c.object_ref.digest),
                },
            )
        }
    }
}

/// The input-side lookups of the effects: every modified object at its
/// prior version, with the digest the inputs pin for it; the mocked coin
/// and the unwrapped-then-deleted objects are skipped.
pub open spec fn input_lookups(
    modified: Seq<(ObjectId, u64)>,
    mocked_coin: Option<ObjectId>,
    utd: Seq<ObjectRef>,
    input_objs: Seq<InputObjectKind>,
) -> Seq<ObjectLookup>
    decreases modified.len(),
{
    if modified.len() == 0 {
        Seq::empty()
    } else {
        let rest = input_lookups(modified.drop_last(), mocked_coin, utd, input_objs);
        let (id, version) = modified.last();
        if is_mocked(mocked_coin, id) || utd_contains(utd, id) {
            rest
        } else {
            rest.push(ObjectLookup { id, version, digest: input_digest(input_objs, id) })
        }
    }
}

pub proof fn lemma_output_lookups_len(changed: Seq<ChangedObject>, mocked_coin: Option<ObjectId>)
    ensures
        output_lookups(changed, mocked_coin).len() <= changed.len(),
    decreases changed.len(),
{
    if changed.len() > 0 {
        lemma_output_lookups_len(changed.drop_last(), mocked_coin);
    }
}

pub proof fn lemma_input_lookups_len(
    modified: Seq<(ObjectId, u64)>,
    mocked_coin: Option<ObjectId>,
    utd: Seq<ObjectRef>,
    input_objs: Seq<InputObjectKind>,
)
    ensures
        input_lookups(modified, mocked_coin, utd, input_objs).len() <= modified.len(),
    decreases modified.len(),
{
    if modified.len() > 0 {
        lemma_input_lookups_len(modified.drop_last(), mocked_coin, utd, input_objs);
    }
}

/// The single record of a failed transaction: the whole net gas usage,
/// charged negatively to the gas owner in the gas currency.
pub open spec fn failure_gas_record(gas_owner: Owner, net_gas_usage: i64) -> BalanceChange {
    BalanceChange {
        owner: gas_owner,
        coin_type: TypeTag::Gas,
        amount: (-(net_gas_usage as int)) as i128,
    }
}

/// Finds whether the unwrapped-then-deleted set mentions `id`.
pub fn utd_member(utd: &Vec<ObjectRef>, id: &ObjectId) -> (r: bool)
    ensures
        r == utd_contains(utd@, *id),
{
    let n = utd.len();
    let mut i: usize = 0;
    while i < n
        invariant
            n == utd@.len(),
            i <= n,
            forall|j: int| 0 <= j < i ==> (#[trigger] utd@[j]).id != *id,
        decreases n - i,
    {
        if utd[i].id == *id {
            return true;
        }
        i = i + 1;
    }
    false
}

/// Finds the digest the declared input objects pin for `id`.
pub fn find_input_digest(input_objs: &Vec<InputObjectKind>, id: &ObjectId) -> (r: Option<ObjectDigest>)
    ensures
        r == input_digest(input_objs@, *id),
{
    let n = input_objs.len();
    let mut r: Option<ObjectDigest> = None;
    let mut i: usize = 0;
    while i < n
        invariant
            n == input_objs@.len(),
            i <= n,
            r == input_digest(input_objs@.take(i as int), *id),
        decreases n - i,
    {
        proof {
            assert(input_objs@.take(i + 1).drop_last() =~= input_objs@.take(i as int));
            assert(input_objs@.take(i + 1).last() == input_objs@[i as int]);
        }
        match &input_objs[i] {
            InputObjectKind::ImmOrOwnedMoveObject(oref) => {
                if oref.id == *id {
                    r = Some(oref.digest);
                }
            },
            _ => {},
        }
        i = i + 1;
    }
    proof {
        assert(input_objs@.take(n as int) =~= input_objs@);
    }
    r
}

/// Builds the output-side lookups of the effects: every changed object
/// at its new version, pinned to its declared digest; the mocked coin is
/// skipped.
pub fn build_output_lookups(changed: &Vec<ChangedObject>, mocked_coin: Option<ObjectId>) -> (r:
    Vec<ObjectLookup>)
    ensures
        r@ == output_lookups(changed@, mocked_coin),
{
    let n = changed.len();
    let mut outs: Vec<ObjectLookup> = Vec::new();
    let mut i: usize = 0;
    while i < n
        invariant
            n == changed@.len(),
            i <= n,
            outs@ == output_lookups(changed@.take(i as int), mocked_coin),
        decreases n - i,
    {
        proof {
            assert(changed@.take(i + 1).drop_last() =~= changed@.take(i as int));
            assert(changed@.take(i + 1).last() == changed@[i as int]);
        }
        let c = changed[i];
        let skip = match mocked_coin {
            Some(mc) => c.object_ref.id == mc,
            None => false,
        };
        if !skip {
            outs.push(
                ObjectLookup {
                    id: c.object_ref.id,
                    version: c.object_ref.version,
                    digest: Some(c.object_ref.digest),
                },
            );
        }
        i = i + 1;
    }
    proof {
        assert(changed@.take(n as int) =~= changed@);
    }
    outs
}

/// Builds the input-side lookups of the effects: every modified object
/// at its prior version, with the digest the declared inputs pin for it;
/// the mocked coin and the unwrapped-then-deleted objects are skipped.
pub fn build_input_lookups(
    modified: &Vec<(ObjectId, u64)>,
    mocked_coin: Option<ObjectId>,
    utd: &Vec<ObjectRef>,
    input_objs: &Vec<InputObjectKind>,
) -> (r: Vec<ObjectLookup>)
    ensures
        r@ == input_lookups(modified@, mocked_coin, utd@, input_objs@),
{
    let n = modified.len();
    let mut ins: Vec<ObjectLookup> = Vec::new();
    let mut j: usize = 0;
    while j < n
        invariant
            n == modified@.len(),
            j <= n,
            ins@ == input_lookups(modified@.take(j as int), mocked_coin, utd@, input_objs@),
        decreases n - j,
    {
        proof {
            assert(modified@.take(j + 1).drop_last() =~= modified@.take(j as int));
            assert(modified@.take(j + 1).last() == modified@[j as int]);
        }
        let (id, version) = modified[j];
        let skip = match mocked_coin {
            Some(mc) => id == mc,
            None => false,
        };
        let skip = skip || utd_member(utd, &id);
        if !skip {
            let digest = find_input_digest(input_objs, &id);
            ins.push(ObjectLookup { id, version, digest });
        }
        j = j + 1;
    }
    proof {
        assert(modified@.take(n as int) =~= modified@);
    }
    ins
}

/// Computes the balance changes of one transaction from its effects.
///
/// A failed transaction short-circuits: no object is fetched and the one
/// record charges the whole net gas usage to the gas owner. Otherwise the
/// modified-at-versions pairs, less the mocked coin and the
/// unwrapped-then-deleted objects, are fetched at their prior versions as
/// inputs, and the changed objects, less the mocked coin, at their new
/// versions as outputs.
pub fn get_balance_changes_from_effect<P: ObjectProvider>(
    provider: &mut P,
    effects: &TransactionEffects,
    input_objs: &Vec<InputObjectKind>,
    mocked_coin: Option<ObjectId>,
) -> (r: Result<Vec<BalanceChange>, EngineError<P::Error>>)
    requires
        provider_wf(old(provider)),
        effects.modified_at_versions@.len() + effects.all_changed_objects@.len()
            <= 0x1000_0000_0000_0000,
    ensures
        provider_wf(final(provider)),
        final(provider).known() == old(provider).known(),
        forall|id2: ObjectId, v2: u64| #[trigger]
            final(provider).le_answer(id2, v2) == old(provider).le_answer(id2, v2),
        effects.status is Failure ==> (r matches Ok(v) && v@ == seq![
            failure_gas_record(effects.gas_owner, effects.net_gas_usage),
        ]),
        effects.status is Success ==> balance_result_ok(
            old(provider).known(),
            input_lookups(
                effects.modified_at_versions@,
                mocked_coin,
                effects.unwrapped_then_deleted@,
                input_objs@,
            ),
            output_lookups(effects.all_changed_objects@, mocked_coin),
            r,
        ),
{
    if matches!(effects.status, ExecutionStatus::Failure) {
        let amount: i128 = -(effects.net_gas_usage as i128);
        let mut v: Vec<BalanceChange> = Vec::new();
        v.push(BalanceChange { owner: effects.gas_owner, coin_type: TypeTag::Gas, amount });
        proof {
            assert(v@ =~= seq![failure_gas_record(effects.gas_owner, effects.net_gas_usage)]);
        }
        return Ok(v);
    }

    let outs = build_output_lookups(&effects.all_changed_objects, mocked_coin);
    let ins = build_input_lookups(
        &effects.modified_at_versions,
        mocked_coin,
        &effects.unwrapped_then_deleted,
        input_objs,
    );
    proof {
        lemma_input_lookups_len(
            effects.modified_at_versions@,
            mocked_coin,
            effects.unwrapped_then_deleted@,
            input_objs@,
        );
        lemma_output_lookups_len(effects.all_changed_objects@, mocked_coin);
    }

    get_balance_changes(provider, &ins, &outs)
}

/// Balance conservation for a single coin: when the inputs hold exactly
/// one coin of balance `a` and the outputs exactly one coin of balance
/// `b`, both under the same `(owner, coin_type)` key, the engine emits a
/// single record of amount `b - a` when the balances differ, and no
/// record at all when they agree.
pub proof fn lemma_balance_conservation_single_coin(
    out: Seq<BalanceChange>,
    ins: Seq<FetchedCoin>,
    outs: Seq<FetchedCoin>,
    owner: Owner,
    coin_type: TypeTag,
    a: u64,
    b: u64,
)
    requires
        balance_changes_ok(out, ins, outs),
        ins.len() == 1,
        ins[0].owner == owner,
        ins[0].coin_type == coin_type,
        ins[0].balance == a,
        outs.len() == 1,
        outs[0].owner == owner,
        outs[0].coin_type == coin_type,
        outs[0].balance == b,
    ensures
        a != b ==> out.len() == 1 && out[0] == (BalanceChange {
            owner,
            coin_type,
            amount: (b - a) as i128,
        }),
        a == b ==> out.len() == 0,
{
    assert(ins.drop_last() =~= Seq::<FetchedCoin>::empty());
    assert(outs.drop_last() =~= Seq::<FetchedCoin>::empty());
    assert forall|o2: Owner, t2: TypeTag| #[trigger]
        balance_sum(ins, o2, t2) == if o2 == owner && t2 == coin_type {
            a as int
        } else {
            0
        } by {
        assert(balance_sum(Seq::<FetchedCoin>::empty(), o2, t2) == 0);
        assert(ins.last() == ins[0]);
    }
    assert forall|o2: Owner, t2: TypeTag| #[trigger]
        balance_sum(outs, o2, t2) == if o2 == owner && t2 == coin_type {
            b as int
        } else {
            0
        } by {
        assert(balance_sum(Seq::<FetchedCoin>::empty(), o2, t2) == 0);
        assert(outs.last() == outs[0]);
    }
    assert(balance_delta(ins, outs, owner, coin_type) == b - a);
    assert(forall|o2: Owner, t2: TypeTag|
        !(o2 == owner && t2 == coin_type) ==> #[trigger] balance_delta(ins, outs, o2, t2) == 0);
    if a == b {
        if out.len() > 0 {
            assert(out[0].amount == balance_delta(ins, outs, out[0].owner, out[0].coin_type));
            assert(out[0].amount != 0);
            assert(balance_delta(ins, outs, owner, coin_type) == 0);
            assert(false);
        }
    } else {
        assert(balance_delta(ins, outs, owner, coin_type) == b - a);
        let i = choose|i: int|
            0 <= i < out.len() && (#[trigger] out[i]).owner == owner && out[i].coin_type
                == coin_type;
        assert(out[i].amount == b - a);
        assert forall|k: int| 0 <= k < out.len() implies (#[trigger] out[k]).owner == owner
            && out[k].coin_type == coin_type by {
            if !(out[k].owner == owner && out[k].coin_type == coin_type) {
                assert(balance_delta(ins, outs, out[k].owner, out[k].coin_type) == 0);
                assert(out[k].amount != 0);
            }
        }
        if out.len() > 1 {
            assert(out[0].owner == out[1].owner && out[0].coin_type == out[1].coin_type);
            assert(false);
        }
        assert(out[0] == (BalanceChange { owner, coin_type, amount: (b - a) as i128 }));
    }
}

/// Total value a coin list holds, over all keys.
pub open spec fn total_balance(s: Seq<FetchedCoin>) -> int
    decreases s.len(),
{
    if s.len() == 0 {
        0
    } else {
        total_balance(s.drop_last()) + s.last().balance
    }
}

/// Total signed movement a record list carries.
pub open spec fn total_amount(out: Seq<BalanceChange>) -> int
    decreases out.len(),
{
    if out.len() == 0 {
        0
    } else {
        total_amount(out.drop_last()) + out.last().amount
    }
}

/// How often a key occurs in a key list.
pub open spec fn key_count(ks: Seq<(Owner, TypeTag)>, owner: Owner, coin_type: TypeTag) -> int
    decreases ks.len(),
{
    if ks.len() == 0 {
        0
    } else {
        key_count(ks.drop_last(), owner, coin_type) + if ks.last() == (owner, coin_type) {
            1int
        } else {
            0int
        }
    }
}

/// The per-key balances of a coin list, summed over a key list.
pub open spec fn keyed_balance(ks: Seq<(Owner, TypeTag)>, s: Seq<FetchedCoin>) -> int
    decreases ks.len(),
{
    if ks.len() == 0 {
        0
    } else {
        keyed_balance(ks.drop_last(), s) + balance_sum(s, ks.last().0, ks.last().1)
    }
}

/// The per-key net movements, summed over a key list.
pub open spec fn keyed_delta(
    ks: Seq<(Owner, TypeTag)>,
    ins: Seq<FetchedCoin>,
    outs: Seq<FetchedCoin>,
) -> int
    decreases ks.len(),
{
    if ks.len() == 0 {
        0
    } else {
        keyed_delta(ks.drop_last(), ins, outs) + balance_delta(
            ins,
            outs,
            ks.last().0,
            ks.last().1,
        )
    }
}

/// The keys of a record list, in order.
pub open spec fn record_keys(out: Seq<BalanceChange>) -> Seq<(Owner, TypeTag)> {
    out.map_values(|b: BalanceChange| (b.owner, b.coin_type))
}

/// The keys occurring among the coins that a key list misses, one
/// occurrence each.
pub open spec fn fresh_keys(s: Seq<FetchedCoin>, ks: Seq<(Owner, TypeTag)>) -> Seq<
    (Owner, TypeTag),
>
    decreases s.len(),
{
    if s.len() == 0 {
        Seq::empty()
    } else {
        let rest = fresh_keys(s.drop_last(), ks);
        let k = (s.last().owner, s.last().coin_type);
        if key_count(ks, k.0, k.1) > 0 || key_count(rest, k.0, k.1) > 0 {
            rest
        } else {
            rest.push(k)
        }
    }
}

proof fn lemma_keyed_delta_split(
    ks: Seq<(Owner, TypeTag)>,
    ins: Seq<FetchedCoin>,
    outs: Seq<FetchedCoin>,
)
    ensures
        keyed_delta(ks, ins, outs) == keyed_balance(ks, outs) - keyed_balance(ks, ins),
    decreases ks.len(),
{
    if ks.len() > 0 {
        lemma_keyed_delta_split(ks.drop_last(), ins, outs);
    }
}

/// Dropping a coin list's last coin lowers every keyed balance by that
/// coin's balance, once per occurrence of its key.
proof fn lemma_keyed_balance_step(ks: Seq<(Owner, TypeTag)>, s: Seq<FetchedCoin>)
    requires
        s.len() > 0,
    ensures
        keyed_balance(ks, s) == keyed_balance(ks, s.drop_last()) + s.last().balance * key_count(
            ks,
            s.last().owner,
            s.last().coin_type,
        ),
    decreases ks.len(),
{
    if ks.len() > 0 {
        lemma_keyed_balance_step(ks.drop_last(), s);
        let k = ks.last();
        let c = s.last();
        assert(balance_sum(s, k.0, k.1) == balance_sum(s.drop_last(), k.0, k.1) + if c.owner
            == k.0 && c.coin_type == k.1 {
            c.balance as int
        } else {
            0
        });
        let cnt = key_count(ks.drop_last(), c.owner, c.coin_type);
        if k == (c.owner, c.coin_type) {
            assert(c.balance * (cnt + 1) == c.balance * cnt + c.balance) by (nonlinear_arith);
        }
    }
}

/// A key list in which every coin's key occurs exactly once splits the
/// total value by key.
proof fn lemma_total_by_keys(ks: Seq<(Owner, TypeTag)>, s: Seq<FetchedCoin>)
    requires
        forall|i: int|
            0 <= i < s.len() ==> key_count(ks, (#[trigger] s[i]).owner, s[i].coin_type) == 1,
    ensures
        total_balance(s) == keyed_balance(ks, s),
    decreases s.len(),
{
    if s.len() == 0 {
        assert(s =~= Seq::<FetchedCoin>::empty());
        lemma_keyed_balance_empty(ks);
    } else {
        assert(forall|i: int| 0 <= i < s.drop_last().len() ==> (#[trigger] s.drop_last()[i]) == s[i]);
        lemma_total_by_keys(ks, s.drop_last());
        lemma_keyed_balance_step(ks, s);
        assert(s[s.len() - 1] == s.last());
        assert(key_count(ks, s.last().owner, s.last().coin_type) == 1);
    }
}

proof fn lemma_keyed_balance_empty(ks: Seq<(Owner, TypeTag)>)
    ensures
        keyed_balance(ks, Seq::<FetchedCoin>::empty()) == 0,
    decreases ks.len(),
{
    if ks.len() > 0 {
        lemma_keyed_balance_empty(ks.drop_last());
        assert(balance_sum(Seq::<FetchedCoin>::empty(), ks.last().0, ks.last().1) == 0);
    }
}

/// Keyed balances see only the coins whose key the list holds: a coin
/// list all of whose keys are absent contributes nothing.
proof fn lemma_keyed_balance_absent(ks: Seq<(Owner, TypeTag)>, s: Seq<FetchedCoin>)
    requires
        forall|i: int|
            0 <= i < s.len() ==> key_count(ks, (#[trigger] s[i]).owner, s[i].coin_type) == 0,
    ensures
        keyed_balance(ks, s) == 0,
    decreases s.len(),
{
    if s.len() == 0 {
        assert(s =~= Seq::<FetchedCoin>::empty());
        lemma_keyed_balance_empty(ks);
    } else {
        assert(forall|i: int| 0 <= i < s.drop_last().len() ==> (#[trigger] s.drop_last()[i]) == s[i]);
        lemma_keyed_balance_absent(ks, s.drop_last());
        lemma_keyed_balance_step(ks, s);
        assert(s[s.len() - 1] == s.last());
        assert(key_count(ks, s.last().owner, s.last().coin_type) == 0);
        assert(s.last().balance * 0 == 0) by (nonlinear_arith);
    }
}

/// What the fresh keys are: together with the given list they hold every
/// coin's key exactly once, and they avoid the given list.
proof fn lemma_fresh_keys(s: Seq<FetchedCoin>, ks: Seq<(Owner, TypeTag)>)
    ensures
        forall|i: int|
            0 <= i < s.len() ==> key_count(ks, (#[trigger] s[i]).owner, s[i].coin_type)
                + key_count(fresh_keys(s, ks), s[i].owner, s[i].coin_type) >= 1,
        forall|owner: Owner, coin_type: TypeTag|
            #[trigger] key_count(fresh_keys(s, ks), owner, coin_type) >= 0,
        forall|owner: Owner, coin_type: TypeTag|
            #[trigger] key_count(fresh_keys(s, ks), owner, coin_type) <= 1,
        forall|owner: Owner, coin_type: TypeTag|
            key_count(ks, owner, coin_type) > 0 ==> #[trigger] key_count(
                fresh_keys(s, ks),
                owner,
                coin_type,
            ) == 0,
        forall|owner: Owner, coin_type: TypeTag|
            #[trigger] key_count(fresh_keys(s, ks), owner, coin_type) > 0 ==> exists|i: int|
                0 <= i < s.len() && ((#[trigger] s[i]).owner, s[i].coin_type) == (
                owner,
                coin_type,
            ),
    decreases s.len(),
{
    lemma_key_count_nonneg_all(ks);
    lemma_key_count_nonneg_all(fresh_keys(s, ks));
    if s.len() > 0 {
        let d = s.drop_last();
        lemma_fresh_keys(d, ks);
        assert(forall|i: int| 0 <= i < d.len() ==> (#[trigger] d[i]) == s[i]);
        let rest = fresh_keys(d, ks);
        let k = (s.last().owner, s.last().coin_type);
        let f = fresh_keys(s, ks);
        lemma_key_count_nonneg_all(rest);
        assert(s[s.len() - 1] == s.last());
        if key_count(ks, k.0, k.1) > 0 || key_count(rest, k.0, k.1) > 0 {
            assert(f == rest);
            assert forall|i: int|
                0 <= i < s.len() implies key_count(ks, (#[trigger] s[i]).owner, s[i].coin_type)
                + key_count(f, s[i].owner, s[i].coin_type) >= 1 by {
                if i < s.len() - 1 {
                    assert(d[i] == s[i]);
                    assert(key_count(ks, d[i].owner, d[i].coin_type) + key_count(
                        rest,
                        d[i].owner,
                        d[i].coin_type,
                    ) >= 1);
                }
            }
        } else {
            assert(f == rest.push(k));
            assert(f.drop_last() =~= rest);
            assert(f.last() == k);
            assert forall|owner: Owner, coin_type: TypeTag|
                #[trigger] key_count(f, owner, coin_type) == key_count(rest, owner, coin_type)
                    + if (owner, coin_type) == k {
                    1int
                } else {
                    0int
                } by {}
            assert forall|i: int|
                0 <= i < s.len() implies key_count(ks, (#[trigger] s[i]).owner, s[i].coin_type)
                + key_count(f, s[i].owner, s[i].coin_type) >= 1 by {
                if i < s.len() - 1 {
                    assert(d[i] == s[i]);
                    assert(key_count(ks, d[i].owner, d[i].coin_type) + key_count(
                        rest,
                        d[i].owner,
                        d[i].coin_type,
                    ) >= 1);
                    assert(key_count(f, s[i].owner, s[i].coin_type) >= key_count(
                        rest,
                        s[i].owner,
                        s[i].coin_type,
                    ));
                } else {
                    assert(key_count(f, k.0, k.1) == key_count(rest, k.0, k.1) + 1);
                }
            }
            assert forall|owner: Owner, coin_type: TypeTag|
                #[trigger] key_count(f, owner, coin_type) > 0 implies exists|i: int|
                0 <= i < s.len() && ((#[trigger] s[i]).owner, s[i].coin_type) == (
                owner,
                coin_type,
            ) by {
                if (owner, coin_type) == k {
                    assert(((s[s.len() - 1]).owner, s[s.len() - 1].coin_type) == (
                        owner,
                        coin_type,
                    ));
                } else {
                    assert(key_count(rest, owner, coin_type) > 0);
                }
            }
        }
    }
}

proof fn lemma_key_count_nonneg(ks: Seq<(Owner, TypeTag)>, owner: Owner, coin_type: TypeTag)
    ensures
        key_count(ks, owner, coin_type) >= 0,
    decreases ks.len(),
{
    if ks.len() > 0 {
        lemma_key_count_nonneg(ks.drop_last(), owner, coin_type);
    }
}

proof fn lemma_key_count_nonneg_all(ks: Seq<(Owner, TypeTag)>)
    ensures
        forall|owner: Owner, coin_type: TypeTag|
            #[trigger] key_count(ks, owner, coin_type) >= 0,
{
    assert forall|owner: Owner, coin_type: TypeTag|
        #[trigger] key_count(ks, owner, coin_type) >= 0 by {
        lemma_key_count_nonneg(ks, owner, coin_type);
    }
}

/// In a record list with distinct keys, each key occurs at most once.
proof fn lemma_record_keys_distinct(out: Seq<BalanceChange>)
    requires
        distinct_balance_keys(out),
    ensures
        forall|owner: Owner, coin_type: TypeTag|
            #[trigger] key_count(record_keys(out), owner, coin_type) <= 1,
        forall|owner: Owner, coin_type: TypeTag|
            #[trigger] key_count(record_keys(out), owner, coin_type) >= 0,
        forall|owner: Owner, coin_type: TypeTag|
            #[trigger] key_count(record_keys(out), owner, coin_type) > 0 ==> exists|i: int|
                0 <= i < out.len() && ((#[trigger] out[i]).owner, out[i].coin_type) == (
                owner,
                coin_type,
            ),
        forall|i: int|
            0 <= i < out.len() ==> #[trigger] key_count(
                record_keys(out),
                out[i].owner,
                out[i].coin_type,
            ) == 1,
    decreases out.len(),
{
    lemma_key_count_nonneg_all(record_keys(out));
    if out.len() > 0 {
        let d = out.drop_last();
        assert(forall|i: int| 0 <= i < d.len() ==> (#[trigger] d[i]) == out[i]);
        lemma_record_keys_distinct(d);
        assert(record_keys(out).drop_last() =~= record_keys(d));
        assert(record_keys(out).last() == (out.last().owner, out.last().coin_type));
        assert(out[out.len() - 1] == out.last());
        assert forall|i: int|
            0 <= i < out.len() implies #[trigger] key_count(
            record_keys(out),
            out[i].owner,
            out[i].coin_type,
        ) == 1 by {
            assert(key_count(record_keys(out), out[i].owner, out[i].coin_type) == key_count(
                record_keys(d),
                out[i].owner,
                out[i].coin_type,
            ) + if record_keys(out).last() == (out[i].owner, out[i].coin_type) {
                1int
            } else {
                0int
            });
            if i < out.len() - 1 {
                assert(!(out[i].owner == out.last().owner && out[i].coin_type
                    == out.last().coin_type));
                assert(d[i] == out[i]);
                assert(key_count(record_keys(d), d[i].owner, d[i].coin_type) == 1);
            } else {
                if key_count(record_keys(d), out[i].owner, out[i].coin_type) > 0 {
                    let j = choose|j: int|
                        0 <= j < d.len() && ((#[trigger] d[j]).owner, d[j].coin_type) == (
                        out[i].owner,
                        out[i].coin_type,
                    );
                    assert(!(out[j].owner == out[i].owner && out[j].coin_type
                        == out[i].coin_type));
                }
                assert(key_count(record_keys(d), out[i].owner, out[i].coin_type) == 0);
            }
        }
        assert forall|owner: Owner, coin_type: TypeTag|
            #[trigger] key_count(record_keys(out), owner, coin_type) > 0 implies exists|i: int|
            0 <= i < out.len() && ((#[trigger] out[i]).owner, out[i].coin_type) == (
            owner,
            coin_type,
        ) by {
            if (owner, coin_type) == (out.last().owner, out.last().coin_type) {
                assert(((out[out.len() - 1]).owner, out[out.len() - 1].coin_type) == (
                    owner,
                    coin_type,
                ));
            } else {
                assert(key_count(record_keys(d), owner, coin_type) > 0);
            }
        }
    }
}

/// Each record's amount summed equals the keyed net movement of the
/// record keys.
proof fn lemma_amounts_are_keyed_delta(
    out: Seq<BalanceChange>,
    ins: Seq<FetchedCoin>,
    outs: Seq<FetchedCoin>,
)
    requires
        forall|i: int|
            0 <= i < out.len() ==> (#[trigger] out[i]).amount == balance_delta(
                ins,
                outs,
                out[i].owner,
                out[i].coin_type,
            ),
    ensures
        total_amount(out) == keyed_delta(record_keys(out), ins, outs),
    decreases out.len(),
{
    if out.len() > 0 {
        let d = out.drop_last();
        assert(forall|i: int| 0 <= i < d.len() ==> (#[trigger] d[i]) == out[i]);
        lemma_amounts_are_keyed_delta(d, ins, outs);
        assert(record_keys(out).drop_last() =~= record_keys(d));
        assert(record_keys(out).last() == (out.last().owner, out.last().coin_type));
        assert(out[out.len() - 1] == out.last());
    }
}

/// A key list of zero net movements sums to zero.
proof fn lemma_zero_deltas(ks: Seq<(Owner, TypeTag)>, ins: Seq<FetchedCoin>, outs: Seq<FetchedCoin>)
    requires
        forall|i: int|
            0 <= i < ks.len() ==> balance_delta(
                ins,
                outs,
                (#[trigger] ks[i]).0,
                ks[i].1,
            ) == 0,
    ensures
        keyed_delta(ks, ins, outs) == 0,
    decreases ks.len(),
{
    if ks.len() > 0 {
        assert(forall|i: int| 0 <= i < ks.drop_last().len() ==> (#[trigger] ks.drop_last()[i]) == ks[i]);
        lemma_zero_deltas(ks.drop_last(), ins, outs);
        assert(ks[ks.len() - 1] == ks.last());
    }
}

/// Balance conservation in the aggregate: the amounts of a
/// balance-change list sum to the total value of the output coins minus
/// the total value of the input coins.
pub proof fn lemma_total_conservation(
    out: Seq<BalanceChange>,
    ins: Seq<FetchedCoin>,
    outs: Seq<FetchedCoin>,
)
    requires
        balance_changes_ok(out, ins, outs),
    ensures
        total_amount(out) == total_balance(outs) - total_balance(ins),
{
    let ks = record_keys(out);
    let coins = ins + outs;
    let m = fresh_keys(coins, ks);
    lemma_record_keys_distinct(out);
    lemma_fresh_keys(coins, ks);
    lemma_key_count_nonneg_all(ks);
    lemma_key_count_nonneg_all(m);

    // every coin's key occurs exactly once across the record keys and
    // the fresh keys
    assert forall|i: int|
        0 <= i < ins.len() implies key_count(ks, (#[trigger] ins[i]).owner, ins[i].coin_type)
        + key_count(m, ins[i].owner, ins[i].coin_type) == 1 by {
        assert(coins[i] == ins[i]);
        lemma_joint_count_is_one(out, coins, ks, m, i);
    }
    assert forall|i: int|
        0 <= i < outs.len() implies key_count(ks, (#[trigger] outs[i]).owner, outs[i].coin_type)
        + key_count(m, outs[i].owner, outs[i].coin_type) == 1 by {
        assert(coins[ins.len() + i] == outs[i]);
        lemma_joint_count_is_one(out, coins, ks, m, ins.len() + i);
    }

    lemma_split_totals(ks, m, ins);
    lemma_split_totals(ks, m, outs);
    lemma_keyed_delta_split(ks, ins, outs);
    lemma_keyed_delta_split(m, ins, outs);
    lemma_amounts_are_keyed_delta(out, ins, outs);

    // fresh keys miss the records, so their net movements are all zero
    assert forall|i: int|
        0 <= i < m.len() implies balance_delta(ins, outs, (#[trigger] m[i]).0, m[i].1) == 0 by {
        lemma_key_at_counts(m, i);
        assert(key_count(m, m[i].0, m[i].1) > 0);
        if balance_delta(ins, outs, m[i].0, m[i].1) != 0 {
            let j = choose|j: int|
                0 <= j < out.len() && (#[trigger] out[j]).owner == m[i].0 && out[j].coin_type
                    == m[i].1;
            assert(key_count(ks, m[i].0, m[i].1) == 1);
        }
    }
    lemma_zero_deltas(m, ins, outs);
}

/// A key occurring at an index counts at least once.
proof fn lemma_key_at_counts(ks: Seq<(Owner, TypeTag)>, i: int)
    requires
        0 <= i < ks.len(),
    ensures
        key_count(ks, ks[i].0, ks[i].1) >= 1,
    decreases ks.len(),
{
    lemma_key_count_nonneg(ks.drop_last(), ks[i].0, ks[i].1);
    if i == ks.len() - 1 {
        assert(ks[ks.len() - 1] == ks.last());
        assert(ks.last() == (ks[i].0, ks[i].1));
    } else {
        assert(ks.drop_last()[i] == ks[i]);
        lemma_key_at_counts(ks.drop_last(), i);
    }
}

/// The joint count of one coin's key across record keys and fresh keys.
proof fn lemma_joint_count_is_one(
    out: Seq<BalanceChange>,
    coins: Seq<FetchedCoin>,
    ks: Seq<(Owner, TypeTag)>,
    m: Seq<(Owner, TypeTag)>,
    i: int,
)
    requires
        distinct_balance_keys(out),
        ks == record_keys(out),
        m == fresh_keys(coins, ks),
        0 <= i < coins.len(),
    ensures
        key_count(ks, coins[i].owner, coins[i].coin_type) + key_count(
            m,
            coins[i].owner,
            coins[i].coin_type,
        ) == 1,
{
    lemma_record_keys_distinct(out);
    lemma_fresh_keys(coins, ks);
}

/// The total value of a coin list splits across a pair of key lists that
/// jointly hold every coin's key exactly once.
proof fn lemma_split_totals(
    ks: Seq<(Owner, TypeTag)>,
    m: Seq<(Owner, TypeTag)>,
    s: Seq<FetchedCoin>,
)
    requires
        forall|i: int|
            0 <= i < s.len() ==> key_count(ks, (#[trigger] s[i]).owner, s[i].coin_type)
                + key_count(m, s[i].owner, s[i].coin_type) == 1,
    ensures
        total_balance(s) == keyed_balance(ks, s) + keyed_balance(m, s),
    decreases s.len(),
{
    if s.len() == 0 {
        assert(s =~= Seq::<FetchedCoin>::empty());
        lemma_keyed_balance_empty(ks);
        lemma_keyed_balance_empty(m);
    } else {
        assert(forall|i: int| 0 <= i < s.drop_last().len() ==> (#[trigger] s.drop_last()[i]) == s[i]);
        lemma_split_totals(ks, m, s.drop_last());
        lemma_keyed_balance_step(ks, s);
        lemma_keyed_balance_step(m, s);
        assert(s[s.len() - 1] == s.last());
        let c = s.last();
        let ck = key_count(ks, c.owner, c.coin_type);
        let cm = key_count(m, c.owner, c.coin_type);
        assert(ck + cm == 1);
        assert(c.balance * ck + c.balance * cm == c.balance) by (nonlinear_arith)
            requires
                ck + cm == 1,
        ;
    }
}

/// The mocked-coin filter: no lookup the engine makes, on either side,
/// carries the mocked coin's identity.
pub proof fn lemma_mocked_coin_filtered(
    modified: Seq<(ObjectId, u64)>,
    changed: Seq<ChangedObject>,
    c: ObjectId,
    utd: Seq<ObjectRef>,
    input_objs: Seq<InputObjectKind>,
)
    ensures
        forall|k: int|
            0 <= k < input_lookups(modified, Some(c), utd, input_objs).len()
                ==> (#[trigger] input_lookups(modified, Some(c), utd, input_objs)[k]).id != c,
        forall|k: int|
            0 <= k < output_lookups(changed, Some(c)).len()
                ==> (#[trigger] output_lookups(changed, Some(c))[k]).id != c,
    decreases modified.len() + changed.len(),
{
    if modified.len() > 0 {
        lemma_mocked_coin_filtered(modified.drop_last(), changed, c, utd, input_objs);
    } else if changed.len() > 0 {
        lemma_mocked_coin_filtered(modified, changed.drop_last(), c, utd, input_objs);
    }
}

/// The unwrapped-then-deleted filter: no input-side lookup the engine
/// makes carries an identity of the unwrapped-then-deleted set.
pub proof fn lemma_unwrapped_then_deleted_skipped(
    modified: Seq<(ObjectId, u64)>,
    mocked_coin: Option<ObjectId>,
    utd: Seq<ObjectRef>,
    input_objs: Seq<InputObjectKind>,
)
    ensures
        forall|k: int|
            0 <= k < input_lookups(modified, mocked_coin, utd, input_objs).len()
                ==> !utd_contains(
                utd,
                (#[trigger] input_lookups(modified, mocked_coin, utd, input_objs)[k]).id,
            ),
    decreases modified.len(),
{
    if modified.len() > 0 {
        lemma_unwrapped_then_deleted_skipped(modified.drop_last(), mocked_coin, utd, input_objs);
    }
}

proof fn lemma_first_flaw_reaches(
    m: Map<(ObjectId, u64), ObjectView>,
    entries: Seq<ObjectLookup>,
    j: int,
    i: int,
)
    requires
        0 <= j <= i < entries.len(),
        entry_flaw(m, entries[i]) is Some,
    ensures
        first_flaw(m, entries, j) is Some,
    decreases i - j,
{
    if j < i && entry_flaw(m, entries[j]) is None {
        lemma_first_flaw_reaches(m, entries, j + 1, i);
    }
}

/// A digest mismatch is fatal: when some lookup pins a digest that
/// disagrees with the object the provider knows at that version, the
/// engine does not return balance changes.
pub proof fn lemma_digest_mismatch_is_fatal<E>(
    m: Map<(ObjectId, u64), ObjectView>,
    ins_entries: Seq<ObjectLookup>,
    outs_entries: Seq<ObjectLookup>,
    r: Result<Vec<BalanceChange>, EngineError<E>>,
    side_in: bool,
    i: int,
    d: ObjectDigest,
)
    requires
        balance_result_ok(m, ins_entries, outs_entries, r),
        side_in ==> 0 <= i < ins_entries.len() && ins_entries[i].digest == Some(d)
            && (m.contains_key((ins_entries[i].id, ins_entries[i].version))
            ==> m[(ins_entries[i].id, ins_entries[i].version)].digest != d),
        !side_in ==> 0 <= i < outs_entries.len() && outs_entries[i].digest == Some(d)
            && (m.contains_key((outs_entries[i].id, outs_entries[i].version))
            ==> m[(outs_entries[i].id, outs_entries[i].version)].digest != d),
    ensures
        r is Err,
{
    if side_in {
        assert(entry_flaw(m, ins_entries[i]) is Some);
        lemma_first_flaw_reaches(m, ins_entries, 0, i);
    } else {
        assert(entry_flaw(m, outs_entries[i]) is Some);
        lemma_first_flaw_reaches(m, outs_entries, 0, i);
        if first_flaw(m, ins_entries, 0) is None {
        }
    }
}

} // verus!

//! The coin extractor: decide whether an object is a coin and, if so,
//! decode its owner, currency and balance from the serialized payload.
//!
//! A coin's contents hold its 32-byte identity followed by its balance as
//! a little-endian 64-bit integer; an object whose type tag declares a coin
//! but whose payload is too short to hold that balance is treated as data
//! corruption. A caller-supplied digest that disagrees with the object's
//! digest is fatal as well: it signals a corrupt provider.

use crate::types::{CoinError, Object, ObjectDigest, ObjectView, Owner, TypeTag};
use vstd::arithmetic::power2::{lemma2_to64, lemma_pow2_adds, lemma_pow2_pos, pow2};
use vstd::prelude::*;

verus! {

/// Offset of the balance inside a coin's contents: right after the 32-byte
/// identity.
pub const COIN_BALANCE_OFFSET: usize = 32;

/// A decoded coin: who holds it, in what currency, and how much.
#[derive(Clone, Copy, Debug, PartialEq, Eq, Structural, Hash)]
pub struct CoinBalance {
    pub owner: Owner,
    pub coin_type: TypeTag,
    pub balance: u64,
}

/// The value of a byte sequence read as a little-endian unsigned integer.
pub open spec fn le_bytes_value(s: Seq<u8>) -> int
    decreases s.len(),
{
    if s.len() == 0 {
        0
    } else {
        s[0] + 256 * le_bytes_value(s.drop_first())
    }
}

pub proof fn lemma_le_bytes_value_bound(s: Seq<u8>)
    ensures
        0 <= le_bytes_value(s) < pow2(8 * s.len()),
    decreases s.len(),
{
    lemma2_to64();
    if s.len() == 0 {
    } else {
        let rest = s.drop_first();
        lemma_le_bytes_value_bound(rest);
        lemma_pow2_adds(8, 8 * rest.len());
        assert(8 + 8 * rest.len() == 8 * s.len());
        assert(256 * le_bytes_value(rest) <= 256 * (pow2(8 * rest.len()) - 1))
            by (nonlinear_arith)
            requires
                0 <= le_bytes_value(rest) <= pow2(8 * rest.len()) - 1,
        ;
        assert(le_bytes_value(s) < 256 * pow2(8 * rest.len()));
    }
}

/// The currency of an object, when its type tag declares a coin.
pub open spec fn coin_currency(o: ObjectView) -> Option<TypeTag> {
    match o.data {
        crate::types::ObjectDataView::Move { type_tag, .. } => match type_tag {
            crate::types::StructTag::Coin(t) => Some(t),
            crate::types::StructTag::Other(_) => None,
        },
        crate::types::ObjectDataView::Package { .. } => None,
    }
}

/// The serialized contents of an object, when it is a Move object.
pub open spec fn move_contents(o: ObjectView) -> Seq<u8> {
    match o.data {
        crate::types::ObjectDataView::Move { contents, .. } => contents,
        crate::types::ObjectDataView::Package { .. } => Seq::empty(),
    }
}

/// Whether a coin's payload is long enough to hold a balance.
pub open spec fn coin_payload_ok(o: ObjectView) -> bool {
    move_contents(o).len() >= COIN_BALANCE_OFFSET + 8
}

/// The balance a well-formed coin's payload carries.
pub open spec fn coin_balance_value(o: ObjectView) -> int {
    le_bytes_value(
        move_contents(o).subrange(
            COIN_BALANCE_OFFSET as int,
            COIN_BALANCE_OFFSET + 8,
        ),
    )
}

/// Whether the object's digest agrees with a caller-supplied expectation.
pub open spec fn digest_ok(o: ObjectView, expected: Option<ObjectDigest>) -> bool {
    match expected {
        Some(d) => d == o.digest,
        None => true,
    }
}

/// What extraction returns: not a coin, a decoded coin, or a fatal error.
pub open spec fn extract_coin_spec(o: ObjectView, expected: Option<ObjectDigest>) -> Result<
    Option<CoinBalance>,
    CoinError,
> {
    if !digest_ok(o, expected) {
        Err(
            CoinError::DigestMismatch {
                id: o.id,
                expected: expected->Some_0,
                actual: o.digest,
            },
        )
    } else {
        match coin_currency(o) {
            None => Ok(None),
            Some(t) => if coin_payload_ok(o) {
                Ok(
                    Some(
                        CoinBalance {
                            owner: o.owner,
                            coin_type: t,
                            balance: coin_balance_value(o) as u64,
                        },
                    ),
                )
            } else {
                Err(CoinError::MalformedCoinPayload { id: o.id })
            },
        }
    }
}

/// Reads the balance from a coin's contents.
fn decode_balance(contents: &Vec<u8>) -> (r: u64)
    requires
        contents@.len() >= COIN_BALANCE_OFFSET + 8,
    ensures
        r == le_bytes_value(
            contents@.subrange(COIN_BALANCE_OFFSET as int, COIN_BALANCE_OFFSET + 8),
        ),
{
    let ghost window = contents@.subrange(COIN_BALANCE_OFFSET as int, COIN_BALANCE_OFFSET + 8);
    let mut v: u64 = 0;
    let mut j: usize = 8;
    proof {
        lemma2_to64();
    }
    while j > 0
        invariant
            j <= 8,
            contents@.len() >= COIN_BALANCE_OFFSET + 8,
            window == contents@.subrange(COIN_BALANCE_OFFSET as int, COIN_BALANCE_OFFSET + 8),
            v == le_bytes_value(window.subrange(j as int, 8)),
            v < pow2(8 * (8 - j) as nat),
        decreases j,
    {
        j = j - 1;
        let b = contents[COIN_BALANCE_OFFSET + j];
        proof {
            lemma2_to64();
            let tail = window.subrange(j + 1, 8);
            let cur = window.subrange(j as int, 8);
            assert(cur.drop_first() =~= tail);
            assert(cur[0] == window[j as int]);
            assert(window[j as int] == contents@[COIN_BALANCE_OFFSET + j]);
            lemma_le_bytes_value_bound(cur);
            lemma_pow2_adds(8 * (7 - j) as nat, 8);
            assert(8 * (7 - j) as nat + 8 == 8 * (8 - j) as nat);
            lemma_pow2_adds(8 * (8 - j) as nat, 8 * j as nat);
            lemma_pow2_pos(8 * j as nat);
            assert(pow2(8 * (8 - j) as nat) <= pow2(64))
                by (nonlinear_arith)
                requires
                    pow2(64) == pow2(8 * (8 - j) as nat) * pow2(8 * j as nat),
                    pow2(8 * j as nat) >= 1,
                    pow2(8 * (8 - j) as nat) >= 0,
            ;
            assert(256 * (v as int) <= 256 * (pow2(8 * (7 - j) as nat) - 1))
                by (nonlinear_arith)
                requires
                    0 <= v as int <= pow2(8 * (7 - j) as nat) - 1,
            ;
        }
        v = v * 256 + (b as u64);
    }
    proof {
        assert(window.subrange(0, 8) =~= window);
    }
    v
}

impl Object {
    /// Decides whether this object is a coin and decodes it.
    ///
    /// When `expected_digest` is given and disagrees with the object's
    /// digest, extraction fails with a digest mismatch; a declared coin
    /// whose payload is too short fails as malformed; any other non-coin
    /// object yields nothing.
    pub fn extract_coin(&self, expected_digest: Option<ObjectDigest>) -> (r: Result<
        Option<CoinBalance>,
        CoinError,
    >)
        ensures
            r == extract_coin_spec(self@, expected_digest),
    {
        if let Some(d) = expected_digest {
            if d != self.digest {
                return Err(
                    CoinError::DigestMismatch { id: self.id, expected: d, actual: self.digest },
                );
            }
        }
        match &self.data {
            crate::types::ObjectData::Move { type_tag, contents } => match type_tag {
                crate::types::StructTag::Coin(t) => {
                    if contents.len() >= COIN_BALANCE_OFFSET + 8 {
                        let balance = decode_balance(contents);
                        proof {
                            lemma_le_bytes_value_bound(
                                move_contents(self@).subrange(
                                    COIN_BALANCE_OFFSET as int,
                                    COIN_BALANCE_OFFSET + 8,
                                ),
                            );
                        }
                        Ok(Some(CoinBalance { owner: self.owner, coin_type: *t, balance }))
                    } else {
                        Err(CoinError::MalformedCoinPayload { id: self.id })
                    }
                },
                crate::types::StructTag::Other(_) => Ok(None),
            },
            crate::types::ObjectData::Package { .. } => Ok(None),
        }
    }
}

} // verus!

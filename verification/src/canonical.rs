//! Canonical string form of identities: `0x` followed by the 64
//! lowercase hexadecimal digits of the 32-byte value, zero-padded.

use crate::types::ObjectId;
use vstd::prelude::*;
use vstd::string::StringExecFns;

verus! {

/// The lowercase hexadecimal digit of a value below sixteen.
pub open spec fn hex_digit(n: int) -> char {
    if n == 0 {
        '0'
    } else if n == 1 {
        '1'
    } else if n == 2 {
        '2'
    } else if n == 3 {
        '3'
    } else if n == 4 {
        '4'
    } else if n == 5 {
        '5'
    } else if n == 6 {
        '6'
    } else if n == 7 {
        '7'
    } else if n == 8 {
        '8'
    } else if n == 9 {
        '9'
    } else if n == 10 {
        'a'
    } else if n == 11 {
        'b'
    } else if n == 12 {
        'c'
    } else if n == 13 {
        'd'
    } else if n == 14 {
        'e'
    } else {
        'f'
    }
}

/// The hexadecimal rendering of a value in a fixed number of digits,
/// most significant first.
pub open spec fn hex_chars(v: int, digits: nat) -> Seq<char>
    decreases digits,
{
    if digits == 0 {
        Seq::empty()
    } else {
        hex_chars(v / 16, (digits - 1) as nat).push(hex_digit(v % 16))
    }
}

/// The canonical rendering of an identity.
pub open spec fn canonical_chars(id: ObjectId) -> Seq<char> {
    seq!['0', 'x'] + hex_chars(id.w0 as int, 16) + hex_chars(id.w1 as int, 16) + hex_chars(
        id.w2 as int,
        16,
    ) + hex_chars(id.w3 as int, 16)
}

/// The digit characters of a digit-value list read back to front.
pub open spec fn rev_chars(ds: Seq<u8>) -> Seq<char>
    decreases ds.len(),
{
    if ds.len() == 0 {
        Seq::empty()
    } else {
        seq![hex_digit(ds.last() as int)] + rev_chars(ds.drop_last())
    }
}

proof fn lemma_rev_chars_push(ds: Seq<u8>, d: u8)
    ensures
        rev_chars(ds.push(d)) == seq![hex_digit(d as int)] + rev_chars(ds),
{
    assert(ds.push(d).drop_last() =~= ds);
    assert(ds.push(d).last() == d);
}

/// Reading a list back to front peels its first element off last.
proof fn lemma_rev_chars_front(ds: Seq<u8>)
    requires
        ds.len() > 0,
    ensures
        rev_chars(ds) == rev_chars(ds.drop_first()) + seq![hex_digit(ds.first() as int)],
    decreases ds.len(),
{
    if ds.len() == 1 {
        assert(ds.drop_last() =~= Seq::<u8>::empty());
        assert(ds.drop_first() =~= Seq::<u8>::empty());
        assert(ds.last() == ds.first());
        assert(seq![hex_digit(ds.last() as int)] + Seq::<char>::empty() =~= Seq::<
            char,
        >::empty() + seq![hex_digit(ds.first() as int)]);
    } else {
        let dl = ds.drop_last();
        let df = ds.drop_first();
        lemma_rev_chars_front(dl);
        assert(dl.drop_first() =~= df.drop_last());
        assert(dl.first() == ds.first());
        assert(df.last() == ds.last());
        assert((seq![hex_digit(ds.last() as int)] + rev_chars(df.drop_last())) + seq![
            hex_digit(ds.first() as int),
        ] =~= seq![hex_digit(ds.last() as int)] + (rev_chars(df.drop_last()) + seq![
            hex_digit(ds.first() as int),
        ]));
    }
}

/// The single-character string of a hexadecimal digit value.
fn hex_digit_str(d: u64) -> (r: &'static str)
    requires
        d < 16,
    ensures
        r@ == seq![hex_digit(d as int)],
{
    proof {
        reveal_strlit("0");
        reveal_strlit("1");
        reveal_strlit("2");
        reveal_strlit("3");
        reveal_strlit("4");
        reveal_strlit("5");
        reveal_strlit("6");
        reveal_strlit("7");
        reveal_strlit("8");
        reveal_strlit("9");
        reveal_strlit("a");
        reveal_strlit("b");
        reveal_strlit("c");
        reveal_strlit("d");
        reveal_strlit("e");
        reveal_strlit("f");
    }
    if d == 0 {
        "0"
    } else if d == 1 {
        "1"
    } else if d == 2 {
        "2"
    } else if d == 3 {
        "3"
    } else if d == 4 {
        "4"
    } else if d == 5 {
        "5"
    } else if d == 6 {
        "6"
    } else if d == 7 {
        "7"
    } else if d == 8 {
        "8"
    } else if d == 9 {
        "9"
    } else if d == 10 {
        "a"
    } else if d == 11 {
        "b"
    } else if d == 12 {
        "c"
    } else if d == 13 {
        "d"
    } else if d == 14 {
        "e"
    } else {
        "f"
    }
}

/// Appends the sixteen hexadecimal digits of one 64-bit limb.
fn append_hex_u64(s: &mut String, w: u64)
    ensures
        final(s)@ == old(s)@ + hex_chars(w as int, 16),
{
    let mut ds: Vec<u64> = Vec::new();
    let mut v: u64 = w;
    let mut k: usize = 0;
    while k < 16
        invariant
            k <= 16,
            ds@.len() == k,
            forall|j: int| 0 <= j < k ==> (#[trigger] ds@[j]) < 16,
            hex_chars(w as int, 16) == hex_chars(v as int, (16 - k) as nat) + rev_chars(
                ds@.map_values(|x: u64| x as u8),
            ),
        decreases 16 - k,
    {
        let d = v % 16;
        proof {
            let dsm = ds@.map_values(|x: u64| x as u8);
            lemma_rev_chars_push(dsm, d as u8);
            assert(ds@.push(d).map_values(|x: u64| x as u8) =~= dsm.push(d as u8));
            assert(hex_chars(v as int, (16 - k) as nat) == hex_chars(
                v as int / 16,
                (15 - k) as nat,
            ).push(hex_digit(v as int % 16)));
            let a = hex_chars(v as int / 16, (15 - k) as nat);
            let b = rev_chars(dsm);
            let c = seq![hex_digit(d as int)];
            assert((a.push(hex_digit(d as int))) + b =~= a + (c + b));
        }
        ds.push(d);
        v = v / 16;
        k = k + 1;
    }
    proof {
        assert(hex_chars(v as int, 0) =~= Seq::<char>::empty());
        assert(Seq::<char>::empty() + rev_chars(ds@.map_values(|x: u64| x as u8)) =~= rev_chars(
            ds@.map_values(|x: u64| x as u8),
        ));
    }
    let mut k2: usize = 16;
    while k2 > 0
        invariant
            k2 <= 16,
            ds@.len() == 16,
            forall|j: int| 0 <= j < 16 ==> (#[trigger] ds@[j]) < 16,
            hex_chars(w as int, 16) == rev_chars(ds@.map_values(|x: u64| x as u8)),
            s@ == old(s)@ + rev_chars(
                ds@.map_values(|x: u64| x as u8).subrange(k2 as int, 16),
            ),
        decreases k2,
    {
        k2 = k2 - 1;
        let piece = hex_digit_str(ds[k2]);
        proof {
            let dsm = ds@.map_values(|x: u64| x as u8);
            let cur = dsm.subrange(k2 as int, 16);
            let prev = dsm.subrange(k2 + 1, 16);
            assert(cur.drop_first() =~= prev);
            assert(cur.first() == dsm[k2 as int]);
            assert(dsm[k2 as int] == ds@[k2 as int] as u8);
            lemma_rev_chars_front(cur);
            assert((old(s)@ + rev_chars(prev)) + seq![hex_digit(ds@[k2 as int] as int)] =~= old(
                s,
            )@ + (rev_chars(prev) + seq![hex_digit(ds@[k2 as int] as int)]));
        }
        s.append(piece);
    }
    proof {
        let dsm = ds@.map_values(|x: u64| x as u8);
        assert(dsm.subrange(0, 16) =~= dsm);
    }
}

impl ObjectId {
    /// Renders the identity in canonical form: `0x` followed by the 64
    /// lowercase hexadecimal digits of its big-endian bytes.
    pub fn to_canonical_string(&self) -> (r: String)
        ensures
            r@ == canonical_chars(*self),
    {
        let mut s = String::new();
        proof {
            reveal_strlit("0x");
            assert(("0x")@ =~= seq!['0', 'x']);
        }
        s.append("0x");
        proof {
            assert(Seq::<char>::empty() + seq!['0', 'x'] =~= seq!['0', 'x']);
        }
        append_hex_u64(&mut s, self.w0);
        append_hex_u64(&mut s, self.w1);
        append_hex_u64(&mut s, self.w2);
        append_hex_u64(&mut s, self.w3);
        proof {
            assert(s@ =~= canonical_chars(*self));
        }
        s
    }
}

} // verus!

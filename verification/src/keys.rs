//! The bits of a 32-byte key and the order that they give.
//!
//! A key is read as 256 bits, the high bit of the first byte first. One key
//! comes before another when, at the first bit where they differ, it has 0.

use crate::crypto::PublicKey;
use vstd::prelude::*;

verus! {

/// Bit `s` of a byte, counted from the low end.
pub open spec fn spec_byte_bit(b: u8, s: u8) -> bool {
    (b >> s) & 1u8 == 1u8
}

/// Bit `d` of a key, counted from the high end of the first byte.
pub open spec fn spec_bit(key: PublicKey, d: int) -> bool {
    spec_byte_bit(key.bytes@[d / 8], (7 - d % 8) as u8)
}

/// Whether two keys agree on their first `d` bits.
pub open spec fn spec_prefix_eq(a: PublicKey, b: PublicKey, d: int) -> bool {
    forall|j: int| 0 <= j < d ==> spec_bit(a, j) == spec_bit(b, j)
}

/// Whether `d` is the first bit where the keys differ, with 0 in `a`.
pub open spec fn spec_lt_at(a: PublicKey, b: PublicKey, d: int) -> bool {
    0 <= d < 256 && spec_prefix_eq(a, b, d) && !spec_bit(a, d) && spec_bit(b, d)
}

/// Whether `a` comes before `b`.
pub open spec fn spec_key_lt(a: PublicKey, b: PublicKey) -> bool {
    exists|d: int| spec_lt_at(a, b, d)
}

/// How two keys stand to each other.
#[derive(Clone, Copy, Debug, PartialEq, Eq, Structural)]
pub enum KeyOrder {
    Before,
    Same,
    After,
}

/// Two bytes with the same eight bits are the same byte.
proof fn lemma_byte_bits(x: u8, y: u8)
    requires
        forall|s: u8| 0 <= s < 8 ==> spec_byte_bit(x, s) == spec_byte_bit(y, s),
    ensures
        x == y,
{
    assert(spec_byte_bit(x, 0) == spec_byte_bit(y, 0));
    assert(spec_byte_bit(x, 1) == spec_byte_bit(y, 1));
    assert(spec_byte_bit(x, 2) == spec_byte_bit(y, 2));
    assert(spec_byte_bit(x, 3) == spec_byte_bit(y, 3));
    assert(spec_byte_bit(x, 4) == spec_byte_bit(y, 4));
    assert(spec_byte_bit(x, 5) == spec_byte_bit(y, 5));
    assert(spec_byte_bit(x, 6) == spec_byte_bit(y, 6));
    assert(spec_byte_bit(x, 7) == spec_byte_bit(y, 7));
    assert((((x >> 0u8) & 1u8 == 1u8) == ((y >> 0u8) & 1u8 == 1u8)) && (((x >> 1u8) & 1u8 == 1u8) == ((y
        >> 1u8) & 1u8 == 1u8)) && (((x >> 2u8) & 1u8 == 1u8) == ((y >> 2u8) & 1u8 == 1u8)) && (((x
        >> 3u8) & 1u8 == 1u8) == ((y >> 3u8) & 1u8 == 1u8)) && (((x >> 4u8) & 1u8 == 1u8) == ((y
        >> 4u8) & 1u8 == 1u8)) && (((x >> 5u8) & 1u8 == 1u8) == ((y >> 5u8) & 1u8 == 1u8)) && (((x
        >> 6u8) & 1u8 == 1u8) == ((y >> 6u8) & 1u8 == 1u8)) && (((x >> 7u8) & 1u8 == 1u8) == ((y
        >> 7u8) & 1u8 == 1u8)) ==> x == y) by (bit_vector);
}

/// Two keys with the same 256 bits are the same key.
pub proof fn lemma_bits_determine_key(a: PublicKey, b: PublicKey)
    requires
        spec_prefix_eq(a, b, 256),
    ensures
        a == b,
{
    assert forall|i: int| 0 <= i < 32 implies a.bytes@[i] == b.bytes@[i] by {
        assert forall|s: u8| 0 <= s < 8 implies spec_byte_bit(a.bytes@[i], s) == spec_byte_bit(
            b.bytes@[i],
            s,
        ) by {
            let d = 8 * i + (7 - s);
            assert(d / 8 == i && d % 8 == 7 - s);
            assert(spec_bit(a, d) == spec_bit(b, d));
        }
        lemma_byte_bits(a.bytes@[i], b.bytes@[i]);
    }
    assert(a.bytes@ =~= b.bytes@);
    crate::crypto::lemma_array32_ext(a.bytes, b.bytes);
}

/// No key comes before itself.
pub proof fn lemma_lt_irreflexive(a: PublicKey, b: PublicKey)
    requires
        spec_key_lt(a, b),
    ensures
        a != b,
{
}

/// The order is transitive.
pub proof fn lemma_lt_transitive(a: PublicKey, b: PublicKey, c: PublicKey)
    requires
        spec_key_lt(a, b),
        spec_key_lt(b, c),
    ensures
        spec_key_lt(a, c),
{
    let d1 = choose|d: int| spec_lt_at(a, b, d);
    let d2 = choose|d: int| spec_lt_at(b, c, d);
    if d1 < d2 {
        assert(spec_lt_at(a, c, d1));
    } else {
        assert(spec_lt_at(a, c, d2));
    }
}

/// No two keys come before each other.
proof fn lemma_lt_asymmetric(a: PublicKey, b: PublicKey)
    requires
        spec_key_lt(a, b),
    ensures
        !spec_key_lt(b, a),
{
    if spec_key_lt(b, a) {
        lemma_lt_transitive(a, b, a);
        lemma_lt_irreflexive(a, a);
    }
}

/// Two keys that agree on their first `d` bits and stand in order differ
/// first at bit `d` or later.
pub proof fn lemma_lt_within_prefix(a: PublicKey, b: PublicKey, d: int)
    requires
        spec_key_lt(a, b),
        spec_prefix_eq(a, b, d),
        0 <= d <= 256,
    ensures
        d < 256,
        spec_bit(a, d) ==> spec_bit(b, d),
{
    let f = choose|f: int| spec_lt_at(a, b, f);
    if f < d {
        assert(spec_bit(a, f) == spec_bit(b, f));
    }
}

/// Bit `d` of a key.
pub fn key_bit(key: &PublicKey, d: usize) -> (r: bool)
    requires
        d < 256,
    ensures
        r == spec_bit(*key, d as int),
{
    let shift: u8 = (7 - d % 8) as u8;
    (key.bytes[d / 8] >> shift) & 1u8 == 1u8
}

/// How `a` stands to `b` in the order of keys.
pub fn key_order(a: &PublicKey, b: &PublicKey) -> (r: KeyOrder)
    ensures
        r == KeyOrder::Before <==> spec_key_lt(*a, *b),
        r == KeyOrder::Same <==> *a == *b,
        r == KeyOrder::After <==> spec_key_lt(*b, *a),
{
    let mut d: usize = 0;
    while d < 256
        invariant
            d <= 256,
            spec_prefix_eq(*a, *b, d as int),
        decreases 256 - d,
    {
        let x = key_bit(a, d);
        let y = key_bit(b, d);
        if x != y {
            proof {
                if y {
                    assert(spec_lt_at(*a, *b, d as int));
                    lemma_lt_asymmetric(*a, *b);
                } else {
                    assert(spec_lt_at(*b, *a, d as int));
                    lemma_lt_asymmetric(*b, *a);
                }
            }
            return if y { KeyOrder::Before } else { KeyOrder::After };
        }
        d += 1;
    }
    proof {
        lemma_bits_determine_key(*a, *b);
    }
    KeyOrder::Same
}

} // verus!

//! Facts about exclusive or on bytes, the addition of GF(2^8).

use vstd::prelude::*;

verus! {

/// Exclusive or is associative and commutative, has 0 as identity, and every byte is its own inverse.
pub proof fn lemma_xor(a: u8, b: u8, c: u8)
    ensures
        (a ^ b) ^ c == a ^ (b ^ c),
        a ^ b == b ^ a,
        a ^ 0u8 == a,
        0u8 ^ a == a,
        a ^ a == 0u8,
{
    assert((a ^ b) ^ c == a ^ (b ^ c)) by (bit_vector);
    assert(a ^ b == b ^ a) by (bit_vector);
    assert(a ^ 0u8 == a) by (bit_vector);
    assert(0u8 ^ a == a) by (bit_vector);
    assert(a ^ a == 0u8) by (bit_vector);
}

} // verus!

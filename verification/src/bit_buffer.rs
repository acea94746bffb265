//! An append-only buffer of bits, packed most significant bit first.

use vstd::prelude::*;

verus! {

/// Bit `k` of a byte, counting from the most significant bit (k = 0) down.
pub open spec fn byte_bit(b: u8, k: int) -> bool {
    (b >> ((7 - k) as u8)) & 1u8 != 0u8
}

/// 2 to the power `n`.
pub open spec fn two_pow(n: nat) -> nat
    decreases n,
{
    if n == 0 {
        1
    } else {
        2 * two_pow((n - 1) as nat)
    }
}

/// Powers of two grow with the exponent.
pub proof fn lemma_two_pow_monotone(a: nat, b: nat)
    requires
        a <= b,
    ensures
        1 <= two_pow(a) <= two_pow(b),
    decreases b - a,
{
    if a < b {
        lemma_two_pow_monotone(a, (b - 1) as nat);
    } else {
        lemma_two_pow_positive(a);
    }
}

/// Powers of two are positive.
pub proof fn lemma_two_pow_positive(a: nat)
    ensures
        1 <= two_pow(a),
    decreases a,
{
    if a > 0 {
        lemma_two_pow_positive((a - 1) as nat);
    }
}

/// The bits of zero are all clear.
pub proof fn lemma_bits_of_zero(count: nat)
    ensures
        bits_of(0u32, count) == Seq::new(count, |i: int| false),
{
    assert forall|i: int| 0 <= i < count implies bits_of(0u32, count)[i] == false by {
        let k = (count - 1 - i) as u32;
        assert((0u32 >> k) & 1u32 == 0u32) by (bit_vector);
    }
    assert(bits_of(0u32, count) =~= Seq::new(count, |i: int| false));
}

/// The low `count` bits of `value`, most significant first.
pub open spec fn bits_of(value: u32, count: nat) -> Seq<bool> {
    Seq::new(count, |i: int| (value >> ((count - 1 - i) as u32)) & 1u32 != 0u32)
}

/// The bits read from a byte sequence, most significant bit of each byte first.
pub open spec fn bits_of_bytes(bytes: Seq<u8>) -> Seq<bool> {
    Seq::new(bytes.len() * 8, |k: int| byte_bit(bytes[k / 8], k % 8))
}

/// `bytes` holds `bits`, packed, with the unused low bits of the last byte clear.
pub open spec fn packs(bytes: Seq<u8>, bits: Seq<bool>) -> bool {
    &&& bytes.len() == (bits.len() + 7) / 8
    &&& forall|k: int|
        0 <= k < bytes.len() * 8 ==> #[trigger] byte_bit(bytes[k / 8], k % 8) == (k < bits.len()
            && bits[k])
}

/// Setting bit `k` of a byte sets that bit and keeps the others.
pub proof fn lemma_byte_bit_set(b: u8, k: u8, j: u8)
    requires
        k < 8,
        j < 8,
    ensures
        byte_bit(b | (0x80u8 >> k), j as int) == (j == k || byte_bit(b, j as int)),
{
    assert(((b | (0x80u8 >> k)) >> (7 - j) as u8) & 1u8 != 0u8 <==> (j == k || (b >> (7 - j) as u8)
        & 1u8 != 0u8)) by (bit_vector)
        requires
            k < 8,
            j < 8,
    ;
}

/// The zero byte has no bit set.
pub proof fn lemma_byte_bit_zero(j: u8)
    requires
        j < 8,
    ensures
        !byte_bit(0u8, j as int),
{
    assert((0u8 >> (7 - j) as u8) & 1u8 == 0u8) by (bit_vector);
}

/// A growing sequence of bits.
#[derive(Clone, Debug)]
pub struct BitBuffer {
    bytes: Vec<u8>,
    bit_len: usize,
}

impl View for BitBuffer {
    type V = Seq<bool>;

    closed spec fn view(&self) -> Seq<bool> {
        Seq::new(self.bit_len as nat, |k: int| byte_bit(self.bytes@[k / 8], k % 8))
    }
}

impl Default for BitBuffer {
    /// An empty buffer.
    fn default() -> (r: Self)
        ensures
            r.wf(),
            r@ == Seq::<bool>::empty(),
    {
        let r = BitBuffer { bytes: Vec::new(), bit_len: 0 };
        assert(r@ =~= Seq::<bool>::empty());
        r
    }
}

impl BitBuffer {
    /// The bytes hold exactly the bits, with the unused bits clear.
    pub closed spec fn wf(&self) -> bool {
        packs(self.bytes@, self@)
    }

    /// An empty buffer with room reserved for `bit_len` bits.
    pub fn with_capacity_bits(bit_len: usize) -> (r: Self)
        requires
            bit_len + 7 <= usize::MAX,
        ensures
            r.wf(),
            r@ == Seq::<bool>::empty(),
    {
        let bytes = Vec::with_capacity((bit_len + 7) / 8);
        let r = BitBuffer { bytes, bit_len: 0 };
        assert(r@ =~= Seq::<bool>::empty());
        r
    }

    /// Number of bits appended so far.
    pub fn bit_len(&self) -> (r: usize)
        ensures
            r == self@.len(),
    {
        self.bit_len
    }

    fn push_bit(&mut self, bit: bool)
        requires
            old(self).wf(),
            old(self)@.len() + 8 <= usize::MAX,
        ensures
            final(self).wf(),
            final(self)@ == old(self)@.push(bit),
    {
        let ghost old_bits = self@;
        let ghost old_bytes = self.bytes@;
        let offset = self.bit_len % 8;
        if offset == 0 {
            self.bytes.push(0);
        }
        let index = self.bit_len / 8;
        if bit {
            let b = self.bytes[index];
            self.bytes.set(index, b | (0x80u8 >> (offset as u8)));
        }
        self.bit_len = self.bit_len + 1;
        proof {
            let n = old_bits.len();
            assert forall|k: int| 0 <= k < self.bytes@.len() * 8 implies #[trigger] byte_bit(
                self.bytes@[k / 8],
                k % 8,
            ) == (k < self@.len() && self@[k]) by {
                lemma_byte_bit_zero((k % 8) as u8);
                if k / 8 == index as int {
                    if bit {
                        lemma_byte_bit_set(
                            if offset == 0 { 0u8 } else { old_bytes[index as int] },
                            offset as u8,
                            (k % 8) as u8,
                        );
                    }
                    if offset != 0 {
                        assert(byte_bit(old_bytes[k / 8], k % 8) == (k < n && old_bits[k]));
                    }
                } else {
                    assert(self.bytes@[k / 8] == old_bytes[k / 8]);
                    assert(byte_bit(old_bytes[k / 8], k % 8) == (k < n && old_bits[k]));
                }
            }
            assert forall|k: int| 0 <= k < n + 1 implies #[trigger] self@[k] == old_bits.push(bit)[k] by {
                lemma_byte_bit_zero((k % 8) as u8);
                if k / 8 == index as int {
                    if bit {
                        lemma_byte_bit_set(
                            if offset == 0 { 0u8 } else { old_bytes[index as int] },
                            offset as u8,
                            (k % 8) as u8,
                        );
                    }
                } else {
                    assert(self.bytes@[k / 8] == old_bytes[k / 8]);
                }
                if k < n {
                    assert(byte_bit(old_bytes[k / 8], k % 8) == old_bits[k]);
                }
            }
            assert(self@ =~= old_bits.push(bit));
        }
    }

    /// Appends the low `bit_count` bits of `value`, most significant first.
    pub fn append_bits(&mut self, value: u32, bit_count: u8)
        requires
            old(self).wf(),
            bit_count <= 31,
            old(self)@.len() + bit_count + 8 <= usize::MAX,
        ensures
            final(self).wf(),
            final(self)@ == old(self)@ + bits_of(value, bit_count as nat),
    {
        let ghost start = self@;
        let mut remaining = bit_count;
        while remaining > 0
            invariant
                self.wf(),
                remaining <= bit_count <= 31,
                start.len() + bit_count + 8 <= usize::MAX,
                self@ =~= start + bits_of(value, bit_count as nat).subrange(
                    0,
                    (bit_count - remaining) as int,
                ),
            decreases remaining,
        {
            remaining = remaining - 1;
            let bit = (value >> (remaining as u32)) & 1 != 0;
            self.push_bit(bit);
            proof {
                let all = bits_of(value, bit_count as nat);
                assert(all[(bit_count - 1 - remaining) as int] == bit);
                assert(all.subrange(0, (bit_count - remaining) as int) =~= all.subrange(
                    0,
                    (bit_count - remaining - 1) as int,
                ).push(bit));
            }
        }
        proof {
            assert(bits_of(value, bit_count as nat).subrange(0, bit_count as int) =~= bits_of(
                value,
                bit_count as nat,
            ));
        }
    }

    /// Appends the eight bits of `value`, most significant first.
    pub fn append_byte(&mut self, value: u8)
        requires
            old(self).wf(),
            old(self)@.len() + 16 <= usize::MAX,
        ensures
            final(self).wf(),
            final(self)@ == old(self)@ + bits_of(value as u32, 8),
    {
        self.append_bits(value as u32, 8);
    }

    /// The packed bytes.
    pub fn into_bytes(self) -> (r: Vec<u8>)
        requires
            self.wf(),
        ensures
            packs(r@, self@),
    {
        self.bytes
    }
}

} // verus!

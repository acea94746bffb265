//! The data bit stream of a QR code: one segment (mode indicator, character
//! count, payload), the terminator, byte alignment and the pad bytes.

use vstd::prelude::*;

use crate::bit_buffer::{bits_of, bits_of_bytes, lemma_bits_of_zero, lemma_two_pow_monotone, packs, two_pow, BitBuffer};
use crate::error::QrError;
use crate::tables::{alnum_value, alphanumeric_value, data_codewords, num_data_codewords, payload_bits_len, segment_bits_len};
use crate::types::{count_bits, mode_indicator, DataMode, ErrorCorrectionLevel, Version};

verus! {

/// An ASCII decimal digit.
pub open spec fn is_digit(b: u8) -> bool {
    48 <= b <= 57
}

/// Every byte of `data` can be carried in `mode`.
pub open spec fn valid_for(mode: DataMode, data: Seq<u8>) -> bool {
    match mode {
        DataMode::Numeric => forall|i: int| 0 <= i < data.len() ==> is_digit(#[trigger] data[i]),
        DataMode::Alphanumeric => forall|i: int| 0 <= i < data.len() ==> (#[trigger] alnum_value(data[i])) is Some,
        DataMode::Byte => true,
    }
}

/// Characters per payload group: three digits, two alphanumerics, one byte.
pub open spec fn group_len(mode: DataMode) -> nat {
    match mode {
        DataMode::Numeric => 3,
        DataMode::Alphanumeric => 2,
        DataMode::Byte => 1,
    }
}

/// Number of characters in group `k` of a payload of `len` characters.
pub open spec fn group_size(mode: DataMode, len: nat, k: int) -> int {
    let start = k * group_len(mode);
    if len - start < group_len(mode) {
        len - start
    } else {
        group_len(mode) as int
    }
}

/// Value of a digit byte.
pub open spec fn digit(b: u8) -> u32 {
    (b - 48) as u32
}

/// Decimal value of the `n` digits of `data` from `start` (n is 1, 2 or 3).
pub open spec fn digits_value(data: Seq<u8>, start: int, n: int) -> u32 {
    if n == 1 {
        digit(data[start])
    } else if n == 2 {
        (digit(data[start]) * 10 + digit(data[start + 1])) as u32
    } else {
        (digit(data[start]) * 100 + digit(data[start + 1]) * 10 + digit(data[start + 2])) as u32
    }
}

/// Alphanumeric code of a byte of the charset.
pub open spec fn alnum(b: u8) -> u32 {
    alnum_value(b).unwrap() as u32
}

/// The bits of payload group `k`.
pub open spec fn group_bits(mode: DataMode, data: Seq<u8>, k: int) -> Seq<bool> {
    let start = k * group_len(mode);
    let n = group_size(mode, data.len(), k);
    match mode {
        DataMode::Numeric => bits_of(
            digits_value(data, start, n),
            if n == 1 {
                4
            } else if n == 2 {
                7
            } else {
                10
            },
        ),
        DataMode::Alphanumeric => if n == 2 {
            bits_of((alnum(data[start]) * 45 + alnum(data[start + 1])) as u32, 11)
        } else {
            bits_of(alnum(data[start]), 6)
        },
        DataMode::Byte => bits_of(data[start] as u32, 8),
    }
}

/// The bits of the first `k` payload groups.
pub open spec fn groups_bits(mode: DataMode, data: Seq<u8>, k: int) -> Seq<bool>
    decreases k,
{
    if k <= 0 {
        Seq::empty()
    } else {
        groups_bits(mode, data, k - 1) + group_bits(mode, data, k - 1)
    }
}

/// Number of payload groups of `len` characters.
pub open spec fn group_count(mode: DataMode, len: nat) -> int {
    ((len + group_len(mode) - 1) / (group_len(mode) as int)) as int
}

/// The payload bits of `data` in `mode`.
pub open spec fn payload_bits(mode: DataMode, data: Seq<u8>) -> Seq<bool> {
    groups_bits(mode, data, group_count(mode, data.len()))
}

/// The whole segment: mode indicator, character count, payload.
pub open spec fn segment_bits(version: u8, mode: DataMode, data: Seq<u8>) -> Seq<bool> {
    bits_of(mode_indicator(mode) as u32, 4) + bits_of(data.len() as u32, count_bits(mode, version) as nat)
        + payload_bits(mode, data)
}

/// The pad byte at position `k` of the padding: 0xEC and 0x11 in turn.
pub open spec fn pad_byte(k: int) -> u8 {
    if k % 2 == 0 {
        0xEC
    } else {
        0x11
    }
}

/// The segment bits completed to `capacity` bits: up to four terminator zeros, zeros to the
/// next byte boundary, then pad bytes.
pub open spec fn padded_bits(bits: Seq<bool>, capacity: nat) -> Seq<bool> {
    let terminator = if capacity - bits.len() < 4 {
        (capacity - bits.len()) as nat
    } else {
        4nat
    };
    let ended = bits + Seq::new(terminator, |i: int| false);
    let aligned = ended + Seq::new(((8 - ended.len() % 8) % 8) as nat, |i: int| false);
    let pads = ((capacity - aligned.len()) / 8) as nat;
    aligned + Seq::new(pads * 8, |k: int| bits_of(pad_byte(k / 8) as u32, 8)[k % 8])
}

/// The first `k` groups take as many bits as the table formula says for their characters.
pub proof fn lemma_groups_len(mode: DataMode, data: Seq<u8>, k: int)
    requires
        0 <= k,
        k * group_len(mode) <= data.len(),
    ensures
        groups_bits(mode, data, k).len() == payload_bits_len(mode, (k * group_len(mode)) as nat),
    decreases k,
{
    if k > 0 {
        lemma_groups_len(mode, data, k - 1);
        match mode {
            DataMode::Numeric => {
                assert(((k - 1) * 3) / 3 == k - 1);
                assert((k * 3) / 3 == k);
                assert((k * 3) % 3 == 0);
                assert(((k - 1) * 3) % 3 == 0);
            },
            DataMode::Alphanumeric => {
                assert(((k - 1) * 2) / 2 == k - 1);
                assert((k * 2) / 2 == k);
                assert((k * 2) % 2 == 0);
                assert(((k - 1) * 2) % 2 == 0);
            },
            DataMode::Byte => {},
        }
    }
}

/// The payload takes as many bits as the table formula says.
pub proof fn lemma_payload_len(mode: DataMode, data: Seq<u8>)
    ensures
        payload_bits(mode, data).len() == payload_bits_len(mode, data.len()),
        segment_bits(0, mode, data).len() >= 0,
{
    let g = group_len(mode) as int;
    let len = data.len() as int;
    let full = len / g;
    lemma_groups_len(mode, data, full);
    assert(full * g <= len) by (nonlinear_arith)
        requires
            g > 0,
            full == len / g,
    ;
    let count = group_count(mode, data.len());
    if len % g == 0 {
        assert(count == full);
        assert(full * g == len);
    } else {
        assert(count == full + 1);
        assert(len == full * g + len % g);
        assert(groups_bits(mode, data, full + 1).len() == groups_bits(mode, data, full).len() + group_bits(mode, data, full).len());
        match mode {
            DataMode::Numeric => {
                assert(group_size(mode, data.len(), full) == len % 3);
            },
            DataMode::Alphanumeric => {
                assert(group_size(mode, data.len(), full) == 1);
            },
            DataMode::Byte => {},
        }
    }
}

/// Whether `data` consists of digits only.
fn all_digits(data: &[u8]) -> (r: bool)
    ensures
        r == valid_for(DataMode::Numeric, data@),
{
    let mut i: usize = 0;
    while i < data.len()
        invariant
            i <= data.len(),
            forall|j: int| 0 <= j < i ==> is_digit(#[trigger] data@[j]),
        decreases data.len() - i,
    {
        if !(48 <= data[i] && data[i] <= 57) {
            return false;
        }
        i = i + 1;
    }
    true
}

/// Whether every byte of `data` is in the alphanumeric charset.
fn all_alphanumeric(data: &[u8]) -> (r: bool)
    ensures
        r == valid_for(DataMode::Alphanumeric, data@),
{
    let mut i: usize = 0;
    while i < data.len()
        invariant
            i <= data.len(),
            forall|j: int| 0 <= j < i ==> (#[trigger] alnum_value(data@[j])) is Some,
        decreases data.len() - i,
    {
        if alphanumeric_value(data[i]).is_none() {
            return false;
        }
        i = i + 1;
    }
    true
}

/// The most compact mode for text: numeric if all digits, else alphanumeric if all in the
/// charset, else bytes.
pub fn classify_text(data: &[u8]) -> (r: DataMode)
    ensures
        r == if valid_for(DataMode::Numeric, data@) {
            DataMode::Numeric
        } else if valid_for(DataMode::Alphanumeric, data@) {
            DataMode::Alphanumeric
        } else {
            DataMode::Byte
        },
{
    if all_digits(data) {
        DataMode::Numeric
    } else if all_alphanumeric(data) {
        DataMode::Alphanumeric
    } else {
        DataMode::Byte
    }
}

/// Appends the payload bits of `data` in `mode`; fails if a byte cannot be carried.
fn append_payload(bits: &mut BitBuffer, mode: DataMode, data: &[u8]) -> (r: Result<(), QrError>)
    requires
        old(bits).wf(),
        old(bits)@.len() <= 64,
        data.len() <= 65535,
    ensures
        final(bits).wf(),
        r is Ok <==> valid_for(mode, data@),
        r is Err ==> r == Err::<(), QrError>(QrError::InvalidCharacter),
        r is Ok ==> final(bits)@ == old(bits)@ + payload_bits(mode, data@),
{
    let ghost start = bits@;
    let len = data.len();
    match mode {
        DataMode::Numeric => {
            let mut i: usize = 0;
            while i < len
                invariant
                    bits.wf(),
                    len == data.len(),
                    len <= 65535,
                    i % 3 == 0,
                    i <= len + 2,
                    i < len ==> i <= len,
                    bits@ == start + groups_bits(mode, data@, i as int / 3),
                    bits@.len() <= 64 + 10 * (i as int / 3),
                    mode == DataMode::Numeric,
                    forall|j: int| 0 <= j < i && j < len ==> is_digit(#[trigger] data@[j]),
                decreases len + 3 - i,
            {
                let n = if len - i < 3 {
                    len - i
                } else {
                    3
                };
                let mut value: u32 = 0;
                let mut j: usize = 0;
                while j < n
                    invariant
                        bits.wf(),
                        mode == DataMode::Numeric,
                        len == data.len(),
                        i < len,
                        1 <= n <= 3,
                        i + n <= len,
                        j <= n,
                        value < 1000,
                        value == if j == 0 {
                            0u32
                        } else {
                            digits_value(data@, i as int, j as int)
                        },
                        forall|jj: int| 0 <= jj < i + j && jj < len ==> is_digit(#[trigger] data@[jj]),
                        forall|jj: int| 0 <= jj < i ==> is_digit(#[trigger] data@[jj]),
                    decreases n - j,
                {
                    let byte = data[i + j];
                    if !(48 <= byte && byte <= 57) {
                        return Err(QrError::InvalidCharacter);
                    }
                    value = value * 10 + (byte - 48) as u32;
                    j = j + 1;
                }
                let width: u8 = if n == 1 {
                    4
                } else if n == 2 {
                    7
                } else {
                    10
                };
                proof {
                    assert(group_size(mode, data@.len(), i as int / 3) == n);
                    assert((i as int / 3) * 3 == i);
                }
                bits.append_bits(value, width);
                proof {
                    assert(bits@ == start + groups_bits(mode, data@, i as int / 3 + 1));
                    assert((i + 3) as int / 3 == i as int / 3 + 1);
                }
                i = i + 3;
            }
            proof {
                assert(i as int / 3 == group_count(mode, data@.len()));
            }
        },
        DataMode::Alphanumeric => {
            let mut i: usize = 0;
            while i < len
                invariant
                    bits.wf(),
                    len == data.len(),
                    len <= 65535,
                    i % 2 == 0,
                    i <= len + 1,
                    bits@ == start + groups_bits(mode, data@, i as int / 2),
                    bits@.len() <= 64 + 11 * (i as int / 2),
                    mode == DataMode::Alphanumeric,
                    forall|j: int| 0 <= j < i && j < len ==> (#[trigger] alnum_value(data@[j])) is Some,
                decreases len + 2 - i,
            {
                let first = match alphanumeric_value(data[i]) {
                    Some(v) => v as u32,
                    None => {
                        return Err(QrError::InvalidCharacter);
                    },
                };
                proof {
                    assert((i as int / 2) * 2 == i);
                }
                if i + 1 < len {
                    let second = match alphanumeric_value(data[i + 1]) {
                        Some(v) => v as u32,
                        None => {
                            return Err(QrError::InvalidCharacter);
                        },
                    };
                    proof {
                        assert(group_size(mode, data@.len(), i as int / 2) == 2);
                    }
                    bits.append_bits(first * 45 + second, 11);
                } else {
                    proof {
                        assert(group_size(mode, data@.len(), i as int / 2) == 1);
                    }
                    bits.append_bits(first, 6);
                }
                proof {
                    assert(bits@ == start + groups_bits(mode, data@, i as int / 2 + 1));
                    assert((i + 2) as int / 2 == i as int / 2 + 1);
                }
                i = i + 2;
            }
            proof {
                assert(i as int / 2 == group_count(mode, data@.len()));
            }
        },
        DataMode::Byte => {
            let mut i: usize = 0;
            while i < len
                invariant
                    bits.wf(),
                    len == data.len(),
                    len <= 65535,
                    i <= len,
                    bits@ == start + groups_bits(mode, data@, i as int),
                    bits@.len() <= 64 + 8 * i,
                    mode == DataMode::Byte,
                decreases len - i,
            {
                proof {
                    assert(group_size(mode, data@.len(), i as int) == 1);
                }
                bits.append_byte(data[i]);
                i = i + 1;
            }
            proof {
                assert(i as int == group_count(mode, data@.len()));
            }
        },
    }
    Ok(())
}

/// The data codewords of a segment in `version` at `ecc`: the segment, terminator, alignment
/// and padding, packed into bytes. Fails when the character count does not fit its field or
/// when a byte cannot be carried in `mode`.
#[verifier::rlimit(40)]
pub(crate) fn build_data_codewords(
    version: Version,
    ecc: ErrorCorrectionLevel,
    mode: DataMode,
    data: &[u8],
) -> (r: Result<Vec<u8>, QrError>)
    requires
        data.len() <= 65535,
        segment_bits_len(version@, mode, data.len() as nat) <= data_codewords(version@ as nat, ecc) * 8,
    ensures
        data.len() >= two_pow(count_bits(mode, version@) as nat) ==> r == Err::<Vec<u8>, QrError>(QrError::DataTooLong),
        data.len() < two_pow(count_bits(mode, version@) as nat) && !valid_for(mode, data@) ==> r == Err::<Vec<u8>, QrError>(QrError::InvalidCharacter),
        data.len() < two_pow(count_bits(mode, version@) as nat) && valid_for(mode, data@) ==> r is Ok,
        r matches Ok(bytes) ==> bytes@.len() == data_codewords(version@ as nat, ecc) && bits_of_bytes(bytes@)
            == padded_bits(segment_bits(version@, mode, data@), data_codewords(version@ as nat, ecc) * 8),
{
    let codewords = num_data_codewords(version, ecc);
    let capacity = codewords * 8;
    let count_width = mode.char_count_bits(version);
    let mut limit: usize = 1;
    let mut k: u8 = 0;
    while k < count_width
        invariant
            k <= count_width,
            count_width <= 16,
            limit == two_pow(k as nat),
        decreases count_width - k,
    {
        proof {
            lemma_two_pow_monotone(k as nat, 15);
            reveal_with_fuel(two_pow, 16);
        }
        limit = limit * 2;
        k = k + 1;
    }
    if data.len() >= limit {
        return Err(QrError::DataTooLong);
    }
    let ghost seg = segment_bits(version@, mode, data@);
    proof {
        lemma_payload_len(mode, data@);
    }
    let mut bits = BitBuffer::with_capacity_bits(capacity);
    bits.append_bits(mode.mode_bits() as u32, 4);
    bits.append_bits(data.len() as u32, count_width);
    match append_payload(&mut bits, mode, data) {
        Ok(()) => {},
        Err(e) => {
            return Err(e);
        },
    }
    proof {
        assert(bits@ =~= seg);
    }
    let remaining = capacity - bits.bit_len();
    let terminator = if remaining < 4 {
        remaining
    } else {
        4
    };
    bits.append_bits(0, terminator as u8);
    proof {
        lemma_bits_of_zero(terminator as nat);
    }
    let ghost ended = bits@;
    let ghost fill = ((8 - ended.len() % 8) % 8) as nat;
    while bits.bit_len() % 8 != 0
        invariant
            bits.wf(),
            capacity % 8 == 0,
            capacity <= 29648,
            ended.len() <= capacity,
            fill == ((8 - ended.len() % 8) % 8) as nat,
            ended.len() <= bits@.len() <= ended.len() + fill,
            bits@ == ended + Seq::new((bits@.len() - ended.len()) as nat, |i: int| false),
        decreases capacity + 8 - bits@.len(),
    {
        let ghost before = bits@;
        bits.append_bits(0, 1);
        proof {
            lemma_bits_of_zero(1);
            assert(bits@ =~= ended + Seq::new((bits@.len() - ended.len()) as nat, |i: int| false));
        }
    }
    let ghost aligned = bits@;
    proof {
        assert(aligned.len() == ended.len() + fill);
        assert(aligned =~= ended + Seq::new(fill, |i: int| false));
    }
    let mut pad: u8 = 0xEC;
    let mut count: usize = 0;
    while bits.bit_len() < capacity
        invariant
            bits.wf(),
            capacity % 8 == 0,
            capacity <= 29648,
            aligned.len() % 8 == 0,
            aligned.len() <= capacity,
            bits@.len() == aligned.len() + 8 * count,
            bits@.len() <= capacity,
            pad == pad_byte(count as int),
            bits@ == aligned + Seq::new((count * 8) as nat, |k: int| bits_of(pad_byte(k / 8) as u32, 8)[k % 8]),
        decreases capacity - bits@.len(),
    {
        bits.append_byte(pad);
        proof {
            let next = aligned + Seq::new(((count + 1) * 8) as nat, |k: int| bits_of(pad_byte(k / 8) as u32, 8)[k % 8]);
            assert forall|k: int| 0 <= k < bits@.len() implies bits@[k] == next[k] by {
                if k >= aligned.len() + 8 * count {
                    let kk = k - aligned.len();
                    assert(kk / 8 == count);
                    assert(kk % 8 == k - aligned.len() - 8 * count);
                }
            }
            assert(bits@ =~= next);
        }
        pad = if pad == 0xEC {
            0x11
        } else {
            0xEC
        };
        count = count + 1;
    }
    proof {
        assert(count == (capacity - aligned.len()) / 8);
        assert(bits@ =~= padded_bits(seg, capacity as nat));
    }
    let bytes = bits.into_bytes();
    proof {
        assert(bits_of_bytes(bytes@) =~= padded_bits(seg, capacity as nat));
    }
    Ok(bytes)
}

} // verus!

//! Reading the segments of a decoded bit stream: numeric, alphanumeric, byte
//! and ECI segments, up to the terminator.

use vstd::prelude::*;

use crate::bit_buffer::{bits_of_bytes, byte_bit};
use crate::error::QrError;
use crate::penalty::pack_bits;
use crate::tables::{alphanumeric_char, ALPHANUMERIC_CHARSET};
use crate::text::{compact_chars, utf8_text};
use crate::types::{count_bits, DataMode, Version};
use compact_str::CompactString;
use vstd::utf8::{decode_utf8, valid_utf8};

verus! {

/// The ASCII digit of a value below ten.
pub open spec fn digit_char(d: int) -> u8 {
    (d + 48) as u8
}

/// The digits of the first `groups` ten-bit groups from `pos`; fails at a missing group or
/// at a group value of 1000 or more.
pub open spec fn numeric_groups(bits: Seq<bool>, pos: int, groups: int) -> Result<Seq<u8>, QrError>
    decreases groups,
{
    if groups <= 0 {
        Ok(Seq::empty())
    } else if pos + 10 > bits.len() {
        Err(QrError::MissingTerminator)
    } else {
        let v = pack_bits(bits, pos, 10) as int;
        if v >= 1000 {
            Err(QrError::Checksum)
        } else {
            match numeric_groups(bits, pos + 10, groups - 1) {
                Ok(rest) => Ok(seq![digit_char(v / 100), digit_char((v / 10) % 10), digit_char(v % 10)] + rest),
                Err(e) => Err(e),
            }
        }
    }
}

/// Bits taken by `count` characters of `mode`.
pub open spec fn segment_span(mode: DataMode, count: int) -> int {
    match mode {
        DataMode::Numeric => 10 * (count / 3) + if count % 3 == 1 {
            4int
        } else if count % 3 == 2 {
            7int
        } else {
            0int
        },
        DataMode::Alphanumeric => 11 * (count / 2) + 6 * (count % 2),
        DataMode::Byte => 8 * count,
    }
}

/// The digits of a numeric segment of `count` characters from `pos`.
pub open spec fn numeric_decoded(bits: Seq<bool>, pos: int, count: int) -> Result<Seq<u8>, QrError> {
    let after = pos + 10 * (count / 3);
    match numeric_groups(bits, pos, count / 3) {
        Err(e) => Err(e),
        Ok(d) => if count % 3 == 1 {
            if after + 4 > bits.len() {
                Err(QrError::MissingTerminator)
            } else if pack_bits(bits, after, 4) >= 10 {
                Err(QrError::Checksum)
            } else {
                Ok(d.push(digit_char(pack_bits(bits, after, 4) as int)))
            }
        } else if count % 3 == 2 {
            if after + 7 > bits.len() {
                Err(QrError::MissingTerminator)
            } else if pack_bits(bits, after, 7) >= 100 {
                Err(QrError::Checksum)
            } else {
                let v = pack_bits(bits, after, 7) as int;
                Ok(d.push(digit_char(v / 10)).push(digit_char(v % 10)))
            }
        } else {
            Ok(d)
        },
    }
}

/// The charset byte of an alphanumeric code.
pub open spec fn alnum_char(v: int) -> u8 {
    ALPHANUMERIC_CHARSET@[v]
}

/// The characters of the first `pairs` eleven-bit pairs from `pos`; fails at a missing pair or
/// at a pair whose first code is 45 or more.
pub open spec fn alphanumeric_pairs(bits: Seq<bool>, pos: int, pairs: int) -> Result<Seq<u8>, QrError>
    decreases pairs,
{
    if pairs <= 0 {
        Ok(Seq::empty())
    } else if pos + 11 > bits.len() {
        Err(QrError::MissingTerminator)
    } else {
        let v = pack_bits(bits, pos, 11) as int;
        if v / 45 >= 45 {
            Err(QrError::Checksum)
        } else {
            match alphanumeric_pairs(bits, pos + 11, pairs - 1) {
                Ok(rest) => Ok(seq![alnum_char(v / 45), alnum_char(v % 45)] + rest),
                Err(e) => Err(e),
            }
        }
    }
}

/// The characters of an alphanumeric segment of `count` characters from `pos`.
pub open spec fn alphanumeric_decoded(bits: Seq<bool>, pos: int, count: int) -> Result<Seq<u8>, QrError> {
    let after = pos + 11 * (count / 2);
    match alphanumeric_pairs(bits, pos, count / 2) {
        Err(e) => Err(e),
        Ok(d) => if count % 2 == 1 {
            if after + 6 > bits.len() {
                Err(QrError::MissingTerminator)
            } else if pack_bits(bits, after, 6) >= 45 {
                Err(QrError::Checksum)
            } else {
                Ok(d.push(alnum_char(pack_bits(bits, after, 6) as int)))
            }
        } else {
            Ok(d)
        },
    }
}

/// The bytes of a byte segment of `count` bytes from `pos`.
pub open spec fn bytes_decoded(bits: Seq<bool>, pos: int, count: int) -> Result<Seq<u8>, QrError> {
    if pos + 8 * count > bits.len() {
        Err(QrError::MissingTerminator)
    } else {
        Ok(Seq::new(count as nat, |i: int| pack_bits(bits, pos + 8 * i, 8) as u8))
    }
}

/// The characters of a segment of `mode` with `count` characters from `pos`.
pub open spec fn segment_decoded(mode: DataMode, bits: Seq<bool>, pos: int, count: int) -> Result<Seq<u8>, QrError> {
    match mode {
        DataMode::Numeric => numeric_decoded(bits, pos, count),
        DataMode::Alphanumeric => alphanumeric_decoded(bits, pos, count),
        DataMode::Byte => bytes_decoded(bits, pos, count),
    }
}

/// An ECI designator from `pos`: the assignment number and the bits it takes.
pub open spec fn eci_decoded(bits: Seq<bool>, pos: int) -> Result<(int, int), QrError> {
    if pos + 8 > bits.len() {
        Err(QrError::MissingTerminator)
    } else {
        let first = pack_bits(bits, pos, 8) as int;
        if first < 0x80 {
            Ok((first, 8))
        } else if first < 0xC0 {
            if pos + 16 > bits.len() {
                Err(QrError::MissingTerminator)
            } else {
                Ok(((first - 0x80) * 256 + pack_bits(bits, pos + 8, 8), 16))
            }
        } else if first < 0xE0 {
            if pos + 24 > bits.len() {
                Err(QrError::MissingTerminator)
            } else {
                Ok(((first - 0xC0) * 65536 + pack_bits(bits, pos + 8, 16), 24))
            }
        } else {
            Err(QrError::Checksum)
        }
    }
}

/// The mode of a mode indicator, for the three data modes.
pub open spec fn indicator_mode(indicator: int) -> DataMode {
    if indicator == 1 {
        DataMode::Numeric
    } else if indicator == 2 {
        DataMode::Alphanumeric
    } else {
        DataMode::Byte
    }
}

/// What the segment at `pos` is: the terminator, a failure, a data segment with its
/// characters and the position after it, or an ECI designator with its assignment number and
/// the position after it.
pub enum Step {
    Stop,
    Fail(QrError),
    Data(Seq<u8>, int),
    Eci(int, int),
}

/// The segment at `pos`.
pub open spec fn segment_step(bits: Seq<bool>, pos: int, version: u8) -> Step {
    if pos < 0 || bits.len() - pos < 4 {
        Step::Stop
    } else {
        let indicator = pack_bits(bits, pos, 4) as int;
        if indicator == 0 {
            Step::Stop
        } else if indicator == 1 || indicator == 2 || indicator == 4 {
            let mode = indicator_mode(indicator);
            let width = count_bits(mode, version) as int;
            let start = pos + 4 + width;
            if start > bits.len() {
                Step::Fail(QrError::MissingTerminator)
            } else {
                let count = pack_bits(bits, pos + 4, width as nat) as int;
                match segment_decoded(mode, bits, start, count) {
                    Err(e) => Step::Fail(e),
                    Ok(d) => Step::Data(d, start + segment_span(mode, count)),
                }
            }
        } else if indicator == 7 {
            match eci_decoded(bits, pos + 4) {
                Err(e) => Step::Fail(e),
                Ok((assignment, width)) => Step::Eci(assignment, pos + 4 + width),
            }
        } else {
            Step::Fail(QrError::UnsupportedMode(indicator as u8))
        }
    }
}

/// The segments from `pos` to the terminator (a zero mode indicator or fewer than four bits
/// left): the bytes they carry, and whether every ECI designator among them is UTF-8 (26).
pub open spec fn segments(bits: Seq<bool>, pos: int, version: u8) -> Result<(Seq<u8>, bool), QrError>
    decreases bits.len() - pos,
{
    match segment_step(bits, pos, version) {
        Step::Stop => Ok((Seq::empty(), true)),
        Step::Fail(e) => Err(e),
        Step::Data(d, next) => if next <= pos || next > bits.len() {
            Err(QrError::MissingTerminator)
        } else {
            match segments(bits, next, version) {
                Ok((rest, utf8)) => Ok((d + rest, utf8)),
                Err(e) => Err(e),
            }
        },
        Step::Eci(assignment, next) => if next <= pos || next > bits.len() {
            Err(QrError::MissingTerminator)
        } else {
            match segments(bits, next, version) {
                Ok((rest, utf8)) => Ok((rest, utf8 && assignment == 26)),
                Err(e) => Err(e),
            }
        },
    }
}

/// The outcome of reading `width` bits at `pos`: the number they make and the position after
/// them, or `MissingTerminator` with the position kept when fewer are left.
pub open spec fn read_outcome(bits: Seq<bool>, pos: int, width: nat, r: Result<u32, QrError>, after: int) -> bool {
    if pos + width > bits.len() {
        r == Err::<u32, QrError>(QrError::MissingTerminator) && after == pos
    } else {
        r == Ok::<u32, QrError>(pack_bits(bits, pos, width) as u32) && after == pos + width
    }
}

/// Reads bits from a byte slice, most significant bit first.
struct BitReader {
    bytes: Vec<u8>,
    bit_len: usize,
    bit_offset: usize,
}

impl BitReader {
    /// The bits of the slice.
    spec fn bits(&self) -> Seq<bool> {
        bits_of_bytes(self.bytes@)
    }

    /// Position of the next bit; the slice is at most 65535 bytes.
    spec fn inv(&self) -> bool {
        &&& self.bit_len == self.bytes@.len() * 8
        &&& self.bit_offset <= self.bit_len
        &&& self.bytes@.len() <= 65535
    }

    /// A reader at the first bit.
    fn new(bytes: &[u8]) -> (r: Self)
        requires
            bytes@.len() <= 65535,
        ensures
            r.inv(),
            r.bytes@ == bytes@,
            r.bit_offset == 0,
    {
        let bit_len = bytes.len() * 8;
        BitReader { bytes: vstd::slice::slice_to_vec(bytes), bit_len, bit_offset: 0 }
    }

    /// Bits left.
    fn remaining(&self) -> (r: usize)
        requires
            self.inv(),
        ensures
            r == self.bits().len() - self.bit_offset,
    {
        self.bit_len - self.bit_offset
    }

    /// The next `width` bits as a number; `MissingTerminator`, reading nothing, if fewer are left.
    fn read(&mut self, width: u8) -> (r: Result<u32, QrError>)
        requires
            old(self).inv(),
            width <= 16,
        ensures
            final(self).inv(),
            final(self).bytes@ == old(self).bytes@,
            old(self).bit_offset + width > old(self).bits().len() ==> r == Err::<u32, QrError>(QrError::MissingTerminator)
                && final(self).bit_offset == old(self).bit_offset,
            old(self).bit_offset + width <= old(self).bits().len() ==> r == Ok::<u32, QrError>(
                pack_bits(old(self).bits(), old(self).bit_offset as int, width as nat) as u32,
            ) && final(self).bit_offset == old(self).bit_offset + width,
            r matches Ok(v) ==> v < 65536,
    {
        let width = width as usize;
        if self.bit_offset + width > self.bit_len {
            return Err(QrError::MissingTerminator);
        }
        let ghost start = self.bit_offset as int;
        let ghost bits = self.bits();
        let mut value: u32 = 0;
        let mut k: usize = 0;
        while k < width
            invariant
                self.inv(),
                self.bytes@ == old(self).bytes@,
                bits == self.bits(),
                width <= 16,
                start + width <= bits.len(),
                k <= width,
                self.bit_offset == start + k,
                value == pack_bits(bits, start, k as nat),
                value < crate::bit_buffer::two_pow(k as nat),
            decreases width - k,
        {
            proof {
                crate::bit_buffer::lemma_two_pow_monotone(k as nat, 15);
                reveal_with_fuel(crate::bit_buffer::two_pow, 16);
            }
            let byte = self.bytes[self.bit_offset / 8];
            let shift = (7 - (self.bit_offset % 8)) as u8;
            let bit = (byte >> shift) & 1u8;
            proof {
                assert(bit == 0u8 || bit == 1u8) by (bit_vector)
                    requires
                        bit == (byte >> shift) & 1u8,
                ;
                assert(bits[start + k] == byte_bit(byte, (self.bit_offset % 8) as int));
            }
            value = value * 2 + bit as u32;
            self.bit_offset = self.bit_offset + 1;
            k = k + 1;
        }
        proof {
            crate::bit_buffer::lemma_two_pow_monotone(width as nat, 16);
            reveal_with_fuel(crate::bit_buffer::two_pow, 17);
        }
        Ok(value)
    }

    /// Reads a numeric character count, as wide as the version asks.
    fn read_numeric_count(&mut self, version: Version) -> (r: Result<u32, QrError>)
        requires
            old(self).inv(),
        ensures
            final(self).inv(),
            final(self).bytes@ == old(self).bytes@,
            read_outcome(old(self).bits(), old(self).bit_offset as int, count_bits(DataMode::Numeric, version@) as nat, r, final(self).bit_offset as int),
    {
        let width: u8 = if version.value() <= 9 {
            10
        } else if version.value() <= 26 {
            12
        } else {
            14
        };
        self.read(width)
    }

    /// Reads an alphanumeric character count, as wide as the version asks.
    fn read_alphanumeric_count(&mut self, version: Version) -> (r: Result<u32, QrError>)
        requires
            old(self).inv(),
        ensures
            final(self).inv(),
            final(self).bytes@ == old(self).bytes@,
            read_outcome(old(self).bits(), old(self).bit_offset as int, count_bits(DataMode::Alphanumeric, version@) as nat, r, final(self).bit_offset as int),
    {
        let width: u8 = if version.value() <= 9 {
            9
        } else if version.value() <= 26 {
            11
        } else {
            13
        };
        self.read(width)
    }

    /// Reads a byte count, as wide as the version asks.
    fn read_byte_count(&mut self, version: Version) -> (r: Result<u32, QrError>)
        requires
            old(self).inv(),
        ensures
            final(self).inv(),
            final(self).bytes@ == old(self).bytes@,
            read_outcome(old(self).bits(), old(self).bit_offset as int, count_bits(DataMode::Byte, version@) as nat, r, final(self).bit_offset as int),
    {
        let width: u8 = if version.value() <= 9 {
            8
        } else {
            16
        };
        self.read(width)
    }
}

/// A number read from `count` bits is below 2 to the `count`.
pub proof fn lemma_pack_bits_bound(s: Seq<bool>, start: int, count: nat)
    ensures
        pack_bits(s, start, count) < crate::bit_buffer::two_pow(count),
    decreases count,
{
    if count > 0 {
        lemma_pack_bits_bound(s, start, (count - 1) as nat);
    }
}

/// A number read from at most 16 bits is below 65536.
pub proof fn lemma_pack_bits_16(s: Seq<bool>, start: int, count: nat)
    requires
        count <= 16,
    ensures
        pack_bits(s, start, count) < 65536,
{
    lemma_pack_bits_bound(s, start, count);
    crate::bit_buffer::lemma_two_pow_monotone(count, 16);
    reveal_with_fuel(crate::bit_buffer::two_pow, 17);
}

/// Decodes a numeric segment of `count` digits into `out`.
fn decode_numeric(reader: &mut BitReader, count: usize, out: &mut Vec<u8>) -> (r: Result<(), QrError>)
    requires
        old(reader).inv(),
    ensures
        final(reader).inv(),
        final(reader).bytes@ == old(reader).bytes@,
        match numeric_decoded(old(reader).bits(), old(reader).bit_offset as int, count as int) {
            Ok(d) => r is Ok && final(out)@ == old(out)@ + d && final(reader).bit_offset == old(reader).bit_offset
                + segment_span(DataMode::Numeric, count as int),
            Err(e) => r == Err::<(), QrError>(e),
        },
{
    let ghost bits = reader.bits();
    let ghost pos0 = reader.bit_offset as int;
    let ghost out0 = out@;
    let groups = count / 3;
    let rem = count % 3;
    let mut g: usize = 0;
    while g < groups
        invariant
            reader.inv(),
            reader.bytes@ == old(reader).bytes@,
            bits == reader.bits(),
            pos0 == old(reader).bit_offset,
            out0 == old(out)@,
            groups == count / 3,
            g <= groups,
            reader.bit_offset == pos0 + 10 * g,
            out@.len() == out0.len() + 3 * g,
            numeric_groups(bits, pos0, groups as int) == match numeric_groups(bits, reader.bit_offset as int, groups - g) {
                Ok(rest) => Ok::<Seq<u8>, QrError>(out@.subrange(out0.len() as int, out@.len() as int) + rest),
                Err(e) => Err(e),
            },
            out@.subrange(0, out0.len() as int) == out0,
        decreases groups - g,
    {
        let ghost pos = reader.bit_offset as int;
        let value = match reader.read(10) {
            Ok(v) => v,
            Err(e) => {
                return Err(e);
            },
        };
        proof {
            lemma_pack_bits_16(bits, pos, 10);
        }
        if value >= 1000 {
            return Err(QrError::Checksum);
        }
        let ghost before = out@;
        out.push((value / 100) as u8 + 48);
        out.push(((value / 10) % 10) as u8 + 48);
        out.push((value % 10) as u8 + 48);
        proof {
            let old_prefix = before.subrange(out0.len() as int, before.len() as int);
            let three = seq![digit_char(value as int / 100), digit_char((value as int / 10) % 10), digit_char(value as int % 10)];
            assert(out@.subrange(out0.len() as int, out@.len() as int) =~= old_prefix + three);
            assert(out@.subrange(0, out0.len() as int) =~= before.subrange(0, out0.len() as int));
            assert(pack_bits(bits, pos, 10) == value);
            assert(numeric_groups(bits, pos, groups - g) == match numeric_groups(bits, pos + 10, groups - g - 1) {
                Ok(rest) => Ok::<Seq<u8>, QrError>(three + rest),
                Err(e) => Err(e),
            });
            match numeric_groups(bits, pos + 10, groups - g - 1) {
                Ok(rest) => {
                    assert(old_prefix + (three + rest) =~= (old_prefix + three) + rest);
                },
                Err(e) => {},
            }
        }
        g = g + 1;
    }
    let ghost produced = out@.subrange(out0.len() as int, out@.len() as int);
    proof {
        assert(numeric_groups(bits, pos0, groups as int) == Ok::<Seq<u8>, QrError>(produced + Seq::<u8>::empty()));
        assert(produced + Seq::<u8>::empty() =~= produced);
        assert(out@ =~= out0 + produced);
    }
    if rem == 1 {
        let ghost pos = reader.bit_offset as int;
        let value = match reader.read(4) {
            Ok(v) => v,
            Err(e) => {
                return Err(e);
            },
        };
        proof {
            lemma_pack_bits_16(bits, pos, 4);
        }
        if value >= 10 {
            return Err(QrError::Checksum);
        }
        out.push(value as u8 + 48);
        proof {
            assert(out@ =~= out0 + produced.push(digit_char(value as int)));
        }
    } else if rem == 2 {
        let ghost pos = reader.bit_offset as int;
        let value = match reader.read(7) {
            Ok(v) => v,
            Err(e) => {
                return Err(e);
            },
        };
        proof {
            lemma_pack_bits_16(bits, pos, 7);
        }
        if value >= 100 {
            return Err(QrError::Checksum);
        }
        out.push((value / 10) as u8 + 48);
        out.push((value % 10) as u8 + 48);
        proof {
            assert(out@ =~= out0 + produced.push(digit_char(value as int / 10)).push(digit_char(value as int % 10)));
        }
    }
    Ok(())
}

/// Decodes an alphanumeric segment of `count` characters into `out`.
fn decode_alphanumeric(reader: &mut BitReader, count: usize, out: &mut Vec<u8>) -> (r: Result<(), QrError>)
    requires
        old(reader).inv(),
    ensures
        final(reader).inv(),
        final(reader).bytes@ == old(reader).bytes@,
        match alphanumeric_decoded(old(reader).bits(), old(reader).bit_offset as int, count as int) {
            Ok(d) => r is Ok && final(out)@ == old(out)@ + d && final(reader).bit_offset == old(reader).bit_offset
                + segment_span(DataMode::Alphanumeric, count as int),
            Err(e) => r == Err::<(), QrError>(e),
        },
{
    let ghost bits = reader.bits();
    let ghost pos0 = reader.bit_offset as int;
    let ghost out0 = out@;
    let pairs = count / 2;
    let rem = count % 2;
    let mut g: usize = 0;
    while g < pairs
        invariant
            reader.inv(),
            reader.bytes@ == old(reader).bytes@,
            bits == reader.bits(),
            pos0 == old(reader).bit_offset,
            out0 == old(out)@,
            pairs == count / 2,
            g <= pairs,
            reader.bit_offset == pos0 + 11 * g,
            out@.len() == out0.len() + 2 * g,
            alphanumeric_pairs(bits, pos0, pairs as int) == match alphanumeric_pairs(bits, reader.bit_offset as int, pairs - g) {
                Ok(rest) => Ok::<Seq<u8>, QrError>(out@.subrange(out0.len() as int, out@.len() as int) + rest),
                Err(e) => Err(e),
            },
            out@.subrange(0, out0.len() as int) == out0,
        decreases pairs - g,
    {
        let ghost pos = reader.bit_offset as int;
        let value = match reader.read(11) {
            Ok(v) => v,
            Err(e) => {
                return Err(e);
            },
        };
        proof {
            lemma_pack_bits_16(bits, pos, 11);
        }
        let first = value / 45;
        let second = value % 45;
        if first >= 45 || second >= 45 {
            return Err(QrError::Checksum);
        }
        let ghost before = out@;
        out.push(alphanumeric_char(first as u8));
        out.push(alphanumeric_char(second as u8));
        proof {
            let old_prefix = before.subrange(out0.len() as int, before.len() as int);
            let two = seq![alnum_char(value as int / 45), alnum_char(value as int % 45)];
            assert(out@.subrange(out0.len() as int, out@.len() as int) =~= old_prefix + two);
            assert(out@.subrange(0, out0.len() as int) =~= before.subrange(0, out0.len() as int));
            assert(pack_bits(bits, pos, 11) == value);
            match alphanumeric_pairs(bits, pos + 11, pairs - g - 1) {
                Ok(rest) => {
                    assert(old_prefix + (two + rest) =~= (old_prefix + two) + rest);
                },
                Err(e) => {},
            }
        }
        g = g + 1;
    }
    let ghost produced = out@.subrange(out0.len() as int, out@.len() as int);
    proof {
        assert(produced + Seq::<u8>::empty() =~= produced);
        assert(out@ =~= out0 + produced);
    }
    if rem == 1 {
        let ghost pos = reader.bit_offset as int;
        let value = match reader.read(6) {
            Ok(v) => v,
            Err(e) => {
                return Err(e);
            },
        };
        proof {
            lemma_pack_bits_16(bits, pos, 6);
        }
        if value >= 45 {
            return Err(QrError::Checksum);
        }
        out.push(alphanumeric_char(value as u8));
        proof {
            assert(out@ =~= out0 + produced.push(alnum_char(value as int)));
        }
    }
    Ok(())
}

/// Reads an ECI designator: its assignment number, in one, two or three bytes.
fn read_eci(reader: &mut BitReader) -> (r: Result<u32, QrError>)
    requires
        old(reader).inv(),
    ensures
        final(reader).inv(),
        final(reader).bytes@ == old(reader).bytes@,
        match eci_decoded(old(reader).bits(), old(reader).bit_offset as int) {
            Ok((assignment, width)) => r == Ok::<u32, QrError>(assignment as u32) && final(reader).bit_offset == old(reader).bit_offset + width
                && assignment < 0x200000,
            Err(e) => r == Err::<u32, QrError>(e),
        },
{
    let ghost bits = reader.bits();
    let ghost pos = reader.bit_offset as int;
    let first = match reader.read(8) {
        Ok(v) => v,
        Err(e) => {
            return Err(e);
        },
    };
    proof {
        lemma_pack_bits_16(bits, pos, 8);
        lemma_pack_bits_16(bits, pos + 8, 8);
        lemma_pack_bits_16(bits, pos + 8, 16);
    }
    if first < 0x80 {
        Ok(first)
    } else if first < 0xC0 {
        let next = match reader.read(8) {
            Ok(v) => v,
            Err(e) => {
                return Err(e);
            },
        };
        Ok((first - 0x80) * 256 + next)
    } else if first < 0xE0 {
        let next = match reader.read(16) {
            Ok(v) => v,
            Err(e) => {
                return Err(e);
            },
        };
        Ok((first - 0xC0) * 65536 + next)
    } else {
        Err(QrError::Checksum)
    }
}

/// Decodes a byte segment of `count` bytes into `out`.
fn decode_bytes(reader: &mut BitReader, count: usize, out: &mut Vec<u8>) -> (r: Result<(), QrError>)
    requires
        old(reader).inv(),
    ensures
        final(reader).inv(),
        final(reader).bytes@ == old(reader).bytes@,
        match bytes_decoded(old(reader).bits(), old(reader).bit_offset as int, count as int) {
            Ok(d) => r is Ok && final(out)@ == old(out)@ + d && final(reader).bit_offset == old(reader).bit_offset
                + segment_span(DataMode::Byte, count as int),
            Err(e) => r == Err::<(), QrError>(e),
        },
{
    let ghost bits = reader.bits();
    let ghost pos0 = reader.bit_offset as int;
    let ghost out0 = out@;
    let mut i: usize = 0;
    while i < count
        invariant
            reader.inv(),
            reader.bytes@ == old(reader).bytes@,
            bits == reader.bits(),
            pos0 == old(reader).bit_offset,
            out0 == old(out)@,
            i <= count,
            reader.bit_offset == pos0 + 8 * i,
            out@ == out0 + Seq::new(i as nat, |j: int| pack_bits(bits, pos0 + 8 * j, 8) as u8),
        decreases count - i,
    {
        let ghost pos = reader.bit_offset as int;
        let value = match reader.read(8) {
            Ok(v) => v,
            Err(e) => {
                return Err(e);
            },
        };
        proof {
            lemma_pack_bits_16(bits, pos, 8);
            lemma_pack_bits_bound(bits, pos, 8);
            reveal_with_fuel(crate::bit_buffer::two_pow, 9);
        }
        out.push(value as u8);
        proof {
            assert(out@ =~= out0 + Seq::new((i + 1) as nat, |j: int| pack_bits(bits, pos0 + 8 * j, 8) as u8));
        }
        i = i + 1;
    }
    Ok(())
}

/// The outcome of decoding a payload: the bytes of its segments, and text when no ECI
/// designator other than UTF-8 occurs and the bytes are valid UTF-8.
pub open spec fn payload_outcome(data: Seq<u8>, version: u8, r: Result<(Vec<u8>, Option<CompactString>), QrError>) -> bool {
    match segments(bits_of_bytes(data), 0, version) {
        Err(e) => r == Err::<(Vec<u8>, Option<CompactString>), QrError>(e),
        Ok((bytes, utf8)) => r matches Ok((b, t)) && b@ == bytes && (t is Some <==> utf8 && valid_utf8(bytes))
            && (t matches Some(s) ==> compact_chars(s) == decode_utf8(bytes)),
    }
}

/// Joins what has been decoded so far with the outcome of the rest.
pub open spec fn joined(prefix: Seq<u8>, utf8: bool, rest: Result<(Seq<u8>, bool), QrError>) -> Result<(Seq<u8>, bool), QrError> {
    match rest {
        Ok((bytes, u)) => Ok((prefix + bytes, utf8 && u)),
        Err(e) => Err(e),
    }
}

/// Decodes a numeric (1), alphanumeric (2) or byte (4) segment whose mode indicator has just
/// been read: its character count, then its characters.
fn decode_data_segment(reader: &mut BitReader, mode: u32, version: Version, out: &mut Vec<u8>) -> (r: Result<(), QrError>)
    requires
        old(reader).inv(),
        mode == 1 || mode == 2 || mode == 4,
        old(reader).bit_offset >= 4,
        pack_bits(old(reader).bits(), old(reader).bit_offset - 4, 4) == mode,
    ensures
        final(reader).inv(),
        final(reader).bytes@ == old(reader).bytes@,
        ({
            let bits = old(reader).bits();
            let pos = old(reader).bit_offset - 4;
            let m = indicator_mode(mode as int);
            let width = count_bits(m, version@) as int;
            let start = pos + 4 + width;
            if start > bits.len() {
                r == Err::<(), QrError>(QrError::MissingTerminator)
            } else {
                let count = pack_bits(bits, pos + 4, width as nat) as int;
                match segment_decoded(m, bits, start, count) {
                    Err(e) => r == Err::<(), QrError>(e),
                    Ok(d) => r is Ok && final(out)@ == old(out)@ + d && final(reader).bit_offset == start + segment_span(m, count),
                }
            }
        }),
{
    let ghost bits = reader.bits();
    let ghost pos = reader.bit_offset - 4;
    let count = if mode == 1 {
        reader.read_numeric_count(version)
    } else if mode == 2 {
        reader.read_alphanumeric_count(version)
    } else {
        reader.read_byte_count(version)
    };
    let count = match count {
        Ok(v) => v,
        Err(e) => {
            return Err(e);
        },
    };
    proof {
        lemma_pack_bits_16(bits, pos + 4, count_bits(indicator_mode(mode as int), version@) as nat);
    }
    if mode == 1 {
        decode_numeric(reader, count as usize, out)
    } else if mode == 2 {
        decode_alphanumeric(reader, count as usize, out)
    } else {
        decode_bytes(reader, count as usize, out)
    }
}

/// Decodes the segment at the reader into `out`; `Ok(false)` at the terminator.
fn decode_segment(reader: &mut BitReader, version: Version, out: &mut Vec<u8>, utf8: &mut bool) -> (r: Result<bool, QrError>)
    requires
        old(reader).inv(),
        old(reader).bits().len() - old(reader).bit_offset >= 4,
    ensures
        final(reader).inv(),
        final(reader).bytes@ == old(reader).bytes@,
        match segment_step(old(reader).bits(), old(reader).bit_offset as int, version@) {
            Step::Stop => r == Ok::<bool, QrError>(false) && final(out)@ == old(out)@ && *final(utf8) == *old(utf8),
            Step::Fail(e) => r == Err::<bool, QrError>(e),
            Step::Data(d, next) => r == Ok::<bool, QrError>(true) && final(out)@ == old(out)@ + d && *final(utf8) == *old(utf8)
                && final(reader).bit_offset == next,
            Step::Eci(assignment, next) => r == Ok::<bool, QrError>(true) && final(out)@ == old(out)@ && *final(utf8) == (*old(utf8)
                && assignment == 26) && final(reader).bit_offset == next,
        },
{
    let ghost bits = reader.bits();
    let ghost pos = reader.bit_offset as int;
    let mode = match reader.read(4) {
        Ok(v) => v,
        Err(e) => {
            return Err(e);
        },
    };
    proof {
        lemma_pack_bits_16(bits, pos, 4);
    }
    if mode == 0 {
        return Ok(false);
    }
    if mode == 1 || mode == 2 || mode == 4 {
        match decode_data_segment(reader, mode, version, out) {
            Ok(()) => Ok(true),
            Err(e) => Err(e),
        }
    } else if mode == 7 {
        let assignment = match read_eci(reader) {
            Ok(v) => v,
            Err(e) => {
                return Err(e);
            },
        };
        if assignment != 26 {
            *utf8 = false;
        }
        Ok(true)
    } else {
        Err(QrError::UnsupportedMode(mode as u8))
    }
}

/// Decodes the segments of the data codewords.
pub(crate) fn decode_payload(data: &[u8], version: Version) -> (r: Result<(Vec<u8>, Option<CompactString>), QrError>)
    requires
        data@.len() <= 65535,
    ensures
        payload_outcome(data@, version@, r),
{
    let mut reader = BitReader::new(data);
    let ghost bits = reader.bits();
    let mut bytes: Vec<u8> = Vec::new();
    let mut utf8_candidate = true;
    loop
        invariant_except_break
            segments(bits, 0, version@) == joined(bytes@, utf8_candidate, segments(bits, reader.bit_offset as int, version@)),
        invariant
            reader.inv(),
            reader.bytes@ == data@,
            bits == reader.bits(),
        ensures
            segments(bits, 0, version@) == Ok::<(Seq<u8>, bool), QrError>((bytes@, utf8_candidate)),
        decreases bits.len() - reader.bit_offset,
    {
        if reader.remaining() < 4 {
            proof {
                assert(bytes@ + Seq::<u8>::empty() =~= bytes@);
            }
            break;
        }
        let ghost pos = reader.bit_offset as int;
        let ghost prefix = bytes@;
        let ghost flag = utf8_candidate;
        match decode_segment(&mut reader, version, &mut bytes, &mut utf8_candidate) {
            Ok(true) => {
                proof {
                    match segment_step(bits, pos, version@) {
                        Step::Data(d, next) => {
                            match segments(bits, next, version@) {
                                Ok((rest, u)) => {
                                    assert(prefix + (d + rest) =~= (prefix + d) + rest);
                                },
                                Err(e) => {},
                            }
                        },
                        _ => {},
                    }
                }
            },
            Ok(false) => {
                proof {
                    assert(bytes@ + Seq::<u8>::empty() =~= bytes@);
                }
                break;
            },
            Err(e) => {
                return Err(e);
            },
        }
    }
    let text = if utf8_candidate {
        utf8_text(bytes.as_slice())
    } else {
        None
    };
    Ok((bytes, text))
}

} // verus!

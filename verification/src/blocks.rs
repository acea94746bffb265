//! Splitting data codewords into blocks, adding Reed-Solomon codewords to each,
//! interleaving the blocks column by column, and the way back.

use vstd::prelude::*;

use crate::error::QrError;
use crate::reed_solomon::{
    check_segments, division_remainder, generator, generator_poly, is_codeword, lemma_single_change_detected,
    remainder_into,
};
use crate::tables::{
    block_count, data_codewords, ecc_per_block, lemma_tables, num_raw_data_modules,
    raw_data_modules, ECC_CODEWORDS_PER_BLOCK, NUM_ERROR_CORRECTION_BLOCKS,
};
use crate::types::{ecc_ordinal, ErrorCorrectionLevel, Version};

verus! {

/// Number of blocks.
pub open spec fn nb(v: nat, e: ErrorCorrectionLevel) -> int {
    block_count(e, v) as int
}

/// Error correction codewords per block.
pub open spec fn el(v: nat, e: ErrorCorrectionLevel) -> int {
    ecc_per_block(e, v) as int
}

/// All codewords of the symbol.
pub open spec fn raw_cw(v: nat) -> int {
    (raw_data_modules(v) / 8) as int
}

/// Number of short blocks (one data codeword fewer than the long ones); they come first.
pub open spec fn short_count(v: nat, e: ErrorCorrectionLevel) -> int {
    nb(v, e) - raw_cw(v) % nb(v, e)
}

/// Length of a short block, error correction included.
pub open spec fn short_len(v: nat, e: ErrorCorrectionLevel) -> int {
    raw_cw(v) / nb(v, e)
}

/// Data codewords of a short block; also the column that only long blocks fill.
pub open spec fn pad_col(v: nat, e: ErrorCorrectionLevel) -> int {
    short_len(v, e) - el(v, e)
}

/// Data codewords of block `i`.
pub open spec fn block_data_len(v: nat, e: ErrorCorrectionLevel, i: int) -> int {
    pad_col(v, e) + if i >= short_count(v, e) {
        1int
    } else {
        0int
    }
}

/// Position of the first data codeword of block `i`.
pub open spec fn block_data_start(v: nat, e: ErrorCorrectionLevel, i: int) -> int {
    i * pad_col(v, e) + if i > short_count(v, e) {
        i - short_count(v, e)
    } else {
        0int
    }
}

/// The data codewords of block `i`.
pub open spec fn block_data(v: nat, e: ErrorCorrectionLevel, data: Seq<u8>, i: int) -> Seq<u8> {
    data.subrange(block_data_start(v, e, i), block_data_start(v, e, i) + block_data_len(v, e, i))
}

/// Block `i` as laid out for interleaving: data, a pad slot for short blocks, then its
/// Reed-Solomon codewords.
pub open spec fn padded_block(v: nat, e: ErrorCorrectionLevel, data: Seq<u8>, i: int) -> Seq<u8> {
    block_data(v, e, data, i) + (if i < short_count(v, e) {
        seq![0u8]
    } else {
        Seq::<u8>::empty()
    }) + division_remainder(block_data(v, e, data, i), generator_poly(el(v, e) as nat).drop_first())
}

/// Whether column `c` of block `i` goes into the interleaved sequence (pad slots do not).
pub open spec fn emitted(v: nat, e: ErrorCorrectionLevel, c: int, i: int) -> bool {
    c != pad_col(v, e) || i >= short_count(v, e)
}

/// Number of entries interleaved before column `c` of block `i`.
pub open spec fn slot(v: nat, e: ErrorCorrectionLevel, c: int, i: int) -> int {
    let n = nb(v, e);
    let p = pad_col(v, e);
    let s = short_count(v, e);
    if c < p {
        c * n + i
    } else if c == p {
        p * n + if i > s {
            i - s
        } else {
            0int
        }
    } else {
        p * n + (n - s) + (c - p - 1) * n + i
    }
}

/// Column of the block entry at interleaved position `q`.
pub open spec fn slot_column(v: nat, e: ErrorCorrectionLevel, q: int) -> int {
    let n = nb(v, e);
    let p = pad_col(v, e);
    let s = short_count(v, e);
    if q < p * n {
        q / n
    } else if q < p * n + (n - s) {
        p
    } else {
        p + 1 + (q - p * n - (n - s)) / n
    }
}

/// Block of the entry at interleaved position `q`.
pub open spec fn slot_block(v: nat, e: ErrorCorrectionLevel, q: int) -> int {
    let n = nb(v, e);
    let p = pad_col(v, e);
    let s = short_count(v, e);
    if q < p * n {
        q % n
    } else if q < p * n + (n - s) {
        s + (q - p * n)
    } else {
        (q - p * n - (n - s)) % n
    }
}

/// The codewords of the symbol: the blocks of `data` with their error correction,
/// read column by column.
pub open spec fn interleaved(v: nat, e: ErrorCorrectionLevel, data: Seq<u8>) -> Seq<u8> {
    Seq::new(
        raw_cw(v) as nat,
        |q: int| padded_block(v, e, data, slot_block(v, e, q))[slot_column(v, e, q)],
    )
}

/// Shape of the block structure.
pub proof fn lemma_shape(v: nat, e: ErrorCorrectionLevel)
    requires
        1 <= v <= 40,
    ensures
        1 <= nb(v, e) <= raw_cw(v),
        7 <= el(v, e) <= 30,
        1 <= short_count(v, e) <= nb(v, e),
        el(v, e) + 1 < short_len(v, e),
        raw_cw(v) < 3707,
        nb(v, e) * short_len(v, e) + (nb(v, e) - short_count(v, e)) == raw_cw(v),
        nb(v, e) * pad_col(v, e) + (nb(v, e) - short_count(v, e)) == data_codewords(v, e),
        pad_col(v, e) >= 2,
{
    lemma_tables(e, v);
    let n = nb(v, e);
    let r = raw_cw(v);
    vstd::arithmetic::div_mod::lemma_fundamental_div_mod(r, n);
    assert(n <= r) by (nonlinear_arith)
        requires
            el(v, e) + 1 < r / n,
            n >= 1,
            r >= 0,
    ;
    assert(n * pad_col(v, e) == n * short_len(v, e) - n * el(v, e)) by (nonlinear_arith)
        requires
            pad_col(v, e) == short_len(v, e) - el(v, e),
    ;
    assert(n * el(v, e) == el(v, e) * n) by (nonlinear_arith);
    assert(r == n * short_len(v, e) + r % n);
}

/// The interleaved position of an emitted entry is in range, and leads back to the entry.
pub proof fn lemma_slot(v: nat, e: ErrorCorrectionLevel, c: int, i: int)
    requires
        1 <= v <= 40,
        0 <= c <= short_len(v, e),
        0 <= i < nb(v, e),
        emitted(v, e, c, i),
    ensures
        0 <= slot(v, e, c, i) < raw_cw(v),
        slot_column(v, e, slot(v, e, c, i)) == c,
        slot_block(v, e, slot(v, e, c, i)) == i,
{
    lemma_shape(v, e);
    let n = nb(v, e);
    let p = pad_col(v, e);
    let s = short_count(v, e);
    let q = slot(v, e, c, i);
    assert(p * n + el(v, e) * n == n * short_len(v, e)) by (nonlinear_arith)
        requires
            p == short_len(v, e) - el(v, e),
    ;
    assert(0 <= p * n) by (nonlinear_arith)
        requires
            p >= 0,
            n >= 1,
    ;
    assert(0 <= el(v, e) * n) by (nonlinear_arith)
        requires
            el(v, e) >= 0,
            n >= 1,
    ;
    if c < p {
        vstd::arithmetic::div_mod::lemma_fundamental_div_mod_converse(q, n, c, i);
        assert(c * n + n <= p * n) by (nonlinear_arith)
            requires
                c + 1 <= p,
                n >= 1,
        ;
        assert(0 <= c * n) by (nonlinear_arith)
            requires
                c >= 0,
                n >= 1,
        ;
    } else if c == p {
    } else {
        let k = c - p - 1;
        vstd::arithmetic::div_mod::lemma_fundamental_div_mod_converse(q - p * n - (n - s), n, k, i);
        assert(k * n + n <= el(v, e) * n) by (nonlinear_arith)
            requires
                k + 1 <= el(v, e),
                n >= 1,
        ;
        assert(0 <= k * n) by (nonlinear_arith)
            requires
                k >= 0,
                n >= 1,
        ;
        assert(p * n + el(v, e) * n == short_len(v, e) * n) by (nonlinear_arith)
            requires
                p == short_len(v, e) - el(v, e),
        ;
        assert(0 <= p * n) by (nonlinear_arith)
            requires
                p >= 0,
                n >= 1,
        ;
    }
}

/// Splits `data` into blocks, appends each block's Reed-Solomon codewords, and interleaves
/// the blocks column by column.
pub(crate) fn add_error_correction_and_interleave(
    version: Version,
    ecc: ErrorCorrectionLevel,
    data: &[u8],
) -> (r: Vec<u8>)
    requires
        data@.len() == data_codewords(version@ as nat, ecc),
    ensures
        r@ == interleaved(version@ as nat, ecc, data@),
{
    let ghost vv = version@ as nat;
    let v = version.value() as usize;
    let ordinal = ecc.ordinal();
    let num_blocks = NUM_ERROR_CORRECTION_BLOCKS[ordinal][v] as usize;
    let ecc_len = ECC_CODEWORDS_PER_BLOCK[ordinal][v] as usize;
    let raw = num_raw_data_modules(version) / 8;
    proof {
        lemma_shape(vv, ecc);
        assert(num_blocks == nb(vv, ecc));
        assert(ecc_len == el(vv, ecc));
        assert(raw == raw_cw(vv));
        lemma_tables(ecc, vv);
        assert(data_codewords(vv, ecc) <= raw_cw(vv));
    }
    let short = num_blocks - raw % num_blocks;
    let short_length = raw / num_blocks;
    let pad_column = short_length - ecc_len;
    let padded_len = short_length + 1;
    let gen = generator(ecc_len);
    let mut blocks: Vec<Vec<u8>> = Vec::new();
    let mut offset: usize = 0;
    let mut index: usize = 0;
    while index < num_blocks
        invariant
            1 <= vv <= 40,
            vv == version@ as nat,
            num_blocks == nb(vv, ecc),
            ecc_len == el(vv, ecc),
            raw == raw_cw(vv),
            short == short_count(vv, ecc),
            short_length == short_len(vv, ecc),
            pad_column == pad_col(vv, ecc),
            data@.len() == data_codewords(vv, ecc),
            data@.len() < 4000,
            gen@ == generator_poly(ecc_len as nat).drop_first(),
            index <= num_blocks,
            offset == block_data_start(vv, ecc, index as int),
            blocks@.len() == index,
            forall|j: int| 0 <= j < index ==> (#[trigger] blocks@[j])@ == padded_block(vv, ecc, data@, j),
        decreases num_blocks - index,
    {
        let data_len = pad_column + if index >= short {
            1
        } else {
            0
        };
        proof {
            lemma_shape(vv, ecc);
            lemma_block_end(vv, ecc, index as int);
            assert(data_len == block_data_len(vv, ecc, index as int));
            crate::reed_solomon::lemma_generator_len(ecc_len as nat);
        }
        let mut block: Vec<u8> = Vec::new();
        let mut k: usize = 0;
        while k < data_len
            invariant
                offset + data_len <= data@.len(),
                data@.len() < 4000,
                k <= data_len,
                block@ == data@.subrange(offset as int, offset + k),
            decreases data_len - k,
        {
            block.push(data[offset + k]);
            proof {
                assert(block@ =~= data@.subrange(offset as int, offset + k + 1));
            }
            k = k + 1;
        }
        let ghost body = block@;
        let mut ecc_bytes = vec![0u8; ecc_len];
        remainder_into(block.as_slice(), gen.as_slice(), ecc_bytes.as_mut_slice());
        proof {
            crate::reed_solomon::lemma_division_remainder_len(body, gen@);
        }
        if index < short {
            block.push(0);
        }
        let mut k: usize = 0;
        let ghost head = block@;
        while k < ecc_len
            invariant
                k <= ecc_len,
                ecc_bytes@.len() == ecc_len,
                block@ == head + ecc_bytes@.subrange(0, k as int),
            decreases ecc_len - k,
        {
            block.push(ecc_bytes[k]);
            proof {
                assert(block@ =~= head + ecc_bytes@.subrange(0, k + 1));
            }
            k = k + 1;
        }
        proof {
            assert(ecc_bytes@.subrange(0, ecc_len as int) =~= ecc_bytes@);
            assert(body == block_data(vv, ecc, data@, index as int));
            assert(block@ =~= padded_block(vv, ecc, data@, index as int));
        }
        blocks.push(block);
        offset = offset + data_len;
        index = index + 1;
    }
    let mut result: Vec<u8> = Vec::new();
    let mut column: usize = 0;
    while column < padded_len
        invariant
            1 <= vv <= 40,
            num_blocks == nb(vv, ecc),
            short == short_count(vv, ecc),
            short_length == short_len(vv, ecc),
            padded_len == short_length + 1,
            pad_column == pad_col(vv, ecc),
            blocks@.len() == num_blocks,
            data@.len() == data_codewords(vv, ecc),
            forall|j: int| 0 <= j < num_blocks ==> (#[trigger] blocks@[j])@ == padded_block(vv, ecc, data@, j),
            column <= padded_len,
            result@.len() == slot(vv, ecc, column as int, 0),
            forall|q: int| 0 <= q < result@.len() ==> #[trigger] result@[q] == interleaved(vv, ecc, data@)[q],
        decreases padded_len - column,
    {
        let mut index: usize = 0;
        while index < num_blocks
            invariant
                1 <= vv <= 40,
                num_blocks == nb(vv, ecc),
                short == short_count(vv, ecc),
                short_length == short_len(vv, ecc),
                padded_len == short_length + 1,
                pad_column == pad_col(vv, ecc),
                blocks@.len() == num_blocks,
                forall|j: int| 0 <= j < num_blocks ==> (#[trigger] blocks@[j])@ == padded_block(vv, ecc, data@, j),
                column < padded_len,
                index <= num_blocks,
                data@.len() == data_codewords(vv, ecc),
                result@.len() == slot(vv, ecc, column as int, index as int),
                forall|q: int| 0 <= q < result@.len() ==> #[trigger] result@[q] == interleaved(vv, ecc, data@)[q],
            decreases num_blocks - index,
        {
            if column != pad_column || index >= short {
                proof {
                    lemma_slot(vv, ecc, column as int, index as int);
                    lemma_padded_len(vv, ecc, data@, index as int);
                }
                let ghost q = result@.len() as int;
                result.push(blocks[index][column]);
                proof {
                    assert(result@[q] == interleaved(vv, ecc, data@)[q]);
                }
            }
            index = index + 1;
        }
        proof {
            lemma_slot_next_column(vv, ecc, column as int);
        }
        column = column + 1;
    }
    proof {
        lemma_slot_next_column(vv, ecc, short_length as int);
        assert(result@ =~= interleaved(vv, ecc, data@));
    }
    result
}

/// The entries of a column are followed by those of the next column; after the last column
/// every codeword has been placed.
pub proof fn lemma_slot_next_column(v: nat, e: ErrorCorrectionLevel, c: int)
    requires
        1 <= v <= 40,
        0 <= c <= short_len(v, e),
    ensures
        slot(v, e, c, nb(v, e)) == slot(v, e, c + 1, 0),
        c == short_len(v, e) ==> slot(v, e, c + 1, 0) == raw_cw(v),
{
    lemma_shape(v, e);
    let n = nb(v, e);
    let p = pad_col(v, e);
    assert((c + 1) * n == c * n + n) by (nonlinear_arith);
    assert((c - p) * n == (c - p - 1) * n + n) by (nonlinear_arith);
    assert((c + 1 - p - 1) * n == (c - p) * n);
    assert(0 * n == 0);
    assert(p * n + el(v, e) * n == n * short_len(v, e)) by (nonlinear_arith)
        requires
            p == short_len(v, e) - el(v, e),
    ;
    assert((short_len(v, e) - p) * n == el(v, e) * n) by (nonlinear_arith)
        requires
            p == short_len(v, e) - el(v, e),
    ;
}

/// Block `i` ends within the data, and where block `i + 1` starts.
pub proof fn lemma_block_end(v: nat, e: ErrorCorrectionLevel, i: int)
    requires
        1 <= v <= 40,
        0 <= i < nb(v, e),
    ensures
        0 <= block_data_start(v, e, i),
        block_data_start(v, e, i) + block_data_len(v, e, i) == block_data_start(v, e, i + 1),
        block_data_start(v, e, i + 1) <= data_codewords(v, e),
{
    lemma_shape(v, e);
    let p = pad_col(v, e);
    let n = nb(v, e);
    let s = short_count(v, e);
    assert((i + 1) * p == i * p + p) by (nonlinear_arith);
    assert((i + 1) * p <= n * p) by (nonlinear_arith)
        requires
            i + 1 <= n,
            p >= 0,
    ;
    assert(n * p == p * n) by (nonlinear_arith);
    assert(0 <= i * p) by (nonlinear_arith)
        requires
            i >= 0,
            p >= 0,
    ;
}

/// A padded block is one longer than a short block.
pub proof fn lemma_padded_len(v: nat, e: ErrorCorrectionLevel, data: Seq<u8>, i: int)
    requires
        1 <= v <= 40,
        0 <= i < nb(v, e),
        data.len() == data_codewords(v, e),
    ensures
        padded_block(v, e, data, i).len() == short_len(v, e) + 1,
{
    lemma_shape(v, e);
    lemma_block_end(v, e, i);
    crate::reed_solomon::lemma_division_remainder_len(
        block_data(v, e, data, i),
        generator_poly(el(v, e) as nat).drop_first(),
    );
    crate::reed_solomon::lemma_generator_len(el(v, e) as nat);
}

/// Block `i` read back from interleaved codewords (the pad slot of a short block reads 0).
pub open spec fn received_block(v: nat, e: ErrorCorrectionLevel, codewords: Seq<u8>, i: int) -> Seq<u8> {
    Seq::new(
        (short_len(v, e) + 1) as nat,
        |c: int|
            if emitted(v, e, c, i) {
                codewords[slot(v, e, c, i)]
            } else {
                0u8
            },
    )
}

/// Where the error correction codewords of block `i` start.
pub open spec fn ecc_start(v: nat, e: ErrorCorrectionLevel, i: int) -> int {
    block_data_len(v, e, i) + if i < short_count(v, e) {
        1int
    } else {
        0int
    }
}

/// The data codewords of received block `i`.
pub open spec fn received_data(v: nat, e: ErrorCorrectionLevel, codewords: Seq<u8>, i: int) -> Seq<u8> {
    received_block(v, e, codewords, i).subrange(0, block_data_len(v, e, i))
}

/// The error correction codewords of received block `i`.
pub open spec fn received_ecc(v: nat, e: ErrorCorrectionLevel, codewords: Seq<u8>, i: int) -> Seq<u8> {
    received_block(v, e, codewords, i).subrange(ecc_start(v, e, i), ecc_start(v, e, i) + el(v, e))
}

/// Received block `i` is a Reed-Solomon codeword.
pub open spec fn block_checks(v: nat, e: ErrorCorrectionLevel, codewords: Seq<u8>, i: int) -> bool {
    is_codeword(received_data(v, e, codewords, i) + received_ecc(v, e, codewords, i), el(v, e) as nat)
}

/// The data codewords of the first `k` received blocks, in order.
pub open spec fn received_data_upto(v: nat, e: ErrorCorrectionLevel, codewords: Seq<u8>, k: int) -> Seq<u8>
    decreases k,
{
    if k <= 0 {
        Seq::empty()
    } else {
        received_data_upto(v, e, codewords, k - 1) + received_data(v, e, codewords, k - 1)
    }
}

/// Splits interleaved codewords back into blocks, checks each block, and returns the data
/// codewords; fails with `Checksum` at the first block that is no codeword.
pub(crate) fn deinterleave_and_verify(
    version: Version,
    ecc: ErrorCorrectionLevel,
    codewords: &[u8],
) -> (r: Result<Vec<u8>, QrError>)
    requires
        codewords@.len() == raw_cw(version@ as nat),
    ensures
        r is Ok <==> forall|i: int| 0 <= i < nb(version@ as nat, ecc) ==> #[trigger] block_checks(version@ as nat, ecc, codewords@, i),
        r is Err ==> r == Err::<Vec<u8>, QrError>(QrError::Checksum),
        r matches Ok(data) ==> data@ == received_data_upto(version@ as nat, ecc, codewords@, nb(version@ as nat, ecc)),
{
    let ghost vv = version@ as nat;
    let v = version.value() as usize;
    let ordinal = ecc.ordinal();
    let num_blocks = NUM_ERROR_CORRECTION_BLOCKS[ordinal][v] as usize;
    let ecc_len = ECC_CODEWORDS_PER_BLOCK[ordinal][v] as usize;
    let raw = num_raw_data_modules(version) / 8;
    proof {
        lemma_shape(vv, ecc);
    }
    let short = num_blocks - raw % num_blocks;
    let short_length = raw / num_blocks;
    let pad_column = short_length - ecc_len;
    let padded_len = short_length + 1;
    proof {
        assert(short_length <= raw) by (nonlinear_arith)
            requires
                num_blocks >= 1,
                short_length == raw / num_blocks,
        ;
    }
    let mut data: Vec<u8> = Vec::new();
    let mut index: usize = 0;
    while index < num_blocks
        invariant
            1 <= vv <= 40,
            vv == version@ as nat,
            num_blocks == nb(vv, ecc),
            ecc_len == el(vv, ecc),
            raw == raw_cw(vv),
            short == short_count(vv, ecc),
            short_length == short_len(vv, ecc),
            pad_column == pad_col(vv, ecc),
            padded_len == short_length + 1,
            short_length <= raw,
            raw < 3707,
            codewords@.len() == raw,
            index <= num_blocks,
            data@ == received_data_upto(vv, ecc, codewords@, index as int),
            forall|i: int| 0 <= i < index ==> #[trigger] block_checks(vv, ecc, codewords@, i),
        decreases num_blocks - index,
    {
        let mut block: Vec<u8> = Vec::new();
        let mut column: usize = 0;
        while column < padded_len
            invariant
                1 <= vv <= 40,
                num_blocks == nb(vv, ecc),
                short == short_count(vv, ecc),
                short_length == short_len(vv, ecc),
                pad_column == pad_col(vv, ecc),
                padded_len == short_length + 1,
                short_length < 3707,
                num_blocks <= 3707,
                codewords@.len() == raw_cw(vv),
                index < num_blocks,
                column <= padded_len,
                block@ == received_block(vv, ecc, codewords@, index as int).subrange(0, column as int),
            decreases padded_len - column,
        {
            let ghost before = block@;
            if column != pad_column || index >= short {
                proof {
                    lemma_slot(vv, ecc, column as int, index as int);
                }
                let position = slot_position(num_blocks, short, pad_column, column, index);
                block.push(codewords[position]);
            } else {
                block.push(0);
            }
            proof {
                assert(block@ =~= received_block(vv, ecc, codewords@, index as int).subrange(0, column + 1));
            }
            column = column + 1;
        }
        proof {
            assert(block@ =~= received_block(vv, ecc, codewords@, index as int));
        }
        let data_len = pad_column + if index >= short {
            1
        } else {
            0
        };
        let ecc_offset = data_len + if index < short {
            1
        } else {
            0
        };
        let first = slice_of(&block, 0, data_len);
        let second = slice_of(&block, ecc_offset, ecc_offset + ecc_len);
        proof {
            assert(first@ == received_data(vv, ecc, codewords@, index as int));
            assert(second@ == received_ecc(vv, ecc, codewords@, index as int));
        }
        if !check_segments(first.as_slice(), second.as_slice(), ecc_len) {
            proof {
                assert(!block_checks(vv, ecc, codewords@, index as int));
            }
            return Err(QrError::Checksum);
        }
        let mut k: usize = 0;
        let ghost head = data@;
        while k < data_len
            invariant
                k <= data_len,
                first@.len() == data_len,
                data@ == head + first@.subrange(0, k as int),
            decreases data_len - k,
        {
            data.push(first[k]);
            proof {
                assert(data@ =~= head + first@.subrange(0, k + 1));
            }
            k = k + 1;
        }
        proof {
            assert(first@.subrange(0, data_len as int) =~= first@);
        }
        index = index + 1;
    }
    Ok(data)
}

/// The interleaved position of column `column` of block `index`.
fn slot_position(num_blocks: usize, short: usize, pad_column: usize, column: usize, index: usize) -> (r: usize)
    requires
        short <= num_blocks <= 4000,
        index < num_blocks,
        column <= 4000,
        pad_column <= 4000,
        column != pad_column || index >= short,
    ensures
        r == if column < pad_column {
            column * num_blocks + index
        } else if column == pad_column {
            pad_column * num_blocks + if index > short { index - short } else { 0 }
        } else {
            pad_column * num_blocks + (num_blocks - short) + (column - pad_column - 1) * num_blocks + index
        },
{
    proof {
        assert(column * num_blocks <= 4000 * 4000) by (nonlinear_arith)
            requires
                column <= 4000,
                num_blocks <= 4000,
        ;
        assert(pad_column * num_blocks <= 4000 * 4000) by (nonlinear_arith)
            requires
                pad_column <= 4000,
                num_blocks <= 4000,
        ;
    }
    if column < pad_column {
        column * num_blocks + index
    } else if column == pad_column {
        pad_column * num_blocks + (index - short)
    } else {
        proof {
            assert((column - pad_column - 1) * num_blocks <= 4000 * 4000) by (nonlinear_arith)
                requires
                    column > pad_column,
                    column <= 4000,
                    num_blocks <= 4000,
            ;
        }
        pad_column * num_blocks + (num_blocks - short) + (column - pad_column - 1) * num_blocks + index
    }
}

/// A copy of `v[start..end]`.
fn slice_of(v: &Vec<u8>, start: usize, end: usize) -> (r: Vec<u8>)
    requires
        start <= end <= v@.len(),
    ensures
        r@ == v@.subrange(start as int, end as int),
{
    let mut r: Vec<u8> = Vec::new();
    let mut k: usize = start;
    while k < end
        invariant
            start <= k <= end,
            end <= v@.len(),
            r@ == v@.subrange(start as int, k as int),
        decreases end - k,
    {
        r.push(v[k]);
        proof {
            assert(r@ =~= v@.subrange(start as int, k + 1));
        }
        k = k + 1;
    }
    r
}

/// Reading back an interleaved block gives the block as it was laid out.
proof fn lemma_received_is_padded(v: nat, e: ErrorCorrectionLevel, data: Seq<u8>, i: int)
    requires
        1 <= v <= 40,
        data.len() == data_codewords(v, e),
        0 <= i < nb(v, e),
    ensures
        received_block(v, e, interleaved(v, e, data), i) == padded_block(v, e, data, i),
{
    lemma_padded_len(v, e, data, i);
    let got = received_block(v, e, interleaved(v, e, data), i);
    let want = padded_block(v, e, data, i);
    assert forall|c: int| 0 <= c < short_len(v, e) + 1 implies got[c] == want[c] by {
        if emitted(v, e, c, i) {
            lemma_slot(v, e, c, i);
        } else {
            lemma_block_end(v, e, i);
            assert(block_data(v, e, data, i).len() == pad_col(v, e));
        }
    }
    assert(got =~= want);
}

/// The data of the first `k` blocks is the first `block_data_start(k)` data codewords.
proof fn lemma_received_prefix(v: nat, e: ErrorCorrectionLevel, data: Seq<u8>, k: int)
    requires
        1 <= v <= 40,
        data.len() == data_codewords(v, e),
        0 <= k <= nb(v, e),
    ensures
        received_data_upto(v, e, interleaved(v, e, data), k) == data.subrange(0, block_data_start(v, e, k)),
    decreases k,
{
    if k > 0 {
        lemma_received_prefix(v, e, data, k - 1);
        lemma_received_is_padded(v, e, data, k - 1);
        lemma_block_end(v, e, k - 1);
        lemma_padded_len(v, e, data, k - 1);
        lemma_shape(v, e);
        let bd = block_data(v, e, data, k - 1);
        let start = block_data_start(v, e, k - 1);
        let len = block_data_len(v, e, k - 1);
        assert(0 <= start && start + len <= data.len());
        assert(bd.len() == len);
        let pb = padded_block(v, e, data, k - 1);
        assert forall|j: int| 0 <= j < len implies pb[j] == bd[j] by {
        }
        assert(received_data(v, e, interleaved(v, e, data), k - 1) =~= bd);
        assert(data.subrange(0, start) + bd =~= data.subrange(0, start + len));
    } else {
        assert(data.subrange(0, 0) =~= Seq::<u8>::empty());
    }
}

/// What interleaving writes, deinterleaving reads back: every block of the interleaved
/// codewords is a Reed-Solomon codeword, and the data codewords come back in order.
pub proof fn lemma_interleave_roundtrip(v: nat, e: ErrorCorrectionLevel, data: Seq<u8>)
    requires
        1 <= v <= 40,
        data.len() == data_codewords(v, e),
    ensures
        forall|i: int| 0 <= i < nb(v, e) ==> #[trigger] block_checks(v, e, interleaved(v, e, data), i),
        received_data_upto(v, e, interleaved(v, e, data), nb(v, e)) == data,
{
    assert forall|i: int| 0 <= i < nb(v, e) implies #[trigger] block_checks(v, e, interleaved(v, e, data), i) by {
        lemma_received_is_padded(v, e, data, i);
        lemma_padded_len(v, e, data, i);
        lemma_block_end(v, e, i);
        lemma_shape(v, e);
        let bd = block_data(v, e, data, i);
        let rem = division_remainder(bd, generator_poly(el(v, e) as nat).drop_first());
        crate::reed_solomon::lemma_division_remainder_len(bd, generator_poly(el(v, e) as nat).drop_first());
        crate::reed_solomon::lemma_generator_len(el(v, e) as nat);
        crate::reed_solomon::lemma_remainder_makes_codeword(bd, el(v, e) as nat);
        let cw = interleaved(v, e, data);
        assert(received_data(v, e, cw, i) =~= bd);
        assert(received_ecc(v, e, cw, i) =~= rem);
    }
    lemma_received_prefix(v, e, data, nb(v, e));
    lemma_shape(v, e);
    assert(data.subrange(0, block_data_start(v, e, nb(v, e))) =~= data);
}

/// The data codewords of all blocks number as many as the version's data codewords.
pub proof fn lemma_received_len(v: nat, e: ErrorCorrectionLevel, codewords: Seq<u8>)
    requires
        1 <= v <= 40,
    ensures
        received_data_upto(v, e, codewords, nb(v, e)).len() == data_codewords(v, e),
{
    lemma_received_len_upto(v, e, codewords, nb(v, e));
    lemma_shape(v, e);
}

/// The data codewords of the first `k` blocks number `block_data_start(k)`.
proof fn lemma_received_len_upto(v: nat, e: ErrorCorrectionLevel, codewords: Seq<u8>, k: int)
    requires
        1 <= v <= 40,
        0 <= k <= nb(v, e),
    ensures
        received_data_upto(v, e, codewords, k).len() == block_data_start(v, e, k),
    decreases k,
{
    lemma_shape(v, e);
    if k > 0 {
        lemma_received_len_upto(v, e, codewords, k - 1);
        lemma_block_end(v, e, k - 1);
        assert(received_block(v, e, codewords, k - 1).len() == short_len(v, e) + 1);
        assert(block_data_len(v, e, k - 1) <= short_len(v, e) + 1);
        assert(received_data(v, e, codewords, k - 1).len() == block_data_len(v, e, k - 1));
    }
}

/// Every interleaved position holds an emitted entry of one block: its column and block
/// lead back to it.
proof fn lemma_slot_inverse(v: nat, e: ErrorCorrectionLevel, q: int)
    requires
        1 <= v <= 40,
        0 <= q < raw_cw(v),
    ensures
        0 <= slot_column(v, e, q) <= short_len(v, e),
        0 <= slot_block(v, e, q) < nb(v, e),
        emitted(v, e, slot_column(v, e, q), slot_block(v, e, q)),
        slot(v, e, slot_column(v, e, q), slot_block(v, e, q)) == q,
{
    lemma_shape(v, e);
    let n = nb(v, e);
    let p = pad_col(v, e);
    let s = short_count(v, e);
    let c = slot_column(v, e, q);
    let i = slot_block(v, e, q);
    assert(p * n + el(v, e) * n == n * short_len(v, e)) by (nonlinear_arith)
        requires
            p == short_len(v, e) - el(v, e),
    ;
    if q < p * n {
        vstd::arithmetic::div_mod::lemma_fundamental_div_mod(q, n);
        vstd::arithmetic::div_mod::lemma_mod_pos_bound(q, n);
        assert(q / n < p) by (nonlinear_arith)
            requires
                q < p * n,
                q == n * (q / n) + q % n,
                0 <= q % n,
                n >= 1,
        ;
        assert(0 <= q / n) by (nonlinear_arith)
            requires
                q >= 0,
                n >= 1,
        ;
        assert(c * n + i == q) by (nonlinear_arith)
            requires
                c == q / n,
                i == q % n,
                q == n * (q / n) + q % n,
        ;
    } else if q < p * n + (n - s) {
    } else {
        let r = q - p * n - (n - s);
        vstd::arithmetic::div_mod::lemma_fundamental_div_mod(r, n);
        vstd::arithmetic::div_mod::lemma_mod_pos_bound(r, n);
        assert(r < n * el(v, e));
        assert(r / n < el(v, e)) by (nonlinear_arith)
            requires
                r < n * el(v, e),
                r == n * (r / n) + r % n,
                0 <= r % n,
                n >= 1,
        ;
        assert(0 <= r / n) by (nonlinear_arith)
            requires
                r >= 0,
                n >= 1,
        ;
        assert((c - p - 1) * n + i == r) by (nonlinear_arith)
            requires
                c - p - 1 == r / n,
                i == r % n,
                r == n * (r / n) + r % n,
        ;
    }
}

/// Changing one interleaved codeword breaks the block it belongs to: some received block is
/// no Reed-Solomon codeword any more, so deinterleaving reports a checksum error.
pub proof fn lemma_interleaved_change_detected(v: nat, e: ErrorCorrectionLevel, data: Seq<u8>, q: int, b: u8)
    requires
        1 <= v <= 40,
        data.len() == data_codewords(v, e),
        0 <= q < raw_cw(v),
        b != interleaved(v, e, data)[q],
    ensures
        exists|i: int| 0 <= i < nb(v, e) && !#[trigger] block_checks(v, e, interleaved(v, e, data).update(q, b), i),
{
    lemma_shape(v, e);
    lemma_interleave_roundtrip(v, e, data);
    lemma_slot_inverse(v, e, q);
    let cw = interleaved(v, e, data);
    let cw2 = cw.update(q, b);
    let c = slot_column(v, e, q);
    let i = slot_block(v, e, q);
    let r1 = received_block(v, e, cw, i);
    let r2 = received_block(v, e, cw2, i);
    assert forall|k: int| 0 <= k < short_len(v, e) + 1 && k != c implies #[trigger] r2[k] == r1[k] by {
        if emitted(v, e, k, i) {
            lemma_slot(v, e, k, i);
        }
    }
    assert(r2 =~= r1.update(c, b));
    let bdl = block_data_len(v, e, i);
    let es = ecc_start(v, e, i);
    let w1 = received_data(v, e, cw, i) + received_ecc(v, e, cw, i);
    let w2 = received_data(v, e, cw2, i) + received_ecc(v, e, cw2, i);
    assert(block_checks(v, e, cw, i));
    let idx = if c < bdl {
        c
    } else {
        bdl + c - es
    };
    assert(es + el(v, e) == short_len(v, e) + 1);
    assert(0 <= idx < w1.len());
    assert(w1[idx] == r1[c]);
    assert(w2 =~= w1.update(idx, b));
    lemma_single_change_detected(w1, el(v, e) as nat, idx, b);
    assert(!block_checks(v, e, cw2, i));
}

} // verus!

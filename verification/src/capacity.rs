//! How the data capacity of a symbol orders across versions and error correction levels.

use vstd::prelude::*;

use crate::tables::{alignment_count, block_count, data_codewords, ecc_per_block, raw_data_modules};
use crate::types::ErrorCorrectionLevel;

verus! {

/// The data codewords of every level of each version, from the block tables.
#[verifier::rlimit(100)]
proof fn lemma_capacity_values(version: nat)
    requires
        1 <= version <= 40,
    ensures
        version == 1 ==> data_codewords(1, ErrorCorrectionLevel::Low) == 19 && data_codewords(1, ErrorCorrectionLevel::Medium) == 16
            && data_codewords(1, ErrorCorrectionLevel::Quartile) == 13 && data_codewords(1, ErrorCorrectionLevel::High) == 9,
        version == 2 ==> data_codewords(2, ErrorCorrectionLevel::Low) == 34 && data_codewords(2, ErrorCorrectionLevel::Medium) == 28
            && data_codewords(2, ErrorCorrectionLevel::Quartile) == 22 && data_codewords(2, ErrorCorrectionLevel::High) == 16,
        version == 3 ==> data_codewords(3, ErrorCorrectionLevel::Low) == 55 && data_codewords(3, ErrorCorrectionLevel::Medium) == 44
            && data_codewords(3, ErrorCorrectionLevel::Quartile) == 34 && data_codewords(3, ErrorCorrectionLevel::High) == 26,
        version == 4 ==> data_codewords(4, ErrorCorrectionLevel::Low) == 80 && data_codewords(4, ErrorCorrectionLevel::Medium) == 64
            && data_codewords(4, ErrorCorrectionLevel::Quartile) == 48 && data_codewords(4, ErrorCorrectionLevel::High) == 36,
        version == 5 ==> data_codewords(5, ErrorCorrectionLevel::Low) == 108 && data_codewords(5, ErrorCorrectionLevel::Medium) == 86
            && data_codewords(5, ErrorCorrectionLevel::Quartile) == 62 && data_codewords(5, ErrorCorrectionLevel::High) == 46,
        version == 6 ==> data_codewords(6, ErrorCorrectionLevel::Low) == 136 && data_codewords(6, ErrorCorrectionLevel::Medium) == 108
            && data_codewords(6, ErrorCorrectionLevel::Quartile) == 76 && data_codewords(6, ErrorCorrectionLevel::High) == 60,
        version == 7 ==> data_codewords(7, ErrorCorrectionLevel::Low) == 156 && data_codewords(7, ErrorCorrectionLevel::Medium) == 124
            && data_codewords(7, ErrorCorrectionLevel::Quartile) == 88 && data_codewords(7, ErrorCorrectionLevel::High) == 66,
        version == 8 ==> data_codewords(8, ErrorCorrectionLevel::Low) == 194 && data_codewords(8, ErrorCorrectionLevel::Medium) == 154
            && data_codewords(8, ErrorCorrectionLevel::Quartile) == 110 && data_codewords(8, ErrorCorrectionLevel::High) == 86,
        version == 9 ==> data_codewords(9, ErrorCorrectionLevel::Low) == 232 && data_codewords(9, ErrorCorrectionLevel::Medium) == 182
            && data_codewords(9, ErrorCorrectionLevel::Quartile) == 132 && data_codewords(9, ErrorCorrectionLevel::High) == 100,
        version == 10 ==> data_codewords(10, ErrorCorrectionLevel::Low) == 274 && data_codewords(10, ErrorCorrectionLevel::Medium) == 216
            && data_codewords(10, ErrorCorrectionLevel::Quartile) == 154 && data_codewords(10, ErrorCorrectionLevel::High) == 122,
        version == 11 ==> data_codewords(11, ErrorCorrectionLevel::Low) == 324 && data_codewords(11, ErrorCorrectionLevel::Medium) == 254
            && data_codewords(11, ErrorCorrectionLevel::Quartile) == 180 && data_codewords(11, ErrorCorrectionLevel::High) == 140,
        version == 12 ==> data_codewords(12, ErrorCorrectionLevel::Low) == 370 && data_codewords(12, ErrorCorrectionLevel::Medium) == 290
            && data_codewords(12, ErrorCorrectionLevel::Quartile) == 206 && data_codewords(12, ErrorCorrectionLevel::High) == 158,
        version == 13 ==> data_codewords(13, ErrorCorrectionLevel::Low) == 428 && data_codewords(13, ErrorCorrectionLevel::Medium) == 334
            && data_codewords(13, ErrorCorrectionLevel::Quartile) == 244 && data_codewords(13, ErrorCorrectionLevel::High) == 180,
        version == 14 ==> data_codewords(14, ErrorCorrectionLevel::Low) == 461 && data_codewords(14, ErrorCorrectionLevel::Medium) == 365
            && data_codewords(14, ErrorCorrectionLevel::Quartile) == 261 && data_codewords(14, ErrorCorrectionLevel::High) == 197,
        version == 15 ==> data_codewords(15, ErrorCorrectionLevel::Low) == 523 && data_codewords(15, ErrorCorrectionLevel::Medium) == 415
            && data_codewords(15, ErrorCorrectionLevel::Quartile) == 295 && data_codewords(15, ErrorCorrectionLevel::High) == 223,
        version == 16 ==> data_codewords(16, ErrorCorrectionLevel::Low) == 589 && data_codewords(16, ErrorCorrectionLevel::Medium) == 453
            && data_codewords(16, ErrorCorrectionLevel::Quartile) == 325 && data_codewords(16, ErrorCorrectionLevel::High) == 253,
        version == 17 ==> data_codewords(17, ErrorCorrectionLevel::Low) == 647 && data_codewords(17, ErrorCorrectionLevel::Medium) == 507
            && data_codewords(17, ErrorCorrectionLevel::Quartile) == 367 && data_codewords(17, ErrorCorrectionLevel::High) == 283,
        version == 18 ==> data_codewords(18, ErrorCorrectionLevel::Low) == 721 && data_codewords(18, ErrorCorrectionLevel::Medium) == 563
            && data_codewords(18, ErrorCorrectionLevel::Quartile) == 397 && data_codewords(18, ErrorCorrectionLevel::High) == 313,
        version == 19 ==> data_codewords(19, ErrorCorrectionLevel::Low) == 795 && data_codewords(19, ErrorCorrectionLevel::Medium) == 627
            && data_codewords(19, ErrorCorrectionLevel::Quartile) == 445 && data_codewords(19, ErrorCorrectionLevel::High) == 341,
        version == 20 ==> data_codewords(20, ErrorCorrectionLevel::Low) == 861 && data_codewords(20, ErrorCorrectionLevel::Medium) == 669
            && data_codewords(20, ErrorCorrectionLevel::Quartile) == 485 && data_codewords(20, ErrorCorrectionLevel::High) == 385,
        version == 21 ==> data_codewords(21, ErrorCorrectionLevel::Low) == 932 && data_codewords(21, ErrorCorrectionLevel::Medium) == 714
            && data_codewords(21, ErrorCorrectionLevel::Quartile) == 512 && data_codewords(21, ErrorCorrectionLevel::High) == 406,
        version == 22 ==> data_codewords(22, ErrorCorrectionLevel::Low) == 1006 && data_codewords(22, ErrorCorrectionLevel::Medium) == 782
            && data_codewords(22, ErrorCorrectionLevel::Quartile) == 568 && data_codewords(22, ErrorCorrectionLevel::High) == 442,
        version == 23 ==> data_codewords(23, ErrorCorrectionLevel::Low) == 1094 && data_codewords(23, ErrorCorrectionLevel::Medium) == 860
            && data_codewords(23, ErrorCorrectionLevel::Quartile) == 614 && data_codewords(23, ErrorCorrectionLevel::High) == 464,
        version == 24 ==> data_codewords(24, ErrorCorrectionLevel::Low) == 1174 && data_codewords(24, ErrorCorrectionLevel::Medium) == 914
            && data_codewords(24, ErrorCorrectionLevel::Quartile) == 664 && data_codewords(24, ErrorCorrectionLevel::High) == 514,
        version == 25 ==> data_codewords(25, ErrorCorrectionLevel::Low) == 1276 && data_codewords(25, ErrorCorrectionLevel::Medium) == 1000
            && data_codewords(25, ErrorCorrectionLevel::Quartile) == 718 && data_codewords(25, ErrorCorrectionLevel::High) == 538,
        version == 26 ==> data_codewords(26, ErrorCorrectionLevel::Low) == 1370 && data_codewords(26, ErrorCorrectionLevel::Medium) == 1062
            && data_codewords(26, ErrorCorrectionLevel::Quartile) == 754 && data_codewords(26, ErrorCorrectionLevel::High) == 596,
        version == 27 ==> data_codewords(27, ErrorCorrectionLevel::Low) == 1468 && data_codewords(27, ErrorCorrectionLevel::Medium) == 1128
            && data_codewords(27, ErrorCorrectionLevel::Quartile) == 808 && data_codewords(27, ErrorCorrectionLevel::High) == 628,
        version == 28 ==> data_codewords(28, ErrorCorrectionLevel::Low) == 1531 && data_codewords(28, ErrorCorrectionLevel::Medium) == 1193
            && data_codewords(28, ErrorCorrectionLevel::Quartile) == 871 && data_codewords(28, ErrorCorrectionLevel::High) == 661,
        version == 29 ==> data_codewords(29, ErrorCorrectionLevel::Low) == 1631 && data_codewords(29, ErrorCorrectionLevel::Medium) == 1267
            && data_codewords(29, ErrorCorrectionLevel::Quartile) == 911 && data_codewords(29, ErrorCorrectionLevel::High) == 701,
        version == 30 ==> data_codewords(30, ErrorCorrectionLevel::Low) == 1735 && data_codewords(30, ErrorCorrectionLevel::Medium) == 1373
            && data_codewords(30, ErrorCorrectionLevel::Quartile) == 985 && data_codewords(30, ErrorCorrectionLevel::High) == 745,
        version == 31 ==> data_codewords(31, ErrorCorrectionLevel::Low) == 1843 && data_codewords(31, ErrorCorrectionLevel::Medium) == 1455
            && data_codewords(31, ErrorCorrectionLevel::Quartile) == 1033 && data_codewords(31, ErrorCorrectionLevel::High) == 793,
        version == 32 ==> data_codewords(32, ErrorCorrectionLevel::Low) == 1955 && data_codewords(32, ErrorCorrectionLevel::Medium) == 1541
            && data_codewords(32, ErrorCorrectionLevel::Quartile) == 1115 && data_codewords(32, ErrorCorrectionLevel::High) == 845,
        version == 33 ==> data_codewords(33, ErrorCorrectionLevel::Low) == 2071 && data_codewords(33, ErrorCorrectionLevel::Medium) == 1631
            && data_codewords(33, ErrorCorrectionLevel::Quartile) == 1171 && data_codewords(33, ErrorCorrectionLevel::High) == 901,
        version == 34 ==> data_codewords(34, ErrorCorrectionLevel::Low) == 2191 && data_codewords(34, ErrorCorrectionLevel::Medium) == 1725
            && data_codewords(34, ErrorCorrectionLevel::Quartile) == 1231 && data_codewords(34, ErrorCorrectionLevel::High) == 961,
        version == 35 ==> data_codewords(35, ErrorCorrectionLevel::Low) == 2306 && data_codewords(35, ErrorCorrectionLevel::Medium) == 1812
            && data_codewords(35, ErrorCorrectionLevel::Quartile) == 1286 && data_codewords(35, ErrorCorrectionLevel::High) == 986,
        version == 36 ==> data_codewords(36, ErrorCorrectionLevel::Low) == 2434 && data_codewords(36, ErrorCorrectionLevel::Medium) == 1914
            && data_codewords(36, ErrorCorrectionLevel::Quartile) == 1354 && data_codewords(36, ErrorCorrectionLevel::High) == 1054,
        version == 37 ==> data_codewords(37, ErrorCorrectionLevel::Low) == 2566 && data_codewords(37, ErrorCorrectionLevel::Medium) == 1992
            && data_codewords(37, ErrorCorrectionLevel::Quartile) == 1426 && data_codewords(37, ErrorCorrectionLevel::High) == 1096,
        version == 38 ==> data_codewords(38, ErrorCorrectionLevel::Low) == 2702 && data_codewords(38, ErrorCorrectionLevel::Medium) == 2102
            && data_codewords(38, ErrorCorrectionLevel::Quartile) == 1502 && data_codewords(38, ErrorCorrectionLevel::High) == 1142,
        version == 39 ==> data_codewords(39, ErrorCorrectionLevel::Low) == 2812 && data_codewords(39, ErrorCorrectionLevel::Medium) == 2216
            && data_codewords(39, ErrorCorrectionLevel::Quartile) == 1582 && data_codewords(39, ErrorCorrectionLevel::High) == 1222,
        version == 40 ==> data_codewords(40, ErrorCorrectionLevel::Low) == 2956 && data_codewords(40, ErrorCorrectionLevel::Medium) == 2334
            && data_codewords(40, ErrorCorrectionLevel::Quartile) == 1666 && data_codewords(40, ErrorCorrectionLevel::High) == 1276,
{
    if version == 1 {
        assert(alignment_count(1) == 2);
        assert(raw_data_modules(1) == 208) by (nonlinear_arith)
            requires
                alignment_count(1) == 2,
        ;
        assert(ecc_per_block(ErrorCorrectionLevel::Low, 1) == 7 && block_count(ErrorCorrectionLevel::Low, 1) == 1);
        assert(data_codewords(1, ErrorCorrectionLevel::Low) == 19) by (nonlinear_arith)
            requires
                raw_data_modules(1) == 208,
                ecc_per_block(ErrorCorrectionLevel::Low, 1) == 7,
                block_count(ErrorCorrectionLevel::Low, 1) == 1,
        ;
        assert(ecc_per_block(ErrorCorrectionLevel::Medium, 1) == 10 && block_count(ErrorCorrectionLevel::Medium, 1) == 1);
        assert(data_codewords(1, ErrorCorrectionLevel::Medium) == 16) by (nonlinear_arith)
            requires
                raw_data_modules(1) == 208,
                ecc_per_block(ErrorCorrectionLevel::Medium, 1) == 10,
                block_count(ErrorCorrectionLevel::Medium, 1) == 1,
        ;
        assert(ecc_per_block(ErrorCorrectionLevel::Quartile, 1) == 13 && block_count(ErrorCorrectionLevel::Quartile, 1) == 1);
        assert(data_codewords(1, ErrorCorrectionLevel::Quartile) == 13) by (nonlinear_arith)
            requires
                raw_data_modules(1) == 208,
                ecc_per_block(ErrorCorrectionLevel::Quartile, 1) == 13,
                block_count(ErrorCorrectionLevel::Quartile, 1) == 1,
        ;
        assert(ecc_per_block(ErrorCorrectionLevel::High, 1) == 17 && block_count(ErrorCorrectionLevel::High, 1) == 1);
        assert(data_codewords(1, ErrorCorrectionLevel::High) == 9) by (nonlinear_arith)
            requires
                raw_data_modules(1) == 208,
                ecc_per_block(ErrorCorrectionLevel::High, 1) == 17,
                block_count(ErrorCorrectionLevel::High, 1) == 1,
        ;
    } else if version == 2 {
        assert(alignment_count(2) == 2);
        assert(raw_data_modules(2) == 359) by (nonlinear_arith)
            requires
                alignment_count(2) == 2,
        ;
        assert(ecc_per_block(ErrorCorrectionLevel::Low, 2) == 10 && block_count(ErrorCorrectionLevel::Low, 2) == 1);
        assert(data_codewords(2, ErrorCorrectionLevel::Low) == 34) by (nonlinear_arith)
            requires
                raw_data_modules(2) == 359,
                ecc_per_block(ErrorCorrectionLevel::Low, 2) == 10,
                block_count(ErrorCorrectionLevel::Low, 2) == 1,
        ;
        assert(ecc_per_block(ErrorCorrectionLevel::Medium, 2) == 16 && block_count(ErrorCorrectionLevel::Medium, 2) == 1);
        assert(data_codewords(2, ErrorCorrectionLevel::Medium) == 28) by (nonlinear_arith)
            requires
                raw_data_modules(2) == 359,
                ecc_per_block(ErrorCorrectionLevel::Medium, 2) == 16,
                block_count(ErrorCorrectionLevel::Medium, 2) == 1,
        ;
        assert(ecc_per_block(ErrorCorrectionLevel::Quartile, 2) == 22 && block_count(ErrorCorrectionLevel::Quartile, 2) == 1);
        assert(data_codewords(2, ErrorCorrectionLevel::Quartile) == 22) by (nonlinear_arith)
            requires
                raw_data_modules(2) == 359,
                ecc_per_block(ErrorCorrectionLevel::Quartile, 2) == 22,
                block_count(ErrorCorrectionLevel::Quartile, 2) == 1,
        ;
        assert(ecc_per_block(ErrorCorrectionLevel::High, 2) == 28 && block_count(ErrorCorrectionLevel::High, 2) == 1);
        assert(data_codewords(2, ErrorCorrectionLevel::High) == 16) by (nonlinear_arith)
            requires
                raw_data_modules(2) == 359,
                ecc_per_block(ErrorCorrectionLevel::High, 2) == 28,
                block_count(ErrorCorrectionLevel::High, 2) == 1,
        ;
    } else if version == 3 {
        assert(alignment_count(3) == 2);
        assert(raw_data_modules(3) == 567) by (nonlinear_arith)
            requires
                alignment_count(3) == 2,
        ;
        assert(ecc_per_block(ErrorCorrectionLevel::Low, 3) == 15 && block_count(ErrorCorrectionLevel::Low, 3) == 1);
        assert(data_codewords(3, ErrorCorrectionLevel::Low) == 55) by (nonlinear_arith)
            requires
                raw_data_modules(3) == 567,
                ecc_per_block(ErrorCorrectionLevel::Low, 3) == 15,
                block_count(ErrorCorrectionLevel::Low, 3) == 1,
        ;
        assert(ecc_per_block(ErrorCorrectionLevel::Medium, 3) == 26 && block_count(ErrorCorrectionLevel::Medium, 3) == 1);
        assert(data_codewords(3, ErrorCorrectionLevel::Medium) == 44) by (nonlinear_arith)
            requires
                raw_data_modules(3) == 567,
                ecc_per_block(ErrorCorrectionLevel::Medium, 3) == 26,
                block_count(ErrorCorrectionLevel::Medium, 3) == 1,
        ;
        assert(ecc_per_block(ErrorCorrectionLevel::Quartile, 3) == 18 && block_count(ErrorCorrectionLevel::Quartile, 3) == 2);
        assert(data_codewords(3, ErrorCorrectionLevel::Quartile) == 34) by (nonlinear_arith)
            requires
                raw_data_modules(3) == 567,
                ecc_per_block(ErrorCorrectionLevel::Quartile, 3) == 18,
                block_count(ErrorCorrectionLevel::Quartile, 3) == 2,
        ;
        assert(ecc_per_block(ErrorCorrectionLevel::High, 3) == 22 && block_count(ErrorCorrectionLevel::High, 3) == 2);
        assert(data_codewords(3, ErrorCorrectionLevel::High) == 26) by (nonlinear_arith)
            requires
                raw_data_modules(3) == 567,
                ecc_per_block(ErrorCorrectionLevel::High, 3) == 22,
                block_count(ErrorCorrectionLevel::High, 3) == 2,
        ;
    } else if version == 4 {
        assert(alignment_count(4) == 2);
        assert(raw_data_modules(4) == 807) by (nonlinear_arith)
            requires
                alignment_count(4) == 2,
        ;
        assert(ecc_per_block(ErrorCorrectionLevel::Low, 4) == 20 && block_count(ErrorCorrectionLevel::Low, 4) == 1);
        assert(data_codewords(4, ErrorCorrectionLevel::Low) == 80) by (nonlinear_arith)
            requires
                raw_data_modules(4) == 807,
                ecc_per_block(ErrorCorrectionLevel::Low, 4) == 20,
                block_count(ErrorCorrectionLevel::Low, 4) == 1,
        ;
        assert(ecc_per_block(ErrorCorrectionLevel::Medium, 4) == 18 && block_count(ErrorCorrectionLevel::Medium, 4) == 2);
        assert(data_codewords(4, ErrorCorrectionLevel::Medium) == 64) by (nonlinear_arith)
            requires
                raw_data_modules(4) == 807,
                ecc_per_block(ErrorCorrectionLevel::Medium, 4) == 18,
                block_count(ErrorCorrectionLevel::Medium, 4) == 2,
        ;
        assert(ecc_per_block(ErrorCorrectionLevel::Quartile, 4) == 26 && block_count(ErrorCorrectionLevel::Quartile, 4) == 2);
        assert(data_codewords(4, ErrorCorrectionLevel::Quartile) == 48) by (nonlinear_arith)
            requires
                raw_data_modules(4) == 807,
                ecc_per_block(ErrorCorrectionLevel::Quartile, 4) == 26,
                block_count(ErrorCorrectionLevel::Quartile, 4) == 2,
        ;
        assert(ecc_per_block(ErrorCorrectionLevel::High, 4) == 16 && block_count(ErrorCorrectionLevel::High, 4) == 4);
        assert(data_codewords(4, ErrorCorrectionLevel::High) == 36) by (nonlinear_arith)
            requires
                raw_data_modules(4) == 807,
                ecc_per_block(ErrorCorrectionLevel::High, 4) == 16,
                block_count(ErrorCorrectionLevel::High, 4) == 4,
        ;
    } else if version == 5 {
        assert(alignment_count(5) == 2);
        assert(raw_data_modules(5) == 1079) by (nonlinear_arith)
            requires
                alignment_count(5) == 2,
        ;
        assert(ecc_per_block(ErrorCorrectionLevel::Low, 5) == 26 && block_count(ErrorCorrectionLevel::Low, 5) == 1);
        assert(data_codewords(5, ErrorCorrectionLevel::Low) == 108) by (nonlinear_arith)
            requires
                raw_data_modules(5) == 1079,
                ecc_per_block(ErrorCorrectionLevel::Low, 5) == 26,
                block_count(ErrorCorrectionLevel::Low, 5) == 1,
        ;
        assert(ecc_per_block(ErrorCorrectionLevel::Medium, 5) == 24 && block_count(ErrorCorrectionLevel::Medium, 5) == 2);
        assert(data_codewords(5, ErrorCorrectionLevel::Medium) == 86) by (nonlinear_arith)
            requires
                raw_data_modules(5) == 1079,
                ecc_per_block(ErrorCorrectionLevel::Medium, 5) == 24,
                block_count(ErrorCorrectionLevel::Medium, 5) == 2,
        ;
        assert(ecc_per_block(ErrorCorrectionLevel::Quartile, 5) == 18 && block_count(ErrorCorrectionLevel::Quartile, 5) == 4);
        assert(data_codewords(5, ErrorCorrectionLevel::Quartile) == 62) by (nonlinear_arith)
            requires
                raw_data_modules(5) == 1079,
                ecc_per_block(ErrorCorrectionLevel::Quartile, 5) == 18,
                block_count(ErrorCorrectionLevel::Quartile, 5) == 4,
        ;
        assert(ecc_per_block(ErrorCorrectionLevel::High, 5) == 22 && block_count(ErrorCorrectionLevel::High, 5) == 4);
        assert(data_codewords(5, ErrorCorrectionLevel::High) == 46) by (nonlinear_arith)
            requires
                raw_data_modules(5) == 1079,
                ecc_per_block(ErrorCorrectionLevel::High, 5) == 22,
                block_count(ErrorCorrectionLevel::High, 5) == 4,
        ;
    } else if version == 6 {
        assert(alignment_count(6) == 2);
        assert(raw_data_modules(6) == 1383) by (nonlinear_arith)
            requires
                alignment_count(6) == 2,
        ;
        assert(ecc_per_block(ErrorCorrectionLevel::Low, 6) == 18 && block_count(ErrorCorrectionLevel::Low, 6) == 2);
        assert(data_codewords(6, ErrorCorrectionLevel::Low) == 136) by (nonlinear_arith)
            requires
                raw_data_modules(6) == 1383,
                ecc_per_block(ErrorCorrectionLevel::Low, 6) == 18,
                block_count(ErrorCorrectionLevel::Low, 6) == 2,
        ;
        assert(ecc_per_block(ErrorCorrectionLevel::Medium, 6) == 16 && block_count(ErrorCorrectionLevel::Medium, 6) == 4);
        assert(data_codewords(6, ErrorCorrectionLevel::Medium) == 108) by (nonlinear_arith)
            requires
                raw_data_modules(6) == 1383,
                ecc_per_block(ErrorCorrectionLevel::Medium, 6) == 16,
                block_count(ErrorCorrectionLevel::Medium, 6) == 4,
        ;
        assert(ecc_per_block(ErrorCorrectionLevel::Quartile, 6) == 24 && block_count(ErrorCorrectionLevel::Quartile, 6) == 4);
        assert(data_codewords(6, ErrorCorrectionLevel::Quartile) == 76) by (nonlinear_arith)
            requires
                raw_data_modules(6) == 1383,
                ecc_per_block(ErrorCorrectionLevel::Quartile, 6) == 24,
                block_count(ErrorCorrectionLevel::Quartile, 6) == 4,
        ;
        assert(ecc_per_block(ErrorCorrectionLevel::High, 6) == 28 && block_count(ErrorCorrectionLevel::High, 6) == 4);
        assert(data_codewords(6, ErrorCorrectionLevel::High) == 60) by (nonlinear_arith)
            requires
                raw_data_modules(6) == 1383,
                ecc_per_block(ErrorCorrectionLevel::High, 6) == 28,
                block_count(ErrorCorrectionLevel::High, 6) == 4,
        ;
    } else if version == 7 {
        assert(alignment_count(7) == 3);
        assert(raw_data_modules(7) == 1568) by (nonlinear_arith)
            requires
                alignment_count(7) == 3,
        ;
        assert(ecc_per_block(ErrorCorrectionLevel::Low, 7) == 20 && block_count(ErrorCorrectionLevel::Low, 7) == 2);
        assert(data_codewords(7, ErrorCorrectionLevel::Low) == 156) by (nonlinear_arith)
            requires
                raw_data_modules(7) == 1568,
                ecc_per_block(ErrorCorrectionLevel::Low, 7) == 20,
                block_count(ErrorCorrectionLevel::Low, 7) == 2,
        ;
        assert(ecc_per_block(ErrorCorrectionLevel::Medium, 7) == 18 && block_count(ErrorCorrectionLevel::Medium, 7) == 4);
        assert(data_codewords(7, ErrorCorrectionLevel::Medium) == 124) by (nonlinear_arith)
            requires
                raw_data_modules(7) == 1568,
                ecc_per_block(ErrorCorrectionLevel::Medium, 7) == 18,
                block_count(ErrorCorrectionLevel::Medium, 7) == 4,
        ;
        assert(ecc_per_block(ErrorCorrectionLevel::Quartile, 7) == 18 && block_count(ErrorCorrectionLevel::Quartile, 7) == 6);
        assert(data_codewords(7, ErrorCorrectionLevel::Quartile) == 88) by (nonlinear_arith)
            requires
                raw_data_modules(7) == 1568,
                ecc_per_block(ErrorCorrectionLevel::Quartile, 7) == 18,
                block_count(ErrorCorrectionLevel::Quartile, 7) == 6,
        ;
        assert(ecc_per_block(ErrorCorrectionLevel::High, 7) == 26 && block_count(ErrorCorrectionLevel::High, 7) == 5);
        assert(data_codewords(7, ErrorCorrectionLevel::High) == 66) by (nonlinear_arith)
            requires
                raw_data_modules(7) == 1568,
                ecc_per_block(ErrorCorrectionLevel::High, 7) == 26,
                block_count(ErrorCorrectionLevel::High, 7) == 5,
        ;
    } else if version == 8 {
        assert(alignment_count(8) == 3);
        assert(raw_data_modules(8) == 1936) by (nonlinear_arith)
            requires
                alignment_count(8) == 3,
        ;
        assert(ecc_per_block(ErrorCorrectionLevel::Low, 8) == 24 && block_count(ErrorCorrectionLevel::Low, 8) == 2);
        assert(data_codewords(8, ErrorCorrectionLevel::Low) == 194) by (nonlinear_arith)
            requires
                raw_data_modules(8) == 1936,
                ecc_per_block(ErrorCorrectionLevel::Low, 8) == 24,
                block_count(ErrorCorrectionLevel::Low, 8) == 2,
        ;
        assert(ecc_per_block(ErrorCorrectionLevel::Medium, 8) == 22 && block_count(ErrorCorrectionLevel::Medium, 8) == 4);
        assert(data_codewords(8, ErrorCorrectionLevel::Medium) == 154) by (nonlinear_arith)
            requires
                raw_data_modules(8) == 1936,
                ecc_per_block(ErrorCorrectionLevel::Medium, 8) == 22,
                block_count(ErrorCorrectionLevel::Medium, 8) == 4,
        ;
        assert(ecc_per_block(ErrorCorrectionLevel::Quartile, 8) == 22 && block_count(ErrorCorrectionLevel::Quartile, 8) == 6);
        assert(data_codewords(8, ErrorCorrectionLevel::Quartile) == 110) by (nonlinear_arith)
            requires
                raw_data_modules(8) == 1936,
                ecc_per_block(ErrorCorrectionLevel::Quartile, 8) == 22,
                block_count(ErrorCorrectionLevel::Quartile, 8) == 6,
        ;
        assert(ecc_per_block(ErrorCorrectionLevel::High, 8) == 26 && block_count(ErrorCorrectionLevel::High, 8) == 6);
        assert(data_codewords(8, ErrorCorrectionLevel::High) == 86) by (nonlinear_arith)
            requires
                raw_data_modules(8) == 1936,
                ecc_per_block(ErrorCorrectionLevel::High, 8) == 26,
                block_count(ErrorCorrectionLevel::High, 8) == 6,
        ;
    } else if version == 9 {
        assert(alignment_count(9) == 3);
        assert(raw_data_modules(9) == 2336) by (nonlinear_arith)
            requires
                alignment_count(9) == 3,
        ;
        assert(ecc_per_block(ErrorCorrectionLevel::Low, 9) == 30 && block_count(ErrorCorrectionLevel::Low, 9) == 2);
        assert(data_codewords(9, ErrorCorrectionLevel::Low) == 232) by (nonlinear_arith)
            requires
                raw_data_modules(9) == 2336,
                ecc_per_block(ErrorCorrectionLevel::Low, 9) == 30,
                block_count(ErrorCorrectionLevel::Low, 9) == 2,
        ;
        assert(ecc_per_block(ErrorCorrectionLevel::Medium, 9) == 22 && block_count(ErrorCorrectionLevel::Medium, 9) == 5);
        assert(data_codewords(9, ErrorCorrectionLevel::Medium) == 182) by (nonlinear_arith)
            requires
                raw_data_modules(9) == 2336,
                ecc_per_block(ErrorCorrectionLevel::Medium, 9) == 22,
                block_count(ErrorCorrectionLevel::Medium, 9) == 5,
        ;
        assert(ecc_per_block(ErrorCorrectionLevel::Quartile, 9) == 20 && block_count(ErrorCorrectionLevel::Quartile, 9) == 8);
        assert(data_codewords(9, ErrorCorrectionLevel::Quartile) == 132) by (nonlinear_arith)
            requires
                raw_data_modules(9) == 2336,
                ecc_per_block(ErrorCorrectionLevel::Quartile, 9) == 20,
                block_count(ErrorCorrectionLevel::Quartile, 9) == 8,
        ;
        assert(ecc_per_block(ErrorCorrectionLevel::High, 9) == 24 && block_count(ErrorCorrectionLevel::High, 9) == 8);
        assert(data_codewords(9, ErrorCorrectionLevel::High) == 100) by (nonlinear_arith)
            requires
                raw_data_modules(9) == 2336,
                ecc_per_block(ErrorCorrectionLevel::High, 9) == 24,
                block_count(ErrorCorrectionLevel::High, 9) == 8,
        ;
    } else if version == 10 {
        assert(alignment_count(10) == 3);
        assert(raw_data_modules(10) == 2768) by (nonlinear_arith)
            requires
                alignment_count(10) == 3,
        ;
        assert(ecc_per_block(ErrorCorrectionLevel::Low, 10) == 18 && block_count(ErrorCorrectionLevel::Low, 10) == 4);
        assert(data_codewords(10, ErrorCorrectionLevel::Low) == 274) by (nonlinear_arith)
            requires
                raw_data_modules(10) == 2768,
                ecc_per_block(ErrorCorrectionLevel::Low, 10) == 18,
                block_count(ErrorCorrectionLevel::Low, 10) == 4,
        ;
        assert(ecc_per_block(ErrorCorrectionLevel::Medium, 10) == 26 && block_count(ErrorCorrectionLevel::Medium, 10) == 5);
        assert(data_codewords(10, ErrorCorrectionLevel::Medium) == 216) by (nonlinear_arith)
            requires
                raw_data_modules(10) == 2768,
                ecc_per_block(ErrorCorrectionLevel::Medium, 10) == 26,
                block_count(ErrorCorrectionLevel::Medium, 10) == 5,
        ;
        assert(ecc_per_block(ErrorCorrectionLevel::Quartile, 10) == 24 && block_count(ErrorCorrectionLevel::Quartile, 10) == 8);
        assert(data_codewords(10, ErrorCorrectionLevel::Quartile) == 154) by (nonlinear_arith)
            requires
                raw_data_modules(10) == 2768,
                ecc_per_block(ErrorCorrectionLevel::Quartile, 10) == 24,
                block_count(ErrorCorrectionLevel::Quartile, 10) == 8,
        ;
        assert(ecc_per_block(ErrorCorrectionLevel::High, 10) == 28 && block_count(ErrorCorrectionLevel::High, 10) == 8);
        assert(data_codewords(10, ErrorCorrectionLevel::High) == 122) by (nonlinear_arith)
            requires
                raw_data_modules(10) == 2768,
                ecc_per_block(ErrorCorrectionLevel::High, 10) == 28,
                block_count(ErrorCorrectionLevel::High, 10) == 8,
        ;
    } else if version == 11 {
        assert(alignment_count(11) == 3);
        assert(raw_data_modules(11) == 3232) by (nonlinear_arith)
            requires
                alignment_count(11) == 3,
        ;
        assert(ecc_per_block(ErrorCorrectionLevel::Low, 11) == 20 && block_count(ErrorCorrectionLevel::Low, 11) == 4);
        assert(data_codewords(11, ErrorCorrectionLevel::Low) == 324) by (nonlinear_arith)
            requires
                raw_data_modules(11) == 3232,
                ecc_per_block(ErrorCorrectionLevel::Low, 11) == 20,
                block_count(ErrorCorrectionLevel::Low, 11) == 4,
        ;
        assert(ecc_per_block(ErrorCorrectionLevel::Medium, 11) == 30 && block_count(ErrorCorrectionLevel::Medium, 11) == 5);
        assert(data_codewords(11, ErrorCorrectionLevel::Medium) == 254) by (nonlinear_arith)
            requires
                raw_data_modules(11) == 3232,
                ecc_per_block(ErrorCorrectionLevel::Medium, 11) == 30,
                block_count(ErrorCorrectionLevel::Medium, 11) == 5,
        ;
        assert(ecc_per_block(ErrorCorrectionLevel::Quartile, 11) == 28 && block_count(ErrorCorrectionLevel::Quartile, 11) == 8);
        assert(data_codewords(11, ErrorCorrectionLevel::Quartile) == 180) by (nonlinear_arith)
            requires
                raw_data_modules(11) == 3232,
                ecc_per_block(ErrorCorrectionLevel::Quartile, 11) == 28,
                block_count(ErrorCorrectionLevel::Quartile, 11) == 8,
        ;
        assert(ecc_per_block(ErrorCorrectionLevel::High, 11) == 24 && block_count(ErrorCorrectionLevel::High, 11) == 11);
        assert(data_codewords(11, ErrorCorrectionLevel::High) == 140) by (nonlinear_arith)
            requires
                raw_data_modules(11) == 3232,
                ecc_per_block(ErrorCorrectionLevel::High, 11) == 24,
                block_count(ErrorCorrectionLevel::High, 11) == 11,
        ;
    } else if version == 12 {
        assert(alignment_count(12) == 3);
        assert(raw_data_modules(12) == 3728) by (nonlinear_arith)
            requires
                alignment_count(12) == 3,
        ;
        assert(ecc_per_block(ErrorCorrectionLevel::Low, 12) == 24 && block_count(ErrorCorrectionLevel::Low, 12) == 4);
        assert(data_codewords(12, ErrorCorrectionLevel::Low) == 370) by (nonlinear_arith)
            requires
                raw_data_modules(12) == 3728,
                ecc_per_block(ErrorCorrectionLevel::Low, 12) == 24,
                block_count(ErrorCorrectionLevel::Low, 12) == 4,
        ;
        assert(ecc_per_block(ErrorCorrectionLevel::Medium, 12) == 22 && block_count(ErrorCorrectionLevel::Medium, 12) == 8);
        assert(data_codewords(12, ErrorCorrectionLevel::Medium) == 290) by (nonlinear_arith)
            requires
                raw_data_modules(12) == 3728,
                ecc_per_block(ErrorCorrectionLevel::Medium, 12) == 22,
                block_count(ErrorCorrectionLevel::Medium, 12) == 8,
        ;
        assert(ecc_per_block(ErrorCorrectionLevel::Quartile, 12) == 26 && block_count(ErrorCorrectionLevel::Quartile, 12) == 10);
        assert(data_codewords(12, ErrorCorrectionLevel::Quartile) == 206) by (nonlinear_arith)
            requires
                raw_data_modules(12) == 3728,
                ecc_per_block(ErrorCorrectionLevel::Quartile, 12) == 26,
                block_count(ErrorCorrectionLevel::Quartile, 12) == 10,
        ;
        assert(ecc_per_block(ErrorCorrectionLevel::High, 12) == 28 && block_count(ErrorCorrectionLevel::High, 12) == 11);
        assert(data_codewords(12, ErrorCorrectionLevel::High) == 158) by (nonlinear_arith)
            requires
                raw_data_modules(12) == 3728,
                ecc_per_block(ErrorCorrectionLevel::High, 12) == 28,
                block_count(ErrorCorrectionLevel::High, 12) == 11,
        ;
    } else if version == 13 {
        assert(alignment_count(13) == 3);
        assert(raw_data_modules(13) == 4256) by (nonlinear_arith)
            requires
                alignment_count(13) == 3,
        ;
        assert(ecc_per_block(ErrorCorrectionLevel::Low, 13) == 26 && block_count(ErrorCorrectionLevel::Low, 13) == 4);
        assert(data_codewords(13, ErrorCorrectionLevel::Low) == 428) by (nonlinear_arith)
            requires
                raw_data_modules(13) == 4256,
                ecc_per_block(ErrorCorrectionLevel::Low, 13) == 26,
                block_count(ErrorCorrectionLevel::Low, 13) == 4,
        ;
        assert(ecc_per_block(ErrorCorrectionLevel::Medium, 13) == 22 && block_count(ErrorCorrectionLevel::Medium, 13) == 9);
        assert(data_codewords(13, ErrorCorrectionLevel::Medium) == 334) by (nonlinear_arith)
            requires
                raw_data_modules(13) == 4256,
                ecc_per_block(ErrorCorrectionLevel::Medium, 13) == 22,
                block_count(ErrorCorrectionLevel::Medium, 13) == 9,
        ;
        assert(ecc_per_block(ErrorCorrectionLevel::Quartile, 13) == 24 && block_count(ErrorCorrectionLevel::Quartile, 13) == 12);
        assert(data_codewords(13, ErrorCorrectionLevel::Quartile) == 244) by (nonlinear_arith)
            requires
                raw_data_modules(13) == 4256,
                ecc_per_block(ErrorCorrectionLevel::Quartile, 13) == 24,
                block_count(ErrorCorrectionLevel::Quartile, 13) == 12,
        ;
        assert(ecc_per_block(ErrorCorrectionLevel::High, 13) == 22 && block_count(ErrorCorrectionLevel::High, 13) == 16);
        assert(data_codewords(13, ErrorCorrectionLevel::High) == 180) by (nonlinear_arith)
            requires
                raw_data_modules(13) == 4256,
                ecc_per_block(ErrorCorrectionLevel::High, 13) == 22,
                block_count(ErrorCorrectionLevel::High, 13) == 16,
        ;
    } else if version == 14 {
        assert(alignment_count(14) == 4);
        assert(raw_data_modules(14) == 4651) by (nonlinear_arith)
            requires
                alignment_count(14) == 4,
        ;
        assert(ecc_per_block(ErrorCorrectionLevel::Low, 14) == 30 && block_count(ErrorCorrectionLevel::Low, 14) == 4);
        assert(data_codewords(14, ErrorCorrectionLevel::Low) == 461) by (nonlinear_arith)
            requires
                raw_data_modules(14) == 4651,
                ecc_per_block(ErrorCorrectionLevel::Low, 14) == 30,
                block_count(ErrorCorrectionLevel::Low, 14) == 4,
        ;
        assert(ecc_per_block(ErrorCorrectionLevel::Medium, 14) == 24 && block_count(ErrorCorrectionLevel::Medium, 14) == 9);
        assert(data_codewords(14, ErrorCorrectionLevel::Medium) == 365) by (nonlinear_arith)
            requires
                raw_data_modules(14) == 4651,
                ecc_per_block(ErrorCorrectionLevel::Medium, 14) == 24,
                block_count(ErrorCorrectionLevel::Medium, 14) == 9,
        ;
        assert(ecc_per_block(ErrorCorrectionLevel::Quartile, 14) == 20 && block_count(ErrorCorrectionLevel::Quartile, 14) == 16);
        assert(data_codewords(14, ErrorCorrectionLevel::Quartile) == 261) by (nonlinear_arith)
            requires
                raw_data_modules(14) == 4651,
                ecc_per_block(ErrorCorrectionLevel::Quartile, 14) == 20,
                block_count(ErrorCorrectionLevel::Quartile, 14) == 16,
        ;
        assert(ecc_per_block(ErrorCorrectionLevel::High, 14) == 24 && block_count(ErrorCorrectionLevel::High, 14) == 16);
        assert(data_codewords(14, ErrorCorrectionLevel::High) == 197) by (nonlinear_arith)
            requires
                raw_data_modules(14) == 4651,
                ecc_per_block(ErrorCorrectionLevel::High, 14) == 24,
                block_count(ErrorCorrectionLevel::High, 14) == 16,
        ;
    } else if version == 15 {
        assert(alignment_count(15) == 4);
        assert(raw_data_modules(15) == 5243) by (nonlinear_arith)
            requires
                alignment_count(15) == 4,
        ;
        assert(ecc_per_block(ErrorCorrectionLevel::Low, 15) == 22 && block_count(ErrorCorrectionLevel::Low, 15) == 6);
        assert(data_codewords(15, ErrorCorrectionLevel::Low) == 523) by (nonlinear_arith)
            requires
                raw_data_modules(15) == 5243,
                ecc_per_block(ErrorCorrectionLevel::Low, 15) == 22,
                block_count(ErrorCorrectionLevel::Low, 15) == 6,
        ;
        assert(ecc_per_block(ErrorCorrectionLevel::Medium, 15) == 24 && block_count(ErrorCorrectionLevel::Medium, 15) == 10);
        assert(data_codewords(15, ErrorCorrectionLevel::Medium) == 415) by (nonlinear_arith)
            requires
                raw_data_modules(15) == 5243,
                ecc_per_block(ErrorCorrectionLevel::Medium, 15) == 24,
                block_count(ErrorCorrectionLevel::Medium, 15) == 10,
        ;
        assert(ecc_per_block(ErrorCorrectionLevel::Quartile, 15) == 30 && block_count(ErrorCorrectionLevel::Quartile, 15) == 12);
        assert(data_codewords(15, ErrorCorrectionLevel::Quartile) == 295) by (nonlinear_arith)
            requires
                raw_data_modules(15) == 5243,
                ecc_per_block(ErrorCorrectionLevel::Quartile, 15) == 30,
                block_count(ErrorCorrectionLevel::Quartile, 15) == 12,
        ;
        assert(ecc_per_block(ErrorCorrectionLevel::High, 15) == 24 && block_count(ErrorCorrectionLevel::High, 15) == 18);
        assert(data_codewords(15, ErrorCorrectionLevel::High) == 223) by (nonlinear_arith)
            requires
                raw_data_modules(15) == 5243,
                ecc_per_block(ErrorCorrectionLevel::High, 15) == 24,
                block_count(ErrorCorrectionLevel::High, 15) == 18,
        ;
    } else if version == 16 {
        assert(alignment_count(16) == 4);
        assert(raw_data_modules(16) == 5867) by (nonlinear_arith)
            requires
                alignment_count(16) == 4,
        ;
        assert(ecc_per_block(ErrorCorrectionLevel::Low, 16) == 24 && block_count(ErrorCorrectionLevel::Low, 16) == 6);
        assert(data_codewords(16, ErrorCorrectionLevel::Low) == 589) by (nonlinear_arith)
            requires
                raw_data_modules(16) == 5867,
                ecc_per_block(ErrorCorrectionLevel::Low, 16) == 24,
                block_count(ErrorCorrectionLevel::Low, 16) == 6,
        ;
        assert(ecc_per_block(ErrorCorrectionLevel::Medium, 16) == 28 && block_count(ErrorCorrectionLevel::Medium, 16) == 10);
        assert(data_codewords(16, ErrorCorrectionLevel::Medium) == 453) by (nonlinear_arith)
            requires
                raw_data_modules(16) == 5867,
                ecc_per_block(ErrorCorrectionLevel::Medium, 16) == 28,
                block_count(ErrorCorrectionLevel::Medium, 16) == 10,
        ;
        assert(ecc_per_block(ErrorCorrectionLevel::Quartile, 16) == 24 && block_count(ErrorCorrectionLevel::Quartile, 16) == 17);
        assert(data_codewords(16, ErrorCorrectionLevel::Quartile) == 325) by (nonlinear_arith)
            requires
                raw_data_modules(16) == 5867,
                ecc_per_block(ErrorCorrectionLevel::Quartile, 16) == 24,
                block_count(ErrorCorrectionLevel::Quartile, 16) == 17,
        ;
        assert(ecc_per_block(ErrorCorrectionLevel::High, 16) == 30 && block_count(ErrorCorrectionLevel::High, 16) == 16);
        assert(data_codewords(16, ErrorCorrectionLevel::High) == 253) by (nonlinear_arith)
            requires
                raw_data_modules(16) == 5867,
                ecc_per_block(ErrorCorrectionLevel::High, 16) == 30,
                block_count(ErrorCorrectionLevel::High, 16) == 16,
        ;
    } else if version == 17 {
        assert(alignment_count(17) == 4);
        assert(raw_data_modules(17) == 6523) by (nonlinear_arith)
            requires
                alignment_count(17) == 4,
        ;
        assert(ecc_per_block(ErrorCorrectionLevel::Low, 17) == 28 && block_count(ErrorCorrectionLevel::Low, 17) == 6);
        assert(data_codewords(17, ErrorCorrectionLevel::Low) == 647) by (nonlinear_arith)
            requires
                raw_data_modules(17) == 6523,
                ecc_per_block(ErrorCorrectionLevel::Low, 17) == 28,
                block_count(ErrorCorrectionLevel::Low, 17) == 6,
        ;
        assert(ecc_per_block(ErrorCorrectionLevel::Medium, 17) == 28 && block_count(ErrorCorrectionLevel::Medium, 17) == 11);
        assert(data_codewords(17, ErrorCorrectionLevel::Medium) == 507) by (nonlinear_arith)
            requires
                raw_data_modules(17) == 6523,
                ecc_per_block(ErrorCorrectionLevel::Medium, 17) == 28,
                block_count(ErrorCorrectionLevel::Medium, 17) == 11,
        ;
        assert(ecc_per_block(ErrorCorrectionLevel::Quartile, 17) == 28 && block_count(ErrorCorrectionLevel::Quartile, 17) == 16);
        assert(data_codewords(17, ErrorCorrectionLevel::Quartile) == 367) by (nonlinear_arith)
            requires
                raw_data_modules(17) == 6523,
                ecc_per_block(ErrorCorrectionLevel::Quartile, 17) == 28,
                block_count(ErrorCorrectionLevel::Quartile, 17) == 16,
        ;
        assert(ecc_per_block(ErrorCorrectionLevel::High, 17) == 28 && block_count(ErrorCorrectionLevel::High, 17) == 19);
        assert(data_codewords(17, ErrorCorrectionLevel::High) == 283) by (nonlinear_arith)
            requires
                raw_data_modules(17) == 6523,
                ecc_per_block(ErrorCorrectionLevel::High, 17) == 28,
                block_count(ErrorCorrectionLevel::High, 17) == 19,
        ;
    } else if version == 18 {
        assert(alignment_count(18) == 4);
        assert(raw_data_modules(18) == 7211) by (nonlinear_arith)
            requires
                alignment_count(18) == 4,
        ;
        assert(ecc_per_block(ErrorCorrectionLevel::Low, 18) == 30 && block_count(ErrorCorrectionLevel::Low, 18) == 6);
        assert(data_codewords(18, ErrorCorrectionLevel::Low) == 721) by (nonlinear_arith)
            requires
                raw_data_modules(18) == 7211,
                ecc_per_block(ErrorCorrectionLevel::Low, 18) == 30,
                block_count(ErrorCorrectionLevel::Low, 18) == 6,
        ;
        assert(ecc_per_block(ErrorCorrectionLevel::Medium, 18) == 26 && block_count(ErrorCorrectionLevel::Medium, 18) == 13);
        assert(data_codewords(18, ErrorCorrectionLevel::Medium) == 563) by (nonlinear_arith)
            requires
                raw_data_modules(18) == 7211,
                ecc_per_block(ErrorCorrectionLevel::Medium, 18) == 26,
                block_count(ErrorCorrectionLevel::Medium, 18) == 13,
        ;
        assert(ecc_per_block(ErrorCorrectionLevel::Quartile, 18) == 28 && block_count(ErrorCorrectionLevel::Quartile, 18) == 18);
        assert(data_codewords(18, ErrorCorrectionLevel::Quartile) == 397) by (nonlinear_arith)
            requires
                raw_data_modules(18) == 7211,
                ecc_per_block(ErrorCorrectionLevel::Quartile, 18) == 28,
                block_count(ErrorCorrectionLevel::Quartile, 18) == 18,
        ;
        assert(ecc_per_block(ErrorCorrectionLevel::High, 18) == 28 && block_count(ErrorCorrectionLevel::High, 18) == 21);
        assert(data_codewords(18, ErrorCorrectionLevel::High) == 313) by (nonlinear_arith)
            requires
                raw_data_modules(18) == 7211,
                ecc_per_block(ErrorCorrectionLevel::High, 18) == 28,
                block_count(ErrorCorrectionLevel::High, 18) == 21,
        ;
    } else if version == 19 {
        assert(alignment_count(19) == 4);
        assert(raw_data_modules(19) == 7931) by (nonlinear_arith)
            requires
                alignment_count(19) == 4,
        ;
        assert(ecc_per_block(ErrorCorrectionLevel::Low, 19) == 28 && block_count(ErrorCorrectionLevel::Low, 19) == 7);
        assert(data_codewords(19, ErrorCorrectionLevel::Low) == 795) by (nonlinear_arith)
            requires
                raw_data_modules(19) == 7931,
                ecc_per_block(ErrorCorrectionLevel::Low, 19) == 28,
                block_count(ErrorCorrectionLevel::Low, 19) == 7,
        ;
        assert(ecc_per_block(ErrorCorrectionLevel::Medium, 19) == 26 && block_count(ErrorCorrectionLevel::Medium, 19) == 14);
        assert(data_codewords(19, ErrorCorrectionLevel::Medium) == 627) by (nonlinear_arith)
            requires
                raw_data_modules(19) == 7931,
                ecc_per_block(ErrorCorrectionLevel::Medium, 19) == 26,
                block_count(ErrorCorrectionLevel::Medium, 19) == 14,
        ;
        assert(ecc_per_block(ErrorCorrectionLevel::Quartile, 19) == 26 && block_count(ErrorCorrectionLevel::Quartile, 19) == 21);
        assert(data_codewords(19, ErrorCorrectionLevel::Quartile) == 445) by (nonlinear_arith)
            requires
                raw_data_modules(19) == 7931,
                ecc_per_block(ErrorCorrectionLevel::Quartile, 19) == 26,
                block_count(ErrorCorrectionLevel::Quartile, 19) == 21,
        ;
        assert(ecc_per_block(ErrorCorrectionLevel::High, 19) == 26 && block_count(ErrorCorrectionLevel::High, 19) == 25);
        assert(data_codewords(19, ErrorCorrectionLevel::High) == 341) by (nonlinear_arith)
            requires
                raw_data_modules(19) == 7931,
                ecc_per_block(ErrorCorrectionLevel::High, 19) == 26,
                block_count(ErrorCorrectionLevel::High, 19) == 25,
        ;
    } else if version == 20 {
        assert(alignment_count(20) == 4);
        assert(raw_data_modules(20) == 8683) by (nonlinear_arith)
            requires
                alignment_count(20) == 4,
        ;
        assert(ecc_per_block(ErrorCorrectionLevel::Low, 20) == 28 && block_count(ErrorCorrectionLevel::Low, 20) == 8);
        assert(data_codewords(20, ErrorCorrectionLevel::Low) == 861) by (nonlinear_arith)
            requires
                raw_data_modules(20) == 8683,
                ecc_per_block(ErrorCorrectionLevel::Low, 20) == 28,
                block_count(ErrorCorrectionLevel::Low, 20) == 8,
        ;
        assert(ecc_per_block(ErrorCorrectionLevel::Medium, 20) == 26 && block_count(ErrorCorrectionLevel::Medium, 20) == 16);
        assert(data_codewords(20, ErrorCorrectionLevel::Medium) == 669) by (nonlinear_arith)
            requires
                raw_data_modules(20) == 8683,
                ecc_per_block(ErrorCorrectionLevel::Medium, 20) == 26,
                block_count(ErrorCorrectionLevel::Medium, 20) == 16,
        ;
        assert(ecc_per_block(ErrorCorrectionLevel::Quartile, 20) == 30 && block_count(ErrorCorrectionLevel::Quartile, 20) == 20);
        assert(data_codewords(20, ErrorCorrectionLevel::Quartile) == 485) by (nonlinear_arith)
            requires
                raw_data_modules(20) == 8683,
                ecc_per_block(ErrorCorrectionLevel::Quartile, 20) == 30,
                block_count(ErrorCorrectionLevel::Quartile, 20) == 20,
        ;
        assert(ecc_per_block(ErrorCorrectionLevel::High, 20) == 28 && block_count(ErrorCorrectionLevel::High, 20) == 25);
        assert(data_codewords(20, ErrorCorrectionLevel::High) == 385) by (nonlinear_arith)
            requires
                raw_data_modules(20) == 8683,
                ecc_per_block(ErrorCorrectionLevel::High, 20) == 28,
                block_count(ErrorCorrectionLevel::High, 20) == 25,
        ;
    } else if version == 21 {
        assert(alignment_count(21) == 5);
        assert(raw_data_modules(21) == 9252) by (nonlinear_arith)
            requires
                alignment_count(21) == 5,
        ;
        assert(ecc_per_block(ErrorCorrectionLevel::Low, 21) == 28 && block_count(ErrorCorrectionLevel::Low, 21) == 8);
        assert(data_codewords(21, ErrorCorrectionLevel::Low) == 932) by (nonlinear_arith)
            requires
                raw_data_modules(21) == 9252,
                ecc_per_block(ErrorCorrectionLevel::Low, 21) == 28,
                block_count(ErrorCorrectionLevel::Low, 21) == 8,
        ;
        assert(ecc_per_block(ErrorCorrectionLevel::Medium, 21) == 26 && block_count(ErrorCorrectionLevel::Medium, 21) == 17);
        assert(data_codewords(21, ErrorCorrectionLevel::Medium) == 714) by (nonlinear_arith)
            requires
                raw_data_modules(21) == 9252,
                ecc_per_block(ErrorCorrectionLevel::Medium, 21) == 26,
                block_count(ErrorCorrectionLevel::Medium, 21) == 17,
        ;
        assert(ecc_per_block(ErrorCorrectionLevel::Quartile, 21) == 28 && block_count(ErrorCorrectionLevel::Quartile, 21) == 23);
        assert(data_codewords(21, ErrorCorrectionLevel::Quartile) == 512) by (nonlinear_arith)
            requires
                raw_data_modules(21) == 9252,
                ecc_per_block(ErrorCorrectionLevel::Quartile, 21) == 28,
                block_count(ErrorCorrectionLevel::Quartile, 21) == 23,
        ;
        assert(ecc_per_block(ErrorCorrectionLevel::High, 21) == 30 && block_count(ErrorCorrectionLevel::High, 21) == 25);
        assert(data_codewords(21, ErrorCorrectionLevel::High) == 406) by (nonlinear_arith)
            requires
                raw_data_modules(21) == 9252,
                ecc_per_block(ErrorCorrectionLevel::High, 21) == 30,
                block_count(ErrorCorrectionLevel::High, 21) == 25,
        ;
    } else if version == 22 {
        assert(alignment_count(22) == 5);
        assert(raw_data_modules(22) == 10068) by (nonlinear_arith)
            requires
                alignment_count(22) == 5,
        ;
        assert(ecc_per_block(ErrorCorrectionLevel::Low, 22) == 28 && block_count(ErrorCorrectionLevel::Low, 22) == 9);
        assert(data_codewords(22, ErrorCorrectionLevel::Low) == 1006) by (nonlinear_arith)
            requires
                raw_data_modules(22) == 10068,
                ecc_per_block(ErrorCorrectionLevel::Low, 22) == 28,
                block_count(ErrorCorrectionLevel::Low, 22) == 9,
        ;
        assert(ecc_per_block(ErrorCorrectionLevel::Medium, 22) == 28 && block_count(ErrorCorrectionLevel::Medium, 22) == 17);
        assert(data_codewords(22, ErrorCorrectionLevel::Medium) == 782) by (nonlinear_arith)
            requires
                raw_data_modules(22) == 10068,
                ecc_per_block(ErrorCorrectionLevel::Medium, 22) == 28,
                block_count(ErrorCorrectionLevel::Medium, 22) == 17,
        ;
        assert(ecc_per_block(ErrorCorrectionLevel::Quartile, 22) == 30 && block_count(ErrorCorrectionLevel::Quartile, 22) == 23);
        assert(data_codewords(22, ErrorCorrectionLevel::Quartile) == 568) by (nonlinear_arith)
            requires
                raw_data_modules(22) == 10068,
                ecc_per_block(ErrorCorrectionLevel::Quartile, 22) == 30,
                block_count(ErrorCorrectionLevel::Quartile, 22) == 23,
        ;
        assert(ecc_per_block(ErrorCorrectionLevel::High, 22) == 24 && block_count(ErrorCorrectionLevel::High, 22) == 34);
        assert(data_codewords(22, ErrorCorrectionLevel::High) == 442) by (nonlinear_arith)
            requires
                raw_data_modules(22) == 10068,
                ecc_per_block(ErrorCorrectionLevel::High, 22) == 24,
                block_count(ErrorCorrectionLevel::High, 22) == 34,
        ;
    } else if version == 23 {
        assert(alignment_count(23) == 5);
        assert(raw_data_modules(23) == 10916) by (nonlinear_arith)
            requires
                alignment_count(23) == 5,
        ;
        assert(ecc_per_block(ErrorCorrectionLevel::Low, 23) == 30 && block_count(ErrorCorrectionLevel::Low, 23) == 9);
        assert(data_codewords(23, ErrorCorrectionLevel::Low) == 1094) by (nonlinear_arith)
            requires
                raw_data_modules(23) == 10916,
                ecc_per_block(ErrorCorrectionLevel::Low, 23) == 30,
                block_count(ErrorCorrectionLevel::Low, 23) == 9,
        ;
        assert(ecc_per_block(ErrorCorrectionLevel::Medium, 23) == 28 && block_count(ErrorCorrectionLevel::Medium, 23) == 18);
        assert(data_codewords(23, ErrorCorrectionLevel::Medium) == 860) by (nonlinear_arith)
            requires
                raw_data_modules(23) == 10916,
                ecc_per_block(ErrorCorrectionLevel::Medium, 23) == 28,
                block_count(ErrorCorrectionLevel::Medium, 23) == 18,
        ;
        assert(ecc_per_block(ErrorCorrectionLevel::Quartile, 23) == 30 && block_count(ErrorCorrectionLevel::Quartile, 23) == 25);
        assert(data_codewords(23, ErrorCorrectionLevel::Quartile) == 614) by (nonlinear_arith)
            requires
                raw_data_modules(23) == 10916,
                ecc_per_block(ErrorCorrectionLevel::Quartile, 23) == 30,
                block_count(ErrorCorrectionLevel::Quartile, 23) == 25,
        ;
        assert(ecc_per_block(ErrorCorrectionLevel::High, 23) == 30 && block_count(ErrorCorrectionLevel::High, 23) == 30);
        assert(data_codewords(23, ErrorCorrectionLevel::High) == 464) by (nonlinear_arith)
            requires
                raw_data_modules(23) == 10916,
                ecc_per_block(ErrorCorrectionLevel::High, 23) == 30,
                block_count(ErrorCorrectionLevel::High, 23) == 30,
        ;
    } else if version == 24 {
        assert(alignment_count(24) == 5);
        assert(raw_data_modules(24) == 11796) by (nonlinear_arith)
            requires
                alignment_count(24) == 5,
        ;
        assert(ecc_per_block(ErrorCorrectionLevel::Low, 24) == 30 && block_count(ErrorCorrectionLevel::Low, 24) == 10);
        assert(data_codewords(24, ErrorCorrectionLevel::Low) == 1174) by (nonlinear_arith)
            requires
                raw_data_modules(24) == 11796,
                ecc_per_block(ErrorCorrectionLevel::Low, 24) == 30,
                block_count(ErrorCorrectionLevel::Low, 24) == 10,
        ;
        assert(ecc_per_block(ErrorCorrectionLevel::Medium, 24) == 28 && block_count(ErrorCorrectionLevel::Medium, 24) == 20);
        assert(data_codewords(24, ErrorCorrectionLevel::Medium) == 914) by (nonlinear_arith)
            requires
                raw_data_modules(24) == 11796,
                ecc_per_block(ErrorCorrectionLevel::Medium, 24) == 28,
                block_count(ErrorCorrectionLevel::Medium, 24) == 20,
        ;
        assert(ecc_per_block(ErrorCorrectionLevel::Quartile, 24) == 30 && block_count(ErrorCorrectionLevel::Quartile, 24) == 27);
        assert(data_codewords(24, ErrorCorrectionLevel::Quartile) == 664) by (nonlinear_arith)
            requires
                raw_data_modules(24) == 11796,
                ecc_per_block(ErrorCorrectionLevel::Quartile, 24) == 30,
                block_count(ErrorCorrectionLevel::Quartile, 24) == 27,
        ;
        assert(ecc_per_block(ErrorCorrectionLevel::High, 24) == 30 && block_count(ErrorCorrectionLevel::High, 24) == 32);
        assert(data_codewords(24, ErrorCorrectionLevel::High) == 514) by (nonlinear_arith)
            requires
                raw_data_modules(24) == 11796,
                ecc_per_block(ErrorCorrectionLevel::High, 24) == 30,
                block_count(ErrorCorrectionLevel::High, 24) == 32,
        ;
    } else if version == 25 {
        assert(alignment_count(25) == 5);
        assert(raw_data_modules(25) == 12708) by (nonlinear_arith)
            requires
                alignment_count(25) == 5,
        ;
        assert(ecc_per_block(ErrorCorrectionLevel::Low, 25) == 26 && block_count(ErrorCorrectionLevel::Low, 25) == 12);
        assert(data_codewords(25, ErrorCorrectionLevel::Low) == 1276) by (nonlinear_arith)
            requires
                raw_data_modules(25) == 12708,
                ecc_per_block(ErrorCorrectionLevel::Low, 25) == 26,
                block_count(ErrorCorrectionLevel::Low, 25) == 12,
        ;
        assert(ecc_per_block(ErrorCorrectionLevel::Medium, 25) == 28 && block_count(ErrorCorrectionLevel::Medium, 25) == 21);
        assert(data_codewords(25, ErrorCorrectionLevel::Medium) == 1000) by (nonlinear_arith)
            requires
                raw_data_modules(25) == 12708,
                ecc_per_block(ErrorCorrectionLevel::Medium, 25) == 28,
                block_count(ErrorCorrectionLevel::Medium, 25) == 21,
        ;
        assert(ecc_per_block(ErrorCorrectionLevel::Quartile, 25) == 30 && block_count(ErrorCorrectionLevel::Quartile, 25) == 29);
        assert(data_codewords(25, ErrorCorrectionLevel::Quartile) == 718) by (nonlinear_arith)
            requires
                raw_data_modules(25) == 12708,
                ecc_per_block(ErrorCorrectionLevel::Quartile, 25) == 30,
                block_count(ErrorCorrectionLevel::Quartile, 25) == 29,
        ;
        assert(ecc_per_block(ErrorCorrectionLevel::High, 25) == 30 && block_count(ErrorCorrectionLevel::High, 25) == 35);
        assert(data_codewords(25, ErrorCorrectionLevel::High) == 538) by (nonlinear_arith)
            requires
                raw_data_modules(25) == 12708,
                ecc_per_block(ErrorCorrectionLevel::High, 25) == 30,
                block_count(ErrorCorrectionLevel::High, 25) == 35,
        ;
    } else if version == 26 {
        assert(alignment_count(26) == 5);
        assert(raw_data_modules(26) == 13652) by (nonlinear_arith)
            requires
                alignment_count(26) == 5,
        ;
        assert(ecc_per_block(ErrorCorrectionLevel::Low, 26) == 28 && block_count(ErrorCorrectionLevel::Low, 26) == 12);
        assert(data_codewords(26, ErrorCorrectionLevel::Low) == 1370) by (nonlinear_arith)
            requires
                raw_data_modules(26) == 13652,
                ecc_per_block(ErrorCorrectionLevel::Low, 26) == 28,
                block_count(ErrorCorrectionLevel::Low, 26) == 12,
        ;
        assert(ecc_per_block(ErrorCorrectionLevel::Medium, 26) == 28 && block_count(ErrorCorrectionLevel::Medium, 26) == 23);
        assert(data_codewords(26, ErrorCorrectionLevel::Medium) == 1062) by (nonlinear_arith)
            requires
                raw_data_modules(26) == 13652,
                ecc_per_block(ErrorCorrectionLevel::Medium, 26) == 28,
                block_count(ErrorCorrectionLevel::Medium, 26) == 23,
        ;
        assert(ecc_per_block(ErrorCorrectionLevel::Quartile, 26) == 28 && block_count(ErrorCorrectionLevel::Quartile, 26) == 34);
        assert(data_codewords(26, ErrorCorrectionLevel::Quartile) == 754) by (nonlinear_arith)
            requires
                raw_data_modules(26) == 13652,
                ecc_per_block(ErrorCorrectionLevel::Quartile, 26) == 28,
                block_count(ErrorCorrectionLevel::Quartile, 26) == 34,
        ;
        assert(ecc_per_block(ErrorCorrectionLevel::High, 26) == 30 && block_count(ErrorCorrectionLevel::High, 26) == 37);
        assert(data_codewords(26, ErrorCorrectionLevel::High) == 596) by (nonlinear_arith)
            requires
                raw_data_modules(26) == 13652,
                ecc_per_block(ErrorCorrectionLevel::High, 26) == 30,
                block_count(ErrorCorrectionLevel::High, 26) == 37,
        ;
    } else if version == 27 {
        assert(alignment_count(27) == 5);
        assert(raw_data_modules(27) == 14628) by (nonlinear_arith)
            requires
                alignment_count(27) == 5,
        ;
        assert(ecc_per_block(ErrorCorrectionLevel::Low, 27) == 30 && block_count(ErrorCorrectionLevel::Low, 27) == 12);
        assert(data_codewords(27, ErrorCorrectionLevel::Low) == 1468) by (nonlinear_arith)
            requires
                raw_data_modules(27) == 14628,
                ecc_per_block(ErrorCorrectionLevel::Low, 27) == 30,
                block_count(ErrorCorrectionLevel::Low, 27) == 12,
        ;
        assert(ecc_per_block(ErrorCorrectionLevel::Medium, 27) == 28 && block_count(ErrorCorrectionLevel::Medium, 27) == 25);
        assert(data_codewords(27, ErrorCorrectionLevel::Medium) == 1128) by (nonlinear_arith)
            requires
                raw_data_modules(27) == 14628,
                ecc_per_block(ErrorCorrectionLevel::Medium, 27) == 28,
                block_count(ErrorCorrectionLevel::Medium, 27) == 25,
        ;
        assert(ecc_per_block(ErrorCorrectionLevel::Quartile, 27) == 30 && block_count(ErrorCorrectionLevel::Quartile, 27) == 34);
        assert(data_codewords(27, ErrorCorrectionLevel::Quartile) == 808) by (nonlinear_arith)
            requires
                raw_data_modules(27) == 14628,
                ecc_per_block(ErrorCorrectionLevel::Quartile, 27) == 30,
                block_count(ErrorCorrectionLevel::Quartile, 27) == 34,
        ;
        assert(ecc_per_block(ErrorCorrectionLevel::High, 27) == 30 && block_count(ErrorCorrectionLevel::High, 27) == 40);
        assert(data_codewords(27, ErrorCorrectionLevel::High) == 628) by (nonlinear_arith)
            requires
                raw_data_modules(27) == 14628,
                ecc_per_block(ErrorCorrectionLevel::High, 27) == 30,
                block_count(ErrorCorrectionLevel::High, 27) == 40,
        ;
    } else if version == 28 {
        assert(alignment_count(28) == 6);
        assert(raw_data_modules(28) == 15371) by (nonlinear_arith)
            requires
                alignment_count(28) == 6,
        ;
        assert(ecc_per_block(ErrorCorrectionLevel::Low, 28) == 30 && block_count(ErrorCorrectionLevel::Low, 28) == 13);
        assert(data_codewords(28, ErrorCorrectionLevel::Low) == 1531) by (nonlinear_arith)
            requires
                raw_data_modules(28) == 15371,
                ecc_per_block(ErrorCorrectionLevel::Low, 28) == 30,
                block_count(ErrorCorrectionLevel::Low, 28) == 13,
        ;
        assert(ecc_per_block(ErrorCorrectionLevel::Medium, 28) == 28 && block_count(ErrorCorrectionLevel::Medium, 28) == 26);
        assert(data_codewords(28, ErrorCorrectionLevel::Medium) == 1193) by (nonlinear_arith)
            requires
                raw_data_modules(28) == 15371,
                ecc_per_block(ErrorCorrectionLevel::Medium, 28) == 28,
                block_count(ErrorCorrectionLevel::Medium, 28) == 26,
        ;
        assert(ecc_per_block(ErrorCorrectionLevel::Quartile, 28) == 30 && block_count(ErrorCorrectionLevel::Quartile, 28) == 35);
        assert(data_codewords(28, ErrorCorrectionLevel::Quartile) == 871) by (nonlinear_arith)
            requires
                raw_data_modules(28) == 15371,
                ecc_per_block(ErrorCorrectionLevel::Quartile, 28) == 30,
                block_count(ErrorCorrectionLevel::Quartile, 28) == 35,
        ;
        assert(ecc_per_block(ErrorCorrectionLevel::High, 28) == 30 && block_count(ErrorCorrectionLevel::High, 28) == 42);
        assert(data_codewords(28, ErrorCorrectionLevel::High) == 661) by (nonlinear_arith)
            requires
                raw_data_modules(28) == 15371,
                ecc_per_block(ErrorCorrectionLevel::High, 28) == 30,
                block_count(ErrorCorrectionLevel::High, 28) == 42,
        ;
    } else if version == 29 {
        assert(alignment_count(29) == 6);
        assert(raw_data_modules(29) == 16411) by (nonlinear_arith)
            requires
                alignment_count(29) == 6,
        ;
        assert(ecc_per_block(ErrorCorrectionLevel::Low, 29) == 30 && block_count(ErrorCorrectionLevel::Low, 29) == 14);
        assert(data_codewords(29, ErrorCorrectionLevel::Low) == 1631) by (nonlinear_arith)
            requires
                raw_data_modules(29) == 16411,
                ecc_per_block(ErrorCorrectionLevel::Low, 29) == 30,
                block_count(ErrorCorrectionLevel::Low, 29) == 14,
        ;
        assert(ecc_per_block(ErrorCorrectionLevel::Medium, 29) == 28 && block_count(ErrorCorrectionLevel::Medium, 29) == 28);
        assert(data_codewords(29, ErrorCorrectionLevel::Medium) == 1267) by (nonlinear_arith)
            requires
                raw_data_modules(29) == 16411,
                ecc_per_block(ErrorCorrectionLevel::Medium, 29) == 28,
                block_count(ErrorCorrectionLevel::Medium, 29) == 28,
        ;
        assert(ecc_per_block(ErrorCorrectionLevel::Quartile, 29) == 30 && block_count(ErrorCorrectionLevel::Quartile, 29) == 38);
        assert(data_codewords(29, ErrorCorrectionLevel::Quartile) == 911) by (nonlinear_arith)
            requires
                raw_data_modules(29) == 16411,
                ecc_per_block(ErrorCorrectionLevel::Quartile, 29) == 30,
                block_count(ErrorCorrectionLevel::Quartile, 29) == 38,
        ;
        assert(ecc_per_block(ErrorCorrectionLevel::High, 29) == 30 && block_count(ErrorCorrectionLevel::High, 29) == 45);
        assert(data_codewords(29, ErrorCorrectionLevel::High) == 701) by (nonlinear_arith)
            requires
                raw_data_modules(29) == 16411,
                ecc_per_block(ErrorCorrectionLevel::High, 29) == 30,
                block_count(ErrorCorrectionLevel::High, 29) == 45,
        ;
    } else if version == 30 {
        assert(alignment_count(30) == 6);
        assert(raw_data_modules(30) == 17483) by (nonlinear_arith)
            requires
                alignment_count(30) == 6,
        ;
        assert(ecc_per_block(ErrorCorrectionLevel::Low, 30) == 30 && block_count(ErrorCorrectionLevel::Low, 30) == 15);
        assert(data_codewords(30, ErrorCorrectionLevel::Low) == 1735) by (nonlinear_arith)
            requires
                raw_data_modules(30) == 17483,
                ecc_per_block(ErrorCorrectionLevel::Low, 30) == 30,
                block_count(ErrorCorrectionLevel::Low, 30) == 15,
        ;
        assert(ecc_per_block(ErrorCorrectionLevel::Medium, 30) == 28 && block_count(ErrorCorrectionLevel::Medium, 30) == 29);
        assert(data_codewords(30, ErrorCorrectionLevel::Medium) == 1373) by (nonlinear_arith)
            requires
                raw_data_modules(30) == 17483,
                ecc_per_block(ErrorCorrectionLevel::Medium, 30) == 28,
                block_count(ErrorCorrectionLevel::Medium, 30) == 29,
        ;
        assert(ecc_per_block(ErrorCorrectionLevel::Quartile, 30) == 30 && block_count(ErrorCorrectionLevel::Quartile, 30) == 40);
        assert(data_codewords(30, ErrorCorrectionLevel::Quartile) == 985) by (nonlinear_arith)
            requires
                raw_data_modules(30) == 17483,
                ecc_per_block(ErrorCorrectionLevel::Quartile, 30) == 30,
                block_count(ErrorCorrectionLevel::Quartile, 30) == 40,
        ;
        assert(ecc_per_block(ErrorCorrectionLevel::High, 30) == 30 && block_count(ErrorCorrectionLevel::High, 30) == 48);
        assert(data_codewords(30, ErrorCorrectionLevel::High) == 745) by (nonlinear_arith)
            requires
                raw_data_modules(30) == 17483,
                ecc_per_block(ErrorCorrectionLevel::High, 30) == 30,
                block_count(ErrorCorrectionLevel::High, 30) == 48,
        ;
    } else if version == 31 {
        assert(alignment_count(31) == 6);
        assert(raw_data_modules(31) == 18587) by (nonlinear_arith)
            requires
                alignment_count(31) == 6,
        ;
        assert(ecc_per_block(ErrorCorrectionLevel::Low, 31) == 30 && block_count(ErrorCorrectionLevel::Low, 31) == 16);
        assert(data_codewords(31, ErrorCorrectionLevel::Low) == 1843) by (nonlinear_arith)
            requires
                raw_data_modules(31) == 18587,
                ecc_per_block(ErrorCorrectionLevel::Low, 31) == 30,
                block_count(ErrorCorrectionLevel::Low, 31) == 16,
        ;
        assert(ecc_per_block(ErrorCorrectionLevel::Medium, 31) == 28 && block_count(ErrorCorrectionLevel::Medium, 31) == 31);
        assert(data_codewords(31, ErrorCorrectionLevel::Medium) == 1455) by (nonlinear_arith)
            requires
                raw_data_modules(31) == 18587,
                ecc_per_block(ErrorCorrectionLevel::Medium, 31) == 28,
                block_count(ErrorCorrectionLevel::Medium, 31) == 31,
        ;
        assert(ecc_per_block(ErrorCorrectionLevel::Quartile, 31) == 30 && block_count(ErrorCorrectionLevel::Quartile, 31) == 43);
        assert(data_codewords(31, ErrorCorrectionLevel::Quartile) == 1033) by (nonlinear_arith)
            requires
                raw_data_modules(31) == 18587,
                ecc_per_block(ErrorCorrectionLevel::Quartile, 31) == 30,
                block_count(ErrorCorrectionLevel::Quartile, 31) == 43,
        ;
        assert(ecc_per_block(ErrorCorrectionLevel::High, 31) == 30 && block_count(ErrorCorrectionLevel::High, 31) == 51);
        assert(data_codewords(31, ErrorCorrectionLevel::High) == 793) by (nonlinear_arith)
            requires
                raw_data_modules(31) == 18587,
                ecc_per_block(ErrorCorrectionLevel::High, 31) == 30,
                block_count(ErrorCorrectionLevel::High, 31) == 51,
        ;
    } else if version == 32 {
        assert(alignment_count(32) == 6);
        assert(raw_data_modules(32) == 19723) by (nonlinear_arith)
            requires
                alignment_count(32) == 6,
        ;
        assert(ecc_per_block(ErrorCorrectionLevel::Low, 32) == 30 && block_count(ErrorCorrectionLevel::Low, 32) == 17);
        assert(data_codewords(32, ErrorCorrectionLevel::Low) == 1955) by (nonlinear_arith)
            requires
                raw_data_modules(32) == 19723,
                ecc_per_block(ErrorCorrectionLevel::Low, 32) == 30,
                block_count(ErrorCorrectionLevel::Low, 32) == 17,
        ;
        assert(ecc_per_block(ErrorCorrectionLevel::Medium, 32) == 28 && block_count(ErrorCorrectionLevel::Medium, 32) == 33);
        assert(data_codewords(32, ErrorCorrectionLevel::Medium) == 1541) by (nonlinear_arith)
            requires
                raw_data_modules(32) == 19723,
                ecc_per_block(ErrorCorrectionLevel::Medium, 32) == 28,
                block_count(ErrorCorrectionLevel::Medium, 32) == 33,
        ;
        assert(ecc_per_block(ErrorCorrectionLevel::Quartile, 32) == 30 && block_count(ErrorCorrectionLevel::Quartile, 32) == 45);
        assert(data_codewords(32, ErrorCorrectionLevel::Quartile) == 1115) by (nonlinear_arith)
            requires
                raw_data_modules(32) == 19723,
                ecc_per_block(ErrorCorrectionLevel::Quartile, 32) == 30,
                block_count(ErrorCorrectionLevel::Quartile, 32) == 45,
        ;
        assert(ecc_per_block(ErrorCorrectionLevel::High, 32) == 30 && block_count(ErrorCorrectionLevel::High, 32) == 54);
        assert(data_codewords(32, ErrorCorrectionLevel::High) == 845) by (nonlinear_arith)
            requires
                raw_data_modules(32) == 19723,
                ecc_per_block(ErrorCorrectionLevel::High, 32) == 30,
                block_count(ErrorCorrectionLevel::High, 32) == 54,
        ;
    } else if version == 33 {
        assert(alignment_count(33) == 6);
        assert(raw_data_modules(33) == 20891) by (nonlinear_arith)
            requires
                alignment_count(33) == 6,
        ;
        assert(ecc_per_block(ErrorCorrectionLevel::Low, 33) == 30 && block_count(ErrorCorrectionLevel::Low, 33) == 18);
        assert(data_codewords(33, ErrorCorrectionLevel::Low) == 2071) by (nonlinear_arith)
            requires
                raw_data_modules(33) == 20891,
                ecc_per_block(ErrorCorrectionLevel::Low, 33) == 30,
                block_count(ErrorCorrectionLevel::Low, 33) == 18,
        ;
        assert(ecc_per_block(ErrorCorrectionLevel::Medium, 33) == 28 && block_count(ErrorCorrectionLevel::Medium, 33) == 35);
        assert(data_codewords(33, ErrorCorrectionLevel::Medium) == 1631) by (nonlinear_arith)
            requires
                raw_data_modules(33) == 20891,
                ecc_per_block(ErrorCorrectionLevel::Medium, 33) == 28,
                block_count(ErrorCorrectionLevel::Medium, 33) == 35,
        ;
        assert(ecc_per_block(ErrorCorrectionLevel::Quartile, 33) == 30 && block_count(ErrorCorrectionLevel::Quartile, 33) == 48);
        assert(data_codewords(33, ErrorCorrectionLevel::Quartile) == 1171) by (nonlinear_arith)
            requires
                raw_data_modules(33) == 20891,
                ecc_per_block(ErrorCorrectionLevel::Quartile, 33) == 30,
                block_count(ErrorCorrectionLevel::Quartile, 33) == 48,
        ;
        assert(ecc_per_block(ErrorCorrectionLevel::High, 33) == 30 && block_count(ErrorCorrectionLevel::High, 33) == 57);
        assert(data_codewords(33, ErrorCorrectionLevel::High) == 901) by (nonlinear_arith)
            requires
                raw_data_modules(33) == 20891,
                ecc_per_block(ErrorCorrectionLevel::High, 33) == 30,
                block_count(ErrorCorrectionLevel::High, 33) == 57,
        ;
    } else if version == 34 {
        assert(alignment_count(34) == 6);
        assert(raw_data_modules(34) == 22091) by (nonlinear_arith)
            requires
                alignment_count(34) == 6,
        ;
        assert(ecc_per_block(ErrorCorrectionLevel::Low, 34) == 30 && block_count(ErrorCorrectionLevel::Low, 34) == 19);
        assert(data_codewords(34, ErrorCorrectionLevel::Low) == 2191) by (nonlinear_arith)
            requires
                raw_data_modules(34) == 22091,
                ecc_per_block(ErrorCorrectionLevel::Low, 34) == 30,
                block_count(ErrorCorrectionLevel::Low, 34) == 19,
        ;
        assert(ecc_per_block(ErrorCorrectionLevel::Medium, 34) == 28 && block_count(ErrorCorrectionLevel::Medium, 34) == 37);
        assert(data_codewords(34, ErrorCorrectionLevel::Medium) == 1725) by (nonlinear_arith)
            requires
                raw_data_modules(34) == 22091,
                ecc_per_block(ErrorCorrectionLevel::Medium, 34) == 28,
                block_count(ErrorCorrectionLevel::Medium, 34) == 37,
        ;
        assert(ecc_per_block(ErrorCorrectionLevel::Quartile, 34) == 30 && block_count(ErrorCorrectionLevel::Quartile, 34) == 51);
        assert(data_codewords(34, ErrorCorrectionLevel::Quartile) == 1231) by (nonlinear_arith)
            requires
                raw_data_modules(34) == 22091,
                ecc_per_block(ErrorCorrectionLevel::Quartile, 34) == 30,
                block_count(ErrorCorrectionLevel::Quartile, 34) == 51,
        ;
        assert(ecc_per_block(ErrorCorrectionLevel::High, 34) == 30 && block_count(ErrorCorrectionLevel::High, 34) == 60);
        assert(data_codewords(34, ErrorCorrectionLevel::High) == 961) by (nonlinear_arith)
            requires
                raw_data_modules(34) == 22091,
                ecc_per_block(ErrorCorrectionLevel::High, 34) == 30,
                block_count(ErrorCorrectionLevel::High, 34) == 60,
        ;
    } else if version == 35 {
        assert(alignment_count(35) == 7);
        assert(raw_data_modules(35) == 23008) by (nonlinear_arith)
            requires
                alignment_count(35) == 7,
        ;
        assert(ecc_per_block(ErrorCorrectionLevel::Low, 35) == 30 && block_count(ErrorCorrectionLevel::Low, 35) == 19);
        assert(data_codewords(35, ErrorCorrectionLevel::Low) == 2306) by (nonlinear_arith)
            requires
                raw_data_modules(35) == 23008,
                ecc_per_block(ErrorCorrectionLevel::Low, 35) == 30,
                block_count(ErrorCorrectionLevel::Low, 35) == 19,
        ;
        assert(ecc_per_block(ErrorCorrectionLevel::Medium, 35) == 28 && block_count(ErrorCorrectionLevel::Medium, 35) == 38);
        assert(data_codewords(35, ErrorCorrectionLevel::Medium) == 1812) by (nonlinear_arith)
            requires
                raw_data_modules(35) == 23008,
                ecc_per_block(ErrorCorrectionLevel::Medium, 35) == 28,
                block_count(ErrorCorrectionLevel::Medium, 35) == 38,
        ;
        assert(ecc_per_block(ErrorCorrectionLevel::Quartile, 35) == 30 && block_count(ErrorCorrectionLevel::Quartile, 35) == 53);
        assert(data_codewords(35, ErrorCorrectionLevel::Quartile) == 1286) by (nonlinear_arith)
            requires
                raw_data_modules(35) == 23008,
                ecc_per_block(ErrorCorrectionLevel::Quartile, 35) == 30,
                block_count(ErrorCorrectionLevel::Quartile, 35) == 53,
        ;
        assert(ecc_per_block(ErrorCorrectionLevel::High, 35) == 30 && block_count(ErrorCorrectionLevel::High, 35) == 63);
        assert(data_codewords(35, ErrorCorrectionLevel::High) == 986) by (nonlinear_arith)
            requires
                raw_data_modules(35) == 23008,
                ecc_per_block(ErrorCorrectionLevel::High, 35) == 30,
                block_count(ErrorCorrectionLevel::High, 35) == 63,
        ;
    } else if version == 36 {
        assert(alignment_count(36) == 7);
        assert(raw_data_modules(36) == 24272) by (nonlinear_arith)
            requires
                alignment_count(36) == 7,
        ;
        assert(ecc_per_block(ErrorCorrectionLevel::Low, 36) == 30 && block_count(ErrorCorrectionLevel::Low, 36) == 20);
        assert(data_codewords(36, ErrorCorrectionLevel::Low) == 2434) by (nonlinear_arith)
            requires
                raw_data_modules(36) == 24272,
                ecc_per_block(ErrorCorrectionLevel::Low, 36) == 30,
                block_count(ErrorCorrectionLevel::Low, 36) == 20,
        ;
        assert(ecc_per_block(ErrorCorrectionLevel::Medium, 36) == 28 && block_count(ErrorCorrectionLevel::Medium, 36) == 40);
        assert(data_codewords(36, ErrorCorrectionLevel::Medium) == 1914) by (nonlinear_arith)
            requires
                raw_data_modules(36) == 24272,
                ecc_per_block(ErrorCorrectionLevel::Medium, 36) == 28,
                block_count(ErrorCorrectionLevel::Medium, 36) == 40,
        ;
        assert(ecc_per_block(ErrorCorrectionLevel::Quartile, 36) == 30 && block_count(ErrorCorrectionLevel::Quartile, 36) == 56);
        assert(data_codewords(36, ErrorCorrectionLevel::Quartile) == 1354) by (nonlinear_arith)
            requires
                raw_data_modules(36) == 24272,
                ecc_per_block(ErrorCorrectionLevel::Quartile, 36) == 30,
                block_count(ErrorCorrectionLevel::Quartile, 36) == 56,
        ;
        assert(ecc_per_block(ErrorCorrectionLevel::High, 36) == 30 && block_count(ErrorCorrectionLevel::High, 36) == 66);
        assert(data_codewords(36, ErrorCorrectionLevel::High) == 1054) by (nonlinear_arith)
            requires
                raw_data_modules(36) == 24272,
                ecc_per_block(ErrorCorrectionLevel::High, 36) == 30,
                block_count(ErrorCorrectionLevel::High, 36) == 66,
        ;
    } else if version == 37 {
        assert(alignment_count(37) == 7);
        assert(raw_data_modules(37) == 25568) by (nonlinear_arith)
            requires
                alignment_count(37) == 7,
        ;
        assert(ecc_per_block(ErrorCorrectionLevel::Low, 37) == 30 && block_count(ErrorCorrectionLevel::Low, 37) == 21);
        assert(data_codewords(37, ErrorCorrectionLevel::Low) == 2566) by (nonlinear_arith)
            requires
                raw_data_modules(37) == 25568,
                ecc_per_block(ErrorCorrectionLevel::Low, 37) == 30,
                block_count(ErrorCorrectionLevel::Low, 37) == 21,
        ;
        assert(ecc_per_block(ErrorCorrectionLevel::Medium, 37) == 28 && block_count(ErrorCorrectionLevel::Medium, 37) == 43);
        assert(data_codewords(37, ErrorCorrectionLevel::Medium) == 1992) by (nonlinear_arith)
            requires
                raw_data_modules(37) == 25568,
                ecc_per_block(ErrorCorrectionLevel::Medium, 37) == 28,
                block_count(ErrorCorrectionLevel::Medium, 37) == 43,
        ;
        assert(ecc_per_block(ErrorCorrectionLevel::Quartile, 37) == 30 && block_count(ErrorCorrectionLevel::Quartile, 37) == 59);
        assert(data_codewords(37, ErrorCorrectionLevel::Quartile) == 1426) by (nonlinear_arith)
            requires
                raw_data_modules(37) == 25568,
                ecc_per_block(ErrorCorrectionLevel::Quartile, 37) == 30,
                block_count(ErrorCorrectionLevel::Quartile, 37) == 59,
        ;
        assert(ecc_per_block(ErrorCorrectionLevel::High, 37) == 30 && block_count(ErrorCorrectionLevel::High, 37) == 70);
        assert(data_codewords(37, ErrorCorrectionLevel::High) == 1096) by (nonlinear_arith)
            requires
                raw_data_modules(37) == 25568,
                ecc_per_block(ErrorCorrectionLevel::High, 37) == 30,
                block_count(ErrorCorrectionLevel::High, 37) == 70,
        ;
    } else if version == 38 {
        assert(alignment_count(38) == 7);
        assert(raw_data_modules(38) == 26896) by (nonlinear_arith)
            requires
                alignment_count(38) == 7,
        ;
        assert(ecc_per_block(ErrorCorrectionLevel::Low, 38) == 30 && block_count(ErrorCorrectionLevel::Low, 38) == 22);
        assert(data_codewords(38, ErrorCorrectionLevel::Low) == 2702) by (nonlinear_arith)
            requires
                raw_data_modules(38) == 26896,
                ecc_per_block(ErrorCorrectionLevel::Low, 38) == 30,
                block_count(ErrorCorrectionLevel::Low, 38) == 22,
        ;
        assert(ecc_per_block(ErrorCorrectionLevel::Medium, 38) == 28 && block_count(ErrorCorrectionLevel::Medium, 38) == 45);
        assert(data_codewords(38, ErrorCorrectionLevel::Medium) == 2102) by (nonlinear_arith)
            requires
                raw_data_modules(38) == 26896,
                ecc_per_block(ErrorCorrectionLevel::Medium, 38) == 28,
                block_count(ErrorCorrectionLevel::Medium, 38) == 45,
        ;
        assert(ecc_per_block(ErrorCorrectionLevel::Quartile, 38) == 30 && block_count(ErrorCorrectionLevel::Quartile, 38) == 62);
        assert(data_codewords(38, ErrorCorrectionLevel::Quartile) == 1502) by (nonlinear_arith)
            requires
                raw_data_modules(38) == 26896,
                ecc_per_block(ErrorCorrectionLevel::Quartile, 38) == 30,
                block_count(ErrorCorrectionLevel::Quartile, 38) == 62,
        ;
        assert(ecc_per_block(ErrorCorrectionLevel::High, 38) == 30 && block_count(ErrorCorrectionLevel::High, 38) == 74);
        assert(data_codewords(38, ErrorCorrectionLevel::High) == 1142) by (nonlinear_arith)
            requires
                raw_data_modules(38) == 26896,
                ecc_per_block(ErrorCorrectionLevel::High, 38) == 30,
                block_count(ErrorCorrectionLevel::High, 38) == 74,
        ;
    } else if version == 39 {
        assert(alignment_count(39) == 7);
        assert(raw_data_modules(39) == 28256) by (nonlinear_arith)
            requires
                alignment_count(39) == 7,
        ;
        assert(ecc_per_block(ErrorCorrectionLevel::Low, 39) == 30 && block_count(ErrorCorrectionLevel::Low, 39) == 24);
        assert(data_codewords(39, ErrorCorrectionLevel::Low) == 2812) by (nonlinear_arith)
            requires
                raw_data_modules(39) == 28256,
                ecc_per_block(ErrorCorrectionLevel::Low, 39) == 30,
                block_count(ErrorCorrectionLevel::Low, 39) == 24,
        ;
        assert(ecc_per_block(ErrorCorrectionLevel::Medium, 39) == 28 && block_count(ErrorCorrectionLevel::Medium, 39) == 47);
        assert(data_codewords(39, ErrorCorrectionLevel::Medium) == 2216) by (nonlinear_arith)
            requires
                raw_data_modules(39) == 28256,
                ecc_per_block(ErrorCorrectionLevel::Medium, 39) == 28,
                block_count(ErrorCorrectionLevel::Medium, 39) == 47,
        ;
        assert(ecc_per_block(ErrorCorrectionLevel::Quartile, 39) == 30 && block_count(ErrorCorrectionLevel::Quartile, 39) == 65);
        assert(data_codewords(39, ErrorCorrectionLevel::Quartile) == 1582) by (nonlinear_arith)
            requires
                raw_data_modules(39) == 28256,
                ecc_per_block(ErrorCorrectionLevel::Quartile, 39) == 30,
                block_count(ErrorCorrectionLevel::Quartile, 39) == 65,
        ;
        assert(ecc_per_block(ErrorCorrectionLevel::High, 39) == 30 && block_count(ErrorCorrectionLevel::High, 39) == 77);
        assert(data_codewords(39, ErrorCorrectionLevel::High) == 1222) by (nonlinear_arith)
            requires
                raw_data_modules(39) == 28256,
                ecc_per_block(ErrorCorrectionLevel::High, 39) == 30,
                block_count(ErrorCorrectionLevel::High, 39) == 77,
        ;
    } else if version == 40 {
        assert(alignment_count(40) == 7);
        assert(raw_data_modules(40) == 29648) by (nonlinear_arith)
            requires
                alignment_count(40) == 7,
        ;
        assert(ecc_per_block(ErrorCorrectionLevel::Low, 40) == 30 && block_count(ErrorCorrectionLevel::Low, 40) == 25);
        assert(data_codewords(40, ErrorCorrectionLevel::Low) == 2956) by (nonlinear_arith)
            requires
                raw_data_modules(40) == 29648,
                ecc_per_block(ErrorCorrectionLevel::Low, 40) == 30,
                block_count(ErrorCorrectionLevel::Low, 40) == 25,
        ;
        assert(ecc_per_block(ErrorCorrectionLevel::Medium, 40) == 28 && block_count(ErrorCorrectionLevel::Medium, 40) == 49);
        assert(data_codewords(40, ErrorCorrectionLevel::Medium) == 2334) by (nonlinear_arith)
            requires
                raw_data_modules(40) == 29648,
                ecc_per_block(ErrorCorrectionLevel::Medium, 40) == 28,
                block_count(ErrorCorrectionLevel::Medium, 40) == 49,
        ;
        assert(ecc_per_block(ErrorCorrectionLevel::Quartile, 40) == 30 && block_count(ErrorCorrectionLevel::Quartile, 40) == 68);
        assert(data_codewords(40, ErrorCorrectionLevel::Quartile) == 1666) by (nonlinear_arith)
            requires
                raw_data_modules(40) == 29648,
                ecc_per_block(ErrorCorrectionLevel::Quartile, 40) == 30,
                block_count(ErrorCorrectionLevel::Quartile, 40) == 68,
        ;
        assert(ecc_per_block(ErrorCorrectionLevel::High, 40) == 30 && block_count(ErrorCorrectionLevel::High, 40) == 81);
        assert(data_codewords(40, ErrorCorrectionLevel::High) == 1276) by (nonlinear_arith)
            requires
                raw_data_modules(40) == 29648,
                ecc_per_block(ErrorCorrectionLevel::High, 40) == 30,
                block_count(ErrorCorrectionLevel::High, 40) == 81,
        ;
    }
}

/// A stronger error correction level leaves fewer data codewords in the same version:
/// `Low` holds the most, then `Medium`, `Quartile` and `High`.
pub proof fn lemma_capacity_falls_with_level(version: nat)
    requires
        1 <= version <= 40,
    ensures
        data_codewords(version, ErrorCorrectionLevel::Low) > data_codewords(version, ErrorCorrectionLevel::Medium),
        data_codewords(version, ErrorCorrectionLevel::Medium) > data_codewords(version, ErrorCorrectionLevel::Quartile),
        data_codewords(version, ErrorCorrectionLevel::Quartile) > data_codewords(version, ErrorCorrectionLevel::High),
{
    lemma_capacity_values(version);
}

/// One version up holds more data codewords at the same level.
proof fn lemma_capacity_step(level: ErrorCorrectionLevel, version: nat)
    requires
        1 <= version < 40,
    ensures
        data_codewords(version, level) < data_codewords(version + 1, level),
{
    lemma_capacity_values(version);
    lemma_capacity_values(version + 1);
}

/// A larger version holds more data codewords at the same error correction level.
pub proof fn lemma_capacity_grows_with_version(level: ErrorCorrectionLevel, smaller: nat, larger: nat)
    requires
        1 <= smaller < larger <= 40,
    ensures
        data_codewords(smaller, level) < data_codewords(larger, level),
    decreases larger - smaller,
{
    lemma_capacity_step(level, (larger - 1) as nat);
    if smaller < larger - 1 {
        lemma_capacity_grows_with_version(level, smaller, (larger - 1) as nat);
    }
}

} // verus!


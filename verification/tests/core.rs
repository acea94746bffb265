use fastqr::bit_buffer::BitBuffer;
use fastqr::bit_grid::BitGrid;
use fastqr::decode::{decode_matrix, decode_modules};
use fastqr::encode::{encode_bytes, encode_text};
use fastqr::error::QrError;
use fastqr::gf256::{div, exp, inverse, mul};
use fastqr::reed_solomon::{check_segments, correct, generator, remainder_into};
use fastqr::roundtrip::free_cell_count;
use fastqr::tables::{alignment_pattern_positions, num_data_codewords, num_raw_data_modules};
use fastqr::types::{EncodeOptions, ErrorCorrectionLevel, MaskPattern, Version};

#[test]
fn roundtrip_numeric() {
    let code = encode_text("01234567", EncodeOptions::default()).expect("encodes");
    let decoded = decode_modules(code.modules()).expect("decodes");
    assert_eq!(&decoded.bytes[..], b"01234567");
    assert_eq!(decoded.text.as_deref(), Some("01234567"));
}

#[test]
fn roundtrip_alphanumeric() {
    let code = encode_text("HELLO WORLD", EncodeOptions::default()).expect("encodes");
    let decoded = decode_modules(code.modules()).expect("decodes");
    assert_eq!(decoded.text.as_deref(), Some("HELLO WORLD"));
}

#[test]
fn roundtrip_bytes() {
    let payload = "fastqr:こんにちは".as_bytes();
    let code = encode_bytes(payload, EncodeOptions::default()).expect("encodes");
    let decoded = decode_modules(code.modules()).expect("decodes");
    assert_eq!(&decoded.bytes[..], payload);
}

#[test]
fn roundtrip_larger_version() {
    let code = encode_text("fastqr image roundtrip", EncodeOptions::default()).expect("encodes");
    let decoded = decode_modules(code.modules()).expect("decodes");
    assert_eq!(decoded.text.as_deref(), Some("fastqr image roundtrip"));
}

#[test]
fn finder_edges_are_not_overwritten_by_timing_patterns() {
    let code = encode_text("FASTQR", EncodeOptions::default()).expect("encodes");

    for coordinate in 0..=6 {
        assert!(code.module(coordinate, 6), "top-left finder bottom edge at ({coordinate}, 6)");
        assert!(code.module(6, coordinate), "top-left finder right edge at (6, {coordinate})");
    }
    assert!(!code.module(7, 6), "separator next to top-left finder must stay light");
    assert!(!code.module(6, 7), "separator below top-left finder must stay light");

    let size = code.size();
    for coordinate in size - 7..size {
        assert!(code.module(coordinate, 6), "top-right finder bottom edge at ({coordinate}, 6)");
        assert!(code.module(6, coordinate), "bottom-left finder right edge at (6, {coordinate})");
    }
}

#[test]
fn hello_world_picks_version_one_alphanumeric() {
    let code = encode_text("HELLO WORLD", EncodeOptions::default()).expect("encodes");
    assert_eq!(code.version().value(), 1);
    assert_eq!(code.size(), 21);
    assert_eq!(code.error_correction(), ErrorCorrectionLevel::Quartile);
    assert_eq!(code.modules_row_major().len(), 21 * 21);
}

#[test]
fn roundtrip_through_decode_matrix_keeps_parameters() {
    let options = EncodeOptions {
        mask: Some(MaskPattern::new(3).expect("mask")),
        boost_error_correction: false,
        min_error_correction: ErrorCorrectionLevel::Low,
        ..EncodeOptions::default()
    };
    let code = encode_text("https://example.com/fastqr", options).expect("encodes");
    assert_eq!(code.mask().value(), 3);
    assert_eq!(code.error_correction(), ErrorCorrectionLevel::Low);
    let decoded = decode_matrix(&code).expect("decodes");
    assert_eq!(decoded.version, code.version());
    assert_eq!(decoded.mask.value(), 3);
    assert_eq!(decoded.error_correction, ErrorCorrectionLevel::Low);
    assert_eq!(decoded.text.as_deref(), Some("https://example.com/fastqr"));
}

#[test]
fn every_mask_roundtrips() {
    for mask in 0..8 {
        let options = EncodeOptions {
            mask: Some(MaskPattern::new(mask).expect("mask")),
            ..EncodeOptions::default()
        };
        let code = encode_text("MASK TEST 123", options).expect("encodes");
        let decoded = decode_modules(code.modules()).expect("decodes");
        assert_eq!(decoded.mask.value(), mask);
        assert_eq!(decoded.text.as_deref(), Some("MASK TEST 123"));
    }
}

#[test]
fn large_payload_needs_a_large_version() {
    let text = "A".repeat(1000);
    let code = encode_text(&text, EncodeOptions::default()).expect("encodes");
    assert!(code.version().value() >= 20);
    let decoded = decode_modules(code.modules()).expect("decodes");
    assert_eq!(decoded.text.as_deref(), Some(text.as_str()));
}

#[test]
fn payload_too_long_is_refused() {
    let options = EncodeOptions {
        max_version: Version::new(1).expect("version"),
        ..EncodeOptions::default()
    };
    assert_eq!(encode_text("this text is far too long for version one", options), Err(QrError::DataTooLong));
    let data = vec![0u8; 3000];
    assert_eq!(encode_bytes(&data, EncodeOptions::default()), Err(QrError::DataTooLong));
}

#[test]
fn versions_and_masks_are_checked() {
    assert_eq!(Version::new(0), Err(QrError::InvalidVersion(0)));
    assert_eq!(Version::new(41), Err(QrError::InvalidVersion(41)));
    assert_eq!(Version::new(7).expect("version").size(), 45);
    assert_eq!(MaskPattern::new(8), Err(QrError::InvalidMask(8)));
}

#[test]
fn error_messages() {
    assert_eq!(QrError::InvalidVersion(41).message(), "invalid QR version: 41");
    assert_eq!(QrError::InvalidMask(9).message(), "invalid mask pattern: 9");
    assert_eq!(QrError::InvalidMatrixSize(22).message(), "invalid QR matrix size: 22");
    assert_eq!(QrError::UnsupportedMode(8).message(), "unsupported QR mode: 0b1000");
    assert_eq!(QrError::UnsupportedMode(1).message(), "unsupported QR mode: 0b01");
    assert_eq!(QrError::Checksum.message(), "error correction check failed");
}

#[test]
fn wrong_matrix_size_is_refused() {
    let grid = BitGrid::new(22);
    assert_eq!(decode_modules(&grid), Err(QrError::InvalidMatrixSize(22)));
    let grid = BitGrid::new(21);
    assert_eq!(decode_modules(&grid), Err(QrError::InvalidFormatInformation));
}

#[test]
fn damaged_code_fails_the_check() {
    let code = encode_text("HELLO WORLD", EncodeOptions::default()).expect("encodes");
    let mut grid = code.modules().clone();
    for x in 9..12 {
        grid.invert(x, 12);
    }
    assert_eq!(decode_modules(&grid), Err(QrError::Checksum));
}

#[test]
fn galois_field_arithmetic() {
    assert_eq!(mul(2, 0x80), 0x1d);
    assert_eq!(mul(3, 7), 9);
    assert_eq!(mul(0, 0xab), 0);
    assert_eq!(exp(0), 1);
    assert_eq!(exp(8), 0x1d);
    assert_eq!(inverse(2), 0x8e);
    assert_eq!(mul(inverse(0x53), 0x53), 1);
    assert_eq!(div(9, 3), 7);
    assert_eq!(div(0x1d, 0x80), 2);
}

#[test]
fn reed_solomon_generator_and_remainder() {
    assert_eq!(generator(7), vec![127, 122, 154, 164, 11, 68, 117]);
    let data = [32u8, 91, 11, 120, 209, 114, 220, 77, 67, 64, 236, 17, 236, 17, 236, 17];
    let divisor = generator(10);
    let mut ecc = [0u8; 10];
    remainder_into(&data, &divisor, &mut ecc);
    assert_eq!(ecc, [196, 35, 39, 119, 235, 215, 231, 226, 93, 23]);
    assert!(check_segments(&data, &ecc, 10));
    let mut broken = data.to_vec();
    broken.extend_from_slice(&ecc);
    assert!(check_segments(&broken, &[], 10));
    broken[3] ^= 0x55;
    broken[20] ^= 0x01;
    assert!(!check_segments(&broken, &[], 10));
    assert!(correct(&mut broken, 10));
    assert_eq!(&broken[..16], &data[..]);
}

#[test]
fn bit_buffer_packs_bits_most_significant_first() {
    let mut buffer = BitBuffer::with_capacity_bits(11);
    buffer.append_bits(0b101, 3);
    buffer.append_byte(0xff);
    assert_eq!(buffer.bit_len(), 11);
    assert_eq!(buffer.into_bytes(), vec![0xbf, 0xe0]);
}

#[test]
fn every_version_has_a_free_cell_for_each_codeword_bit() {
    for v in 1..=40u8 {
        let version = Version::new(v).expect("version");
        let free = free_cell_count(version);
        assert_eq!(free, num_raw_data_modules(version), "version {v}");
    }
    assert_eq!(free_cell_count(Version::new(1).expect("version")), 208);
}

#[test]
fn alignment_positions_of_versions() {
    let positions = |v: u8| alignment_pattern_positions(Version::new(v).expect("version")).to_vec();
    assert_eq!(positions(1), Vec::<u8>::new());
    assert_eq!(positions(2), vec![6, 18]);
    assert_eq!(positions(7), vec![6, 22, 38]);
    assert_eq!(positions(32), vec![6, 34, 60, 86, 112, 138]);
    assert_eq!(positions(40), vec![6, 30, 58, 86, 114, 142, 170]);
}

#[test]
fn default_bit_buffer_starts_empty_and_packs_appended_bits() {
    let mut buffer = BitBuffer::default();
    assert_eq!(buffer.bit_len(), 0);
    buffer.append_bits(5, 3);
    buffer.append_bits(0x1F, 5);
    buffer.append_bits(1, 1);
    assert_eq!(buffer.bit_len(), 9);
    assert_eq!(buffer.into_bytes(), vec![0xBF, 0x80]);
}

#[test]
fn every_single_byte_change_of_a_codeword_is_detected() {
    let data = [32u8, 91, 11, 120, 209, 114, 220, 77, 67, 64, 236, 17, 236, 17, 236, 17];
    let mut ecc = [0u8; 10];
    remainder_into(&data, &generator(10), &mut ecc);
    let mut word = data.to_vec();
    word.extend_from_slice(&ecc);
    assert!(check_segments(&word, &[], 10));
    for index in 0..word.len() {
        for delta in [1u8, 0x80, 0xff] {
            let mut changed = word.clone();
            changed[index] ^= delta;
            assert!(!check_segments(&changed, &[], 1), "byte {index}");
            assert!(!check_segments(&changed, &[], 10), "byte {index}");
        }
    }
}

#[test]
fn data_capacity_falls_with_level_and_grows_with_version() {
    let levels = [
        ErrorCorrectionLevel::Low,
        ErrorCorrectionLevel::Medium,
        ErrorCorrectionLevel::Quartile,
        ErrorCorrectionLevel::High,
    ];
    assert_eq!(num_data_codewords(Version::new(1).expect("version"), ErrorCorrectionLevel::Low), 19);
    assert_eq!(num_data_codewords(Version::new(40).expect("version"), ErrorCorrectionLevel::High), 1276);
    for v in 1..=40u8 {
        let version = Version::new(v).expect("version");
        for pair in levels.windows(2) {
            assert!(num_data_codewords(version, pair[0]) > num_data_codewords(version, pair[1]), "version {v}");
        }
        if v < 40 {
            let next = Version::new(v + 1).expect("version");
            for level in levels {
                assert!(num_data_codewords(version, level) < num_data_codewords(next, level), "version {v}");
            }
        }
    }
}

#[test]
fn matrices_beyond_version_forty_are_rejected_by_version() {
    assert_eq!(decode_modules(&BitGrid::new(185)), Err(QrError::InvalidVersion(42)));
    assert_eq!(decode_modules(&BitGrid::new(1041)), Err(QrError::InvalidVersion(0)));
    assert_eq!(decode_modules(&BitGrid::new(1046)), Err(QrError::InvalidMatrixSize(1046)));
}

#[test]
fn fixing_the_chosen_mask_gives_the_same_symbol() {
    let options = EncodeOptions::default();
    let chosen = encode_text("MASK CHOICE 12345", options).expect("encodes");
    for m in 0..8u8 {
        let mask = MaskPattern::new(m).expect("mask");
        let fixed = encode_text("MASK CHOICE 12345", EncodeOptions { mask: Some(mask), ..options }).expect("encodes");
        assert_eq!(fixed.mask().value(), m);
        assert_eq!(fixed.version(), chosen.version());
        assert_eq!(fixed.error_correction(), chosen.error_correction());
        if m == chosen.mask().value() {
            assert_eq!(fixed.modules(), chosen.modules());
        } else {
            assert_ne!(fixed.modules(), chosen.modules());
        }
    }
}

#[test]
fn correct_accepts_long_words() {
    let mut word = vec![0u8; 70_000];
    assert!(correct(&mut word, 10));
    assert!(word.iter().all(|&byte| byte == 0));
}

#[test]
fn every_version_leaves_exactly_the_raw_data_modules_free() {
    for v in [1u8, 2, 6, 7, 13, 14, 32, 40] {
        let version = Version::new(v).expect("version");
        assert_eq!(free_cell_count(version), num_raw_data_modules(version), "version {v}");
    }
}

#[test]
fn correct_repairs_one_wrong_byte() {
    let mut word = vec![1u8, 3, 3];
    assert!(correct(&mut word, 2));
    assert_eq!(word, vec![1, 3, 2]);

    let data = [32u8, 91, 11, 120, 209, 114, 220, 77, 67, 64, 236, 17, 236, 17, 236, 17];
    let mut ecc = [0u8; 10];
    remainder_into(&data, &generator(10), &mut ecc);
    let mut codeword = data.to_vec();
    codeword.extend_from_slice(&ecc);
    for position in 0..codeword.len() {
        for delta in [1u8, 0x5a, 0xff] {
            let mut received = codeword.clone();
            received[position] ^= delta;
            assert!(correct(&mut received, 10), "position {position}");
            assert_eq!(received, codeword, "position {position}");
        }
    }
}

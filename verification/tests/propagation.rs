use fastqr::binary::BinaryImage;
use fastqr::bit_grid::BitGrid;
use fastqr::decode::decode_modules;
use fastqr::encode::encode_text;
use fastqr::error::QrError;
use fastqr::raster::{DecodeOptions, RasterError};
use fastqr::scan::decode_rgba;
use fastqr::types::{DecodedQr, EncodeOptions};

/// A reader for a code drawn straight at a known module size and border: it samples the
/// centre of each module and reads the grid, reporting a failed read as a `Qr` error.
fn centre_sampler(size: usize, scale: usize, border: usize) -> impl Fn(&BinaryImage) -> Result<DecodedQr, RasterError> {
    move |image: &BinaryImage| {
        let mut grid = BitGrid::new(size);
        for y in 0..size {
            for x in 0..size {
                let px = (x + border) * scale + scale / 2;
                let py = (y + border) * scale + scale / 2;
                grid.set(x, y, image.get(px, py));
            }
        }
        decode_modules(&grid).map_err(RasterError::Qr)
    }
}

fn checksum_error_grid_with_damaged_finders() -> BitGrid {
    let code = encode_text("fastqr checksum propagation", EncodeOptions::default()).expect("encodes");
    let mut candidate = code.modules().clone();
    let size = candidate.size();
    for y in (0..size).rev() {
        for x in (0..size).rev() {
            if is_likely_function_module(size, x, y) {
                continue;
            }
            candidate.invert(x, y);
            if decode_modules(&candidate) == Err(QrError::Checksum) {
                damage_finders(&mut candidate);
                assert_eq!(decode_modules(&candidate), Err(QrError::Checksum));
                return candidate;
            }
        }
    }
    panic!("could not create checksum fixture");
}

fn is_likely_function_module(size: usize, x: usize, y: usize) -> bool {
    let top_left = x <= 8 && y <= 8;
    let top_right = x >= size - 8 && y <= 8;
    let bottom_left = x <= 8 && y >= size - 8;
    top_left || top_right || bottom_left || x == 6 || y == 6 || x == 8 || y == 8
}

fn damage_finders(grid: &mut BitGrid) {
    let size = grid.size();
    for (center_x, center_y) in [(3_usize, 3_usize), (size - 4, 3), (3, size - 4)] {
        for dy in -1_i32..=1 {
            for dx in -1_i32..=1 {
                grid.set((center_x as i32 + dx) as usize, (center_y as i32 + dy) as usize, false);
            }
        }
    }
}

fn render_grid_to_rgba(grid: &BitGrid, scale: usize, border: usize) -> (Vec<u8>, usize) {
    let size = (grid.size() + border * 2) * scale;
    let mut rgba = vec![255_u8; size * size * 4];
    for module_y in 0..grid.size() {
        for module_x in 0..grid.size() {
            if !grid.get(module_x, module_y) {
                continue;
            }
            let start_x = (module_x + border) * scale;
            let start_y = (module_y + border) * scale;
            for y in start_y..start_y + scale {
                let row = y * size * 4;
                for x in start_x..start_x + scale {
                    let offset = row + x * 4;
                    rgba[offset..offset + 3].fill(0);
                }
            }
        }
    }
    (rgba, size)
}

fn unsupported_mode_grid() -> BitGrid {
    let size: usize = 21;
    let data_codewords: usize = 19;
    let ecc_codewords: usize = 7;

    let mut data = Vec::with_capacity(data_codewords);
    data.push(0x80);
    let mut pad = 0xEC_u8;
    while data.len() < data_codewords {
        data.push(pad);
        pad ^= 0xFD;
    }

    let generator = rs_generator(ecc_codewords);
    let mut ecc = vec![0_u8; ecc_codewords];
    rs_remainder_into(&data, &generator, &mut ecc);
    let mut codewords = data;
    codewords.extend_from_slice(&ecc);

    let mut modules = BitGrid::new(size);
    let mut functions = BitGrid::new(size);
    draw_version1_function_patterns(&mut modules, &mut functions);
    draw_codewords(&mut modules, &functions, &codewords);
    apply_mask0(&mut modules, &functions);
    draw_format_bits_low_mask0(&mut modules, &mut functions);

    assert_eq!(decode_modules(&modules), Err(QrError::UnsupportedMode(8)));
    modules
}

fn draw_version1_function_patterns(modules: &mut BitGrid, functions: &mut BitGrid) {
    let size = modules.size();
    draw_finder(modules, functions, 3, 3);
    draw_finder(modules, functions, size - 4, 3);
    draw_finder(modules, functions, 3, size - 4);

    for index in 8..size - 8 {
        let dark = (index & 1) == 0;
        set_function(modules, functions, 6, index, dark);
        set_function(modules, functions, index, 6, dark);
    }

    for index in 0..=8 {
        if index != 6 {
            functions.set(8, index, true);
            functions.set(index, 8, true);
        }
    }
    for index in 0..8 {
        functions.set(size - 1 - index, 8, true);
    }
    for index in 0..7 {
        functions.set(8, size - 1 - index, true);
    }
    set_function(modules, functions, 8, size - 8, true);
}

fn draw_finder(modules: &mut BitGrid, functions: &mut BitGrid, center_x: usize, center_y: usize) {
    let size = modules.size();
    for dy in -4_i32..=4 {
        for dx in -4_i32..=4 {
            let x = center_x as i32 + dx;
            let y = center_y as i32 + dy;
            if x < 0 || y < 0 || x >= size as i32 || y >= size as i32 {
                continue;
            }
            let dist = dx.unsigned_abs().max(dy.unsigned_abs());
            set_function(modules, functions, x as usize, y as usize, dist != 2 && dist != 4);
        }
    }
}

fn set_function(modules: &mut BitGrid, functions: &mut BitGrid, x: usize, y: usize, dark: bool) {
    modules.set(x, y, dark);
    functions.set(x, y, true);
}

fn draw_codewords(modules: &mut BitGrid, functions: &BitGrid, codewords: &[u8]) {
    let size = modules.size();
    let mut bit_index = 0_usize;
    let mut right = size as isize - 1;
    while right >= 1 {
        if right == 6 {
            right = 5;
        }
        for vertical in 0..size {
            for delta in 0..2 {
                let x = (right - delta) as usize;
                let upward = ((right + 1) & 2) == 0;
                let y = if upward { size - 1 - vertical } else { vertical };
                if functions.get(x, y) {
                    continue;
                }
                if bit_index < codewords.len() * 8 {
                    let bit = ((codewords[bit_index >> 3] >> (7 - (bit_index & 7))) & 1) != 0;
                    modules.set(x, y, bit);
                    bit_index += 1;
                }
            }
        }
        right -= 2;
    }
}

fn apply_mask0(modules: &mut BitGrid, functions: &BitGrid) {
    for y in 0..modules.size() {
        for x in 0..modules.size() {
            if !functions.get(x, y) && ((x + y) & 1) == 0 {
                modules.invert(x, y);
            }
        }
    }
}

fn draw_format_bits_low_mask0(modules: &mut BitGrid, functions: &mut BitGrid) {
    let size = modules.size();
    let bits = format_information_bits_low_mask0();
    let first = [
        (8, 0),
        (8, 1),
        (8, 2),
        (8, 3),
        (8, 4),
        (8, 5),
        (8, 7),
        (8, 8),
        (7, 8),
        (5, 8),
        (4, 8),
        (3, 8),
        (2, 8),
        (1, 8),
        (0, 8),
    ];
    for (index, &(x, y)) in first.iter().enumerate() {
        set_function(modules, functions, x, y, ((bits >> index) & 1) != 0);
    }
    for index in 0..8 {
        set_function(modules, functions, size - 1 - index, 8, ((bits >> index) & 1) != 0);
    }
    for index in 8..15 {
        set_function(modules, functions, 8, size - 15 + index, ((bits >> index) & 1) != 0);
    }
}

fn format_information_bits_low_mask0() -> u16 {
    let data = 1_u16 << 3;
    let mut rem = data;
    for _ in 0..10 {
        rem = (rem << 1) ^ (((rem >> 9) & 1) * 0x537);
    }
    ((data << 10) | rem) ^ 0x5412
}

fn rs_generator(degree: usize) -> Vec<u8> {
    let mut result = vec![0_u8; degree];
    result[degree - 1] = 1;
    let mut root = 1_u8;
    for _ in 0..degree {
        for index in 0..degree {
            result[index] = gf_mul(result[index], root);
            if index + 1 < degree {
                result[index] ^= result[index + 1];
            }
        }
        root = gf_mul(root, 0x02);
    }
    result
}

fn rs_remainder_into(data: &[u8], generator: &[u8], result: &mut [u8]) {
    result.fill(0);
    for &value in data {
        let factor = value ^ result[0];
        result.rotate_left(1);
        if let Some(last) = result.last_mut() {
            *last = 0;
        }
        for (index, coefficient) in generator.iter().enumerate() {
            result[index] ^= gf_mul(*coefficient, factor);
        }
    }
}

fn gf_mul(left: u8, right: u8) -> u8 {
    let mut left = left;
    let mut right = right;
    let mut result = 0_u8;
    while right != 0 {
        if (right & 1) != 0 {
            result ^= left;
        }
        let carry = (left & 0x80) != 0;
        left <<= 1;
        if carry {
            left ^= 0x1D;
        }
        right >>= 1;
    }
    result
}

#[test]
fn preserves_checksum_error_after_sampled_candidate() {
    let grid = checksum_error_grid_with_damaged_finders();
    let (rgba, size) = render_grid_to_rgba(&grid, 8, 4);
    let reader = centre_sampler(grid.size(), 8, 4);
    let error = decode_rgba(
        size,
        size,
        &rgba,
        DecodeOptions {
            try_invert: false,
            ..DecodeOptions::default()
        },
        reader,
    )
    .expect_err("propagates checksum");
    assert!(matches!(error, RasterError::Qr(QrError::Checksum)));
}

#[test]
fn preserves_unsupported_mode_error_after_sampled_candidate() {
    let mut grid = unsupported_mode_grid();
    damage_finders(&mut grid);
    assert_eq!(decode_modules(&grid), Err(QrError::UnsupportedMode(8)));

    let (rgba, size) = render_grid_to_rgba(&grid, 8, 4);
    let reader = centre_sampler(grid.size(), 8, 4);
    let error = decode_rgba(
        size,
        size,
        &rgba,
        DecodeOptions {
            try_invert: false,
            ..DecodeOptions::default()
        },
        reader,
    )
    .expect_err("propagates unsupported mode");
    assert!(matches!(error, RasterError::Qr(QrError::UnsupportedMode(8))));
}

#[test]
fn inverse_read_error_is_reported_when_the_image_has_no_candidate() {
    let grid = checksum_error_grid_with_damaged_finders();
    let (mut rgba, size) = render_grid_to_rgba(&grid, 8, 4);
    for pixel in rgba.chunks_exact_mut(4) {
        for channel in &mut pixel[..3] {
            *channel = 255 - *channel;
        }
    }
    let sampler = centre_sampler(grid.size(), 8, 4);
    let reader = move |image: &BinaryImage| {
        if image.inverted {
            sampler(image)
        } else {
            Err(RasterError::Detector("no candidate"))
        }
    };
    let error = decode_rgba(size, size, &rgba, DecodeOptions::default(), reader).expect_err("fails");
    assert!(matches!(error, RasterError::Qr(QrError::Checksum)));
}

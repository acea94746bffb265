# fastqr

A QR Code library written in Verus: encoding text and bytes into module matrices,
reading matrices back, Reed-Solomon error correction over GF(256), rendering codes
for terminals, SVG and raster images, and decoding pixel buffers. The functions in
`src/` carry contracts that Verus proves, with one exception: the small functions marked
`#[verifier::external_body]`, which make the calls into `std`, `image`, `smallvec` and
`compact_str`. Verus believes their contracts without proof; each states in its doc
comment what it claims of the call it makes.

## Layout

- `src/` — the verified library.
  - `gf256`, `reed_solomon`: field arithmetic, generator polynomials, remainders,
    syndromes and error correction. What is proved of correction: it changes at most
    `ecc_len / 2` bytes, reports whether the result is a codeword, leaves a codeword alone,
    and repairs a word with one wrong byte. That it repairs every word within `ecc_len / 2`
    errors (the optimality of Berlekamp-Massey) is not proved.
  - `bit_buffer`, `bit_grid`, `tables`, `types`, `error`: bit streams, the module
    matrix, capacity tables and the public types.
  - `capacity`: how the data capacity orders across versions and levels.
  - `segment`, `blocks`, `layout`, `penalty`, `encode`: the data segment, block
    interleaving, the symbol's geometry, mask penalties and the encoder.
  - `decode`, `payload`: reading format information, codewords and segments back.
  - `roundtrip`, `cell_count`: what reading a finished symbol gives back of what the encoder
    put in, and the count of the cells that carry codeword bits.
  - `raster`, `binary`, `scan`, `codec`: RGBA rendering, luminance and
    binarization, the decoding pipeline for pixel buffers, and PNG/JPEG/WebP files
    through the `image` crate.
  - `tui`, `svg`, `cli`, `bindings`, `strings`, `text`, `xor_lemmas`: terminal and SVG
    output, the command line parser, the option records of the JavaScript bindings,
    and string helpers.
- `tests/` — tests run against the compiled library.
- `app/` — the command line program, the finder-pattern detector (floating-point
  geometry), and the Node.js and WebAssembly glue.

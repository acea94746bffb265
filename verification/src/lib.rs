//! A QR Code library: encoding text and bytes into module matrices, reading
//! them back, and the Reed-Solomon and Galois-field arithmetic underneath.

pub mod binary;
pub mod bindings;
pub mod bit_buffer;
pub mod bit_grid;
pub mod blocks;
pub mod capacity;
pub mod cell_count;
pub mod codec;
pub mod encode;
pub mod decode;
pub mod error;
pub mod gf256;
pub mod layout;
pub mod payload;
pub mod raster;
pub mod penalty;
pub mod reed_solomon;
pub mod roundtrip;
pub mod scan;
pub mod segment;
pub mod strings;
pub mod svg;
pub mod tables;
pub mod text;
pub mod tui;
pub mod types;
pub mod xor_lemmas;
pub mod cli;

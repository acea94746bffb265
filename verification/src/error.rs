//! Errors reported while encoding or reading QR codes.

use vstd::prelude::*;
use vstd::string::StringExecFns;

use crate::strings::{decimal, push_char, push_decimal};

verus! {

/// Why a QR operation failed.
#[derive(Clone, Debug, PartialEq, Eq, Structural)]
pub enum QrError {
    /// The payload does not fit the selected configuration.
    DataTooLong,
    /// The payload holds a character that the selected mode cannot carry.
    InvalidCharacter,
    /// The format information could not be decoded.
    InvalidFormatInformation,
    /// A mask pattern outside 0..=7.
    InvalidMask(u8),
    /// A matrix side length that is no QR size.
    InvalidMatrixSize(usize),
    /// A version outside 1..=40.
    InvalidVersion(u8),
    /// The payload ends before a segment does.
    MissingTerminator,
    /// A segment mode indicator that is not supported.
    UnsupportedMode(u8),
    /// The decoded payload is not valid UTF-8.
    Utf8,
    /// The error correction check failed.
    Checksum,
}

/// The binary digits of `n`, without leading zeros.
pub open spec fn binary(n: nat) -> Seq<char>
    decreases n,
{
    if n < 2 {
        seq![if n == 0 { '0' } else { '1' }]
    } else {
        binary(n / 2).push(if n % 2 == 0 { '0' } else { '1' })
    }
}

/// `n` as `0b` and at least two binary digits.
pub open spec fn binary_literal(n: nat) -> Seq<char> {
    "0b"@ + if binary(n).len() < 2 {
        seq!['0'] + binary(n)
    } else {
        binary(n)
    }
}

/// The message of an error.
pub open spec fn error_text(e: QrError) -> Seq<char> {
    match e {
        QrError::DataTooLong => "payload does not fit the selected QR configuration"@,
        QrError::InvalidCharacter => "payload contains characters not supported by the selected mode"@,
        QrError::InvalidFormatInformation => "QR format information could not be decoded"@,
        QrError::InvalidMask(mask) => "invalid mask pattern: "@ + decimal(mask as nat),
        QrError::InvalidMatrixSize(size) => "invalid QR matrix size: "@ + decimal(size as nat),
        QrError::InvalidVersion(version) => "invalid QR version: "@ + decimal(version as nat),
        QrError::MissingTerminator => "QR payload is truncated"@,
        QrError::UnsupportedMode(mode) => "unsupported QR mode: "@ + binary_literal(mode as nat),
        QrError::Utf8 => "decoded payload is not valid UTF-8"@,
        QrError::Checksum => "error correction check failed"@,
    }
}

/// Appends the binary digits of `n`.
fn push_binary(s: &mut String, n: u8)
    ensures
        final(s)@ == old(s)@ + binary(n as nat),
    decreases n,
{
    if n >= 2 {
        push_binary(s, n / 2);
    }
    push_char(s, if n % 2 == 0 {
        '0'
    } else {
        '1'
    });
    proof {
        if n >= 2 {
            assert(old(s)@ + binary(n as nat) =~= (old(s)@ + binary((n / 2) as nat)).push(if n % 2 == 0 { '0' } else { '1' }));
        } else {
            assert(old(s)@ + binary(n as nat) =~= old(s)@.push(if n % 2 == 0 { '0' } else { '1' }));
        }
    }
}

impl QrError {
    /// The message describing the error.
    pub fn message(&self) -> (r: String)
        ensures
            r@ == error_text(*self),
    {
        match self {
            QrError::DataTooLong => String::from_str("payload does not fit the selected QR configuration"),
            QrError::InvalidCharacter => String::from_str("payload contains characters not supported by the selected mode"),
            QrError::InvalidFormatInformation => String::from_str("QR format information could not be decoded"),
            QrError::InvalidMask(mask) => {
                let mut text = String::from_str("invalid mask pattern: ");
                push_decimal(&mut text, *mask as u64);
                text
            },
            QrError::InvalidMatrixSize(size) => {
                let mut text = String::from_str("invalid QR matrix size: ");
                push_decimal(&mut text, *size as u64);
                text
            },
            QrError::InvalidVersion(version) => {
                let mut text = String::from_str("invalid QR version: ");
                push_decimal(&mut text, *version as u64);
                text
            },
            QrError::MissingTerminator => String::from_str("QR payload is truncated"),
            QrError::UnsupportedMode(mode) => {
                let mut text = String::from_str("unsupported QR mode: 0b");
                if *mode < 2 {
                    push_char(&mut text, '0');
                }
                push_binary(&mut text, *mode);
                proof {
                    assert(binary(*mode as nat).len() >= 1);
                    if *mode >= 2 {
                        lemma_binary_long(*mode as nat);
                    }
                    assert(text@ =~= "unsupported QR mode: "@ + binary_literal(*mode as nat)) by {
                        reveal_strlit("unsupported QR mode: 0b");
                        reveal_strlit("unsupported QR mode: ");
                        reveal_strlit("0b");
                    }
                }
                text
            },
            QrError::Utf8 => String::from_str("decoded payload is not valid UTF-8"),
            QrError::Checksum => String::from_str("error correction check failed"),
        }
    }
}

/// Two or more has at least two binary digits.
proof fn lemma_binary_long(n: nat)
    requires
        n >= 2,
    ensures
        binary(n).len() >= 2,
    decreases n,
{
    assert(binary(n / 2).len() >= 1) by {
        if n / 2 >= 2 {
            lemma_binary_long(n / 2);
        }
    }
}

} // verus!

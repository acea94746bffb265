//! The value types of the library: versions, masks, error correction levels,
//! data modes, encoding options and encoded codes.

use vstd::prelude::*;

use crate::bit_grid::BitGrid;
use crate::error::QrError;
use compact_str::CompactString;

verus! {

/// A QR version, 1 through 40.
#[derive(Clone, Copy, Debug, PartialEq, Eq, PartialOrd, Ord, Structural)]
pub struct Version(u8);

impl View for Version {
    type V = u8;

    closed spec fn view(&self) -> u8 {
        self.0
    }
}

/// Side length, in modules, of a code of the given version.
pub open spec fn version_size(version: u8) -> nat {
    version as nat * 4 + 17
}

impl Version {
    #[verifier::type_invariant]
    spec fn in_range(self) -> bool {
        1 <= self.0 <= 40
    }

    /// The smallest version.
    pub fn min_version() -> (r: Self)
        ensures
            r@ == 1,
    {
        Version(1)
    }

    /// The largest version.
    pub fn max_version() -> (r: Self)
        ensures
            r@ == 40,
    {
        Version(40)
    }

    /// The version numbered `value`; `InvalidVersion` unless it lies in 1..=40.
    pub fn new(value: u8) -> (r: Result<Self, QrError>)
        ensures
            (1 <= value <= 40) ==> (r matches Ok(v) && v@ == value),
            !(1 <= value <= 40) ==> r == Err::<Self, QrError>(QrError::InvalidVersion(value)),
    {
        if 1 <= value && value <= 40 {
            Ok(Version(value))
        } else {
            Err(QrError::InvalidVersion(value))
        }
    }

    /// The version number.
    pub fn value(self) -> (r: u8)
        ensures
            r == self@,
            1 <= r <= 40,
    {
        proof {
            use_type_invariant(&self);
        }
        self.0
    }

    /// Side length in modules: 4 * version + 17.
    pub fn size(self) -> (r: usize)
        ensures
            r == version_size(self@),
            21 <= r <= 177,
    {
        proof {
            use_type_invariant(&self);
        }
        self.0 as usize * 4 + 17
    }
}

/// One of the eight QR mask patterns, 0 through 7.
#[derive(Clone, Copy, Debug, PartialEq, Eq, Structural)]
pub struct MaskPattern(u8);

impl View for MaskPattern {
    type V = u8;

    closed spec fn view(&self) -> u8 {
        self.0
    }
}

impl MaskPattern {
    #[verifier::type_invariant]
    spec fn in_range(self) -> bool {
        self.0 < 8
    }

    /// The mask numbered `value`; `InvalidMask` unless it lies in 0..=7.
    pub fn new(value: u8) -> (r: Result<Self, QrError>)
        ensures
            value < 8 ==> (r matches Ok(m) && m@ == value),
            value >= 8 ==> r == Err::<Self, QrError>(QrError::InvalidMask(value)),
    {
        if value < 8 {
            Ok(MaskPattern(value))
        } else {
            Err(QrError::InvalidMask(value))
        }
    }

    /// The mask number.
    pub fn value(self) -> (r: u8)
        ensures
            r == self@,
            r < 8,
    {
        proof {
            use_type_invariant(&self);
        }
        self.0
    }
}

/// How much of the code is spent on error correction.
#[derive(Clone, Copy, Debug, PartialEq, Eq, Structural)]
pub enum ErrorCorrectionLevel {
    Low,
    Medium,
    Quartile,
    High,
}

/// Index of a level in the capacity tables: L, M, Q, H as 0, 1, 2, 3.
pub open spec fn ecc_ordinal(level: ErrorCorrectionLevel) -> nat {
    match level {
        ErrorCorrectionLevel::Low => 0,
        ErrorCorrectionLevel::Medium => 1,
        ErrorCorrectionLevel::Quartile => 2,
        ErrorCorrectionLevel::High => 3,
    }
}

/// The two bits that encode a level in the format information.
pub open spec fn ecc_format_bits(level: ErrorCorrectionLevel) -> u8 {
    match level {
        ErrorCorrectionLevel::Low => 1,
        ErrorCorrectionLevel::Medium => 0,
        ErrorCorrectionLevel::Quartile => 3,
        ErrorCorrectionLevel::High => 2,
    }
}

/// The next stronger level, if any.
pub open spec fn ecc_higher(level: ErrorCorrectionLevel) -> Option<ErrorCorrectionLevel> {
    match level {
        ErrorCorrectionLevel::Low => Some(ErrorCorrectionLevel::Medium),
        ErrorCorrectionLevel::Medium => Some(ErrorCorrectionLevel::Quartile),
        ErrorCorrectionLevel::Quartile => Some(ErrorCorrectionLevel::High),
        ErrorCorrectionLevel::High => None,
    }
}

impl ErrorCorrectionLevel {
    /// Index of the level in the capacity tables.
    pub fn ordinal(self) -> (r: usize)
        ensures
            r == ecc_ordinal(self),
    {
        match self {
            ErrorCorrectionLevel::Low => 0,
            ErrorCorrectionLevel::Medium => 1,
            ErrorCorrectionLevel::Quartile => 2,
            ErrorCorrectionLevel::High => 3,
        }
    }

    /// The two format-information bits of the level.
    pub fn format_bits(self) -> (r: u8)
        ensures
            r == ecc_format_bits(self),
    {
        match self {
            ErrorCorrectionLevel::Low => 1,
            ErrorCorrectionLevel::Medium => 0,
            ErrorCorrectionLevel::Quartile => 3,
            ErrorCorrectionLevel::High => 2,
        }
    }

    /// The level whose format bits are `bits`; `InvalidFormatInformation` for bits above 3.
    pub fn from_format_bits(bits: u8) -> (r: Result<Self, QrError>)
        ensures
            bits < 4 ==> (r matches Ok(level) && ecc_format_bits(level) == bits),
            bits >= 4 ==> r == Err::<Self, QrError>(QrError::InvalidFormatInformation),
    {
        match bits {
            1 => Ok(ErrorCorrectionLevel::Low),
            0 => Ok(ErrorCorrectionLevel::Medium),
            3 => Ok(ErrorCorrectionLevel::Quartile),
            2 => Ok(ErrorCorrectionLevel::High),
            _ => Err(QrError::InvalidFormatInformation),
        }
    }

    /// The next stronger level, or `None` for `High`.
    pub fn higher(self) -> (r: Option<Self>)
        ensures
            r == ecc_higher(self),
    {
        match self {
            ErrorCorrectionLevel::Low => Some(ErrorCorrectionLevel::Medium),
            ErrorCorrectionLevel::Medium => Some(ErrorCorrectionLevel::Quartile),
            ErrorCorrectionLevel::Quartile => Some(ErrorCorrectionLevel::High),
            ErrorCorrectionLevel::High => None,
        }
    }
}

/// The segment modes the encoder produces.
#[derive(Clone, Copy, Debug, PartialEq, Eq, Structural)]
pub enum DataMode {
    Numeric,
    Alphanumeric,
    Byte,
}

/// The four-bit mode indicator of a segment.
pub open spec fn mode_indicator(mode: DataMode) -> u8 {
    match mode {
        DataMode::Numeric => 0x1,
        DataMode::Alphanumeric => 0x2,
        DataMode::Byte => 0x4,
    }
}

/// Width of the character count field for a mode in a version.
pub open spec fn count_bits(mode: DataMode, version: u8) -> u8 {
    let group = if 1 <= version <= 9 {
        0nat
    } else if 10 <= version <= 26 {
        1nat
    } else {
        2nat
    };
    match mode {
        DataMode::Numeric => if group == 0 {
            10
        } else if group == 1 {
            12
        } else {
            14
        },
        DataMode::Alphanumeric => if group == 0 {
            9
        } else if group == 1 {
            11
        } else {
            13
        },
        DataMode::Byte => if group == 0 {
            8
        } else {
            16
        },
    }
}

impl DataMode {
    /// The four-bit mode indicator.
    pub fn mode_bits(self) -> (r: u8)
        ensures
            r == mode_indicator(self),
    {
        match self {
            DataMode::Numeric => 0x1,
            DataMode::Alphanumeric => 0x2,
            DataMode::Byte => 0x4,
        }
    }

    /// Width of the character count field in the given version.
    pub fn char_count_bits(self, version: Version) -> (r: u8)
        ensures
            r == count_bits(self, version@),
            8 <= r <= 16,
    {
        let value = version.value();
        let group: usize = if value <= 9 {
            0
        } else if value <= 26 {
            1
        } else {
            2
        };
        match self {
            DataMode::Numeric => if group == 0 {
                10
            } else if group == 1 {
                12
            } else {
                14
            },
            DataMode::Alphanumeric => if group == 0 {
                9
            } else if group == 1 {
                11
            } else {
                13
            },
            DataMode::Byte => if group == 0 {
                8
            } else {
                16
            },
        }
    }
}

/// How a payload is to be encoded.
#[derive(Clone, Copy, Debug, PartialEq, Eq)]
pub struct EncodeOptions {
    /// Smallest version to consider.
    pub min_version: Version,
    /// Largest version to consider.
    pub max_version: Version,
    /// Weakest error correction level accepted.
    pub min_error_correction: ErrorCorrectionLevel,
    /// Raise the level while the payload still fits the chosen version.
    pub boost_error_correction: bool,
    /// A fixed mask, or `None` to pick the mask with the lowest penalty.
    pub mask: Option<MaskPattern>,
}

impl Default for EncodeOptions {
    fn default() -> (r: Self)
        ensures
            r.min_version@ == 1,
            r.max_version@ == 40,
            r.min_error_correction == ErrorCorrectionLevel::Medium,
            r.boost_error_correction,
            r.mask is None,
    {
        EncodeOptions {
            min_version: Version::min_version(),
            max_version: Version::max_version(),
            min_error_correction: ErrorCorrectionLevel::Medium,
            boost_error_correction: true,
            mask: None,
        }
    }
}

/// An encoded QR code: its parameters and its module matrix.
#[derive(Clone, Debug, PartialEq, Eq)]
pub struct QrCode {
    version: Version,
    error_correction: ErrorCorrectionLevel,
    mask: MaskPattern,
    modules: BitGrid,
}

impl QrCode {
    /// The version of the code.
    pub closed spec fn spec_version(&self) -> Version {
        self.version
    }

    /// The error correction level of the code.
    pub closed spec fn spec_error_correction(&self) -> ErrorCorrectionLevel {
        self.error_correction
    }

    /// The mask applied to the data modules.
    pub closed spec fn spec_mask(&self) -> MaskPattern {
        self.mask
    }

    /// The module matrix.
    pub closed spec fn spec_modules(&self) -> BitGrid {
        self.modules
    }

    /// The matrix is well formed and as large as the version says.
    pub open spec fn wf(&self) -> bool {
        &&& self.spec_modules().wf()
        &&& self.spec_modules().spec_size() == version_size(self.spec_version()@)
    }

    pub(crate) fn new(
        version: Version,
        error_correction: ErrorCorrectionLevel,
        mask: MaskPattern,
        modules: BitGrid,
    ) -> (r: Self)
        ensures
            r.spec_version() == version,
            r.spec_error_correction() == error_correction,
            r.spec_mask() == mask,
            r.spec_modules() == modules,
    {
        QrCode { version, error_correction, mask, modules }
    }

    /// The version of the code.
    pub fn version(&self) -> (r: Version)
        ensures
            r == self.spec_version(),
    {
        self.version
    }

    /// Side length of the matrix in modules.
    pub fn size(&self) -> (r: usize)
        ensures
            r == self.spec_modules().spec_size(),
    {
        self.modules.size()
    }

    /// The error correction level of the code.
    pub fn error_correction(&self) -> (r: ErrorCorrectionLevel)
        ensures
            r == self.spec_error_correction(),
    {
        self.error_correction
    }

    /// The mask applied to the data modules.
    pub fn mask(&self) -> (r: MaskPattern)
        ensures
            r == self.spec_mask(),
    {
        self.mask
    }

    /// Whether the module at column `x`, row `y` is dark.
    pub fn module(&self, x: usize, y: usize) -> (r: bool)
        requires
            self.wf(),
            x < self.spec_modules().spec_size(),
            y < self.spec_modules().spec_size(),
        ensures
            r == self.spec_modules().cell(x as int, y as int),
    {
        self.modules.get(x, y)
    }

    /// The module matrix.
    pub fn modules(&self) -> (r: &BitGrid)
        ensures
            *r == self.spec_modules(),
    {
        &self.modules
    }

    /// The modules in row-major order as bytes 1 (dark) and 0 (light).
    pub fn modules_row_major(&self) -> (r: Vec<u8>)
        requires
            self.wf(),
        ensures
            r@ == crate::bit_grid::row_major(self.spec_modules()@, self.spec_modules().spec_size()).map_values(|dark: bool| if dark { 1u8 } else { 0u8 }),
    {
        self.modules.to_row_major_bytes()
    }
}

/// A decoded QR code: its parameters, the payload bytes, and the payload as text when it is
/// valid UTF-8 and declared as such.
#[derive(Debug, PartialEq, Eq)]
pub struct DecodedQr {
    pub version: Version,
    pub error_correction: ErrorCorrectionLevel,
    pub mask: MaskPattern,
    pub bytes: Box<[u8]>,
    pub text: Option<CompactString>,
}

} // verus!

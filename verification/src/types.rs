//! Core ZFP types, constants, dimensionality and scalar-type tags.

use vstd::prelude::*;

mod dims;
mod strides;

pub use dims::ZfpDims;
pub use strides::ZfpStrides;

verus! {

/// ZFP bitstream word type: all bit-level I/O operates on 64-bit words.
pub type ZfpBitStreamWord = u64;

/// Errors that can occur when encoding field metadata to a 52-bit word.
#[derive(Debug, Clone, Copy, PartialEq, Eq, Structural, Hash)]
pub enum ZfpMetadataError {
    /// The field has no dimensions (all dimensions are zero).
    Null,
    /// One or more dimensions exceed the range a 52-bit metadata word encodes.
    DimensionTooLarge,
}

/// Error of the block codec entry points: the slice length does not match the block size.
#[derive(Debug, Clone, Copy, PartialEq, Eq, Structural, Hash)]
pub struct ZfpBlockError;

/// Errors that can occur during compression.
#[derive(Debug, Clone, Copy, PartialEq, Eq, Structural, Hash)]
#[non_exhaustive]
pub enum ZfpCompressionError {
    /// The input field has no data buffer.
    NoData,
    /// The field's data buffer is smaller than its dimensions and strides require.
    InvalidField {
        /// Bytes spanned by the field (`usize::MAX` when the span overflows).
        required: usize,
        /// Bytes available in the field's data buffer.
        actual: usize,
    },
    /// The field's data buffer is not aligned for its scalar type.
    MisalignedData {
        /// Alignment the scalar type requires, in bytes.
        align: usize,
    },
}

/// Errors that can occur during decompression.
#[derive(Debug, Clone, Copy, PartialEq, Eq, Structural, Hash)]
#[non_exhaustive]
pub enum ZfpDecompressionError {
    /// The output field has no data buffer.
    NoData,
    /// The field's data buffer is smaller than its dimensions and strides require.
    InvalidField {
        /// Bytes spanned by the field (`usize::MAX` when the span overflows).
        required: usize,
        /// Bytes available in the field's data buffer.
        actual: usize,
    },
    /// The field's data buffer is not aligned for its scalar type.
    MisalignedData {
        /// Alignment the scalar type requires, in bytes.
        align: usize,
    },
}

pub const ZFP_MIN_BITS: u32 = 1;
pub const ZFP_MAX_BITS: u32 = 16658;
pub const ZFP_MAX_PREC: u32 = 64;
pub const ZFP_MIN_EXP: i32 = -1074;
pub const ZFP_MAGIC_BITS: u32 = 32;
pub const ZFP_META_BITS: u32 = 52;
pub const ZFP_MODE_SHORT_BITS: u32 = 12;
pub const ZFP_MODE_LONG_BITS: u32 = 64;
pub const ZFP_HEADER_MAX_BITS: u32 = 148;

/// Block dimensionality: 1-D through 4-D.
#[derive(Debug, Clone, Copy, PartialEq, Eq, Structural, PartialOrd, Ord, Hash)]
pub enum ZfpDimensionality {
    D1,
    D2,
    D3,
    D4,
}

impl ZfpDimensionality {
    /// The number of dimensions, 1 through 4.
    pub open spec fn count(self) -> nat {
        match self {
            ZfpDimensionality::D1 => 1,
            ZfpDimensionality::D2 => 2,
            ZfpDimensionality::D3 => 3,
            ZfpDimensionality::D4 => 4,
        }
    }

    /// The number of values in a block, `4^d`.
    pub open spec fn spec_block_size(self) -> nat {
        match self {
            ZfpDimensionality::D1 => 4,
            ZfpDimensionality::D2 => 16,
            ZfpDimensionality::D3 => 64,
            ZfpDimensionality::D4 => 256,
        }
    }

    /// Return the number of elements in a block: 4, 16, 64 or 256.
    pub fn block_size(self) -> (r: usize)
        ensures
            r == self.spec_block_size(),
    {
        match self {
            ZfpDimensionality::D1 => 4,
            ZfpDimensionality::D2 => 16,
            ZfpDimensionality::D3 => 64,
            ZfpDimensionality::D4 => 256,
        }
    }

    /// The number of dimensions as an integer (1 to 4).
    pub fn as_u32(self) -> (r: u32)
        ensures
            r == self.count(),
    {
        match self {
            ZfpDimensionality::D1 => 1,
            ZfpDimensionality::D2 => 2,
            ZfpDimensionality::D3 => 3,
            ZfpDimensionality::D4 => 4,
        }
    }

    /// The number of dimensions as a `usize` (1 to 4).
    pub fn as_usize(self) -> (r: usize)
        ensures
            r == self.count(),
    {
        match self {
            ZfpDimensionality::D1 => 1,
            ZfpDimensionality::D2 => 2,
            ZfpDimensionality::D3 => 3,
            ZfpDimensionality::D4 => 4,
        }
    }

    /// Convert a dimension count to a dimensionality; counts outside 1..=4 are refused.
    pub fn from_u32(v: u32) -> (r: Result<ZfpDimensionality, InvalidDimensionalityError>)
        ensures
            1 <= v <= 4 <==> r is Ok,
            r matches Ok(d) ==> d.count() == v,
            r matches Err(e) ==> e.0 == v,
    {
        match v {
            1 => Ok(ZfpDimensionality::D1),
            2 => Ok(ZfpDimensionality::D2),
            3 => Ok(ZfpDimensionality::D3),
            4 => Ok(ZfpDimensionality::D4),
            _ => Err(InvalidDimensionalityError(v)),
        }
    }
}

/// Error returned when a `u32` is not a dimensionality (valid values are 1 through 4).
#[derive(Debug, Clone, Copy, PartialEq, Eq, Structural, Hash)]
pub struct InvalidDimensionalityError(
    /// The invalid value that was supplied.
    pub u32,
);

/// Scalar element type of a field.
#[derive(Debug, Clone, Copy, PartialEq, Eq, Structural, Hash)]
pub enum ZfpScalarType {
    Int32,
    Int64,
    Float,
    Double,
}

impl ZfpScalarType {
    /// Bytes per scalar value: 4 for 32-bit types, 8 for 64-bit types.
    pub open spec fn spec_size(self) -> nat {
        match self {
            ZfpScalarType::Int32 | ZfpScalarType::Float => 4,
            ZfpScalarType::Int64 | ZfpScalarType::Double => 8,
        }
    }

    /// Bits per scalar value.
    pub open spec fn spec_precision(self) -> nat {
        8 * self.spec_size()
    }

    /// Whether values of this type are integers.
    pub open spec fn is_integer(self) -> bool {
        self is Int32 || self is Int64
    }

    /// Number of bytes per scalar value.
    pub fn size(&self) -> (r: usize)
        ensures
            r == self.spec_size(),
    {
        match self {
            ZfpScalarType::Int32 | ZfpScalarType::Float => 4,
            ZfpScalarType::Int64 | ZfpScalarType::Double => 8,
        }
    }

    /// Number of bits per scalar value (32 or 64).
    pub fn precision(&self) -> (r: u32)
        ensures
            r == self.spec_precision(),
    {
        match self {
            ZfpScalarType::Int32 | ZfpScalarType::Float => 32,
            ZfpScalarType::Int64 | ZfpScalarType::Double => 64,
        }
    }

    /// The two-bit code of this type in field metadata.
    pub open spec fn spec_code(self) -> u64 {
        match self {
            ZfpScalarType::Int32 => 0,
            ZfpScalarType::Int64 => 1,
            ZfpScalarType::Float => 2,
            ZfpScalarType::Double => 3,
        }
    }
}

/// Compression mode that a configuration selects.
#[derive(Debug, Clone, Copy, PartialEq, Eq, Structural, Hash)]
pub enum ZfpMode {
    /// Invalid / unset.
    Null,
    /// All four expert parameters set manually.
    Expert,
    /// Fixed compressed bits per block.
    FixedRate,
    /// Fixed number of uncompressed bit planes.
    FixedPrecision,
    /// Absolute error tolerance.
    FixedAccuracy,
    /// Lossless.
    Reversible,
}

/// Header sections to write or read: magic, metadata and mode.
#[derive(Debug, Clone, Copy, PartialEq, Eq, Structural, Hash)]
pub struct ZfpHeaderMask {
    bits: u32,
}

impl ZfpHeaderMask {
    /// No section.
    pub fn none() -> (r: ZfpHeaderMask)
        ensures
            r.spec_bits() == 0,
    {
        ZfpHeaderMask { bits: 0x0 }
    }

    /// The 32-bit magic word.
    pub fn magic() -> (r: ZfpHeaderMask)
        ensures
            r.spec_bits() == 1,
    {
        ZfpHeaderMask { bits: 0x1 }
    }

    /// The 52-bit field metadata.
    pub fn meta() -> (r: ZfpHeaderMask)
        ensures
            r.spec_bits() == 2,
    {
        ZfpHeaderMask { bits: 0x2 }
    }

    /// The 12- or 64-bit compression mode.
    pub fn mode() -> (r: ZfpHeaderMask)
        ensures
            r.spec_bits() == 4,
    {
        ZfpHeaderMask { bits: 0x4 }
    }

    /// All three sections.
    pub fn full() -> (r: ZfpHeaderMask)
        ensures
            r.spec_bits() == 7,
    {
        ZfpHeaderMask { bits: 0x7 }
    }

    /// The raw flag bits.
    pub closed spec fn spec_bits(self) -> u32 {
        self.bits
    }

    /// Whether every flag of `other` is set in `self`.
    pub open spec fn spec_contains(self, other: ZfpHeaderMask) -> bool {
        self.spec_bits() & other.spec_bits() == other.spec_bits()
    }

    /// The raw flag bits.
    pub fn bits(&self) -> (r: u32)
        ensures
            r == self.spec_bits(),
    {
        self.bits
    }

    /// Build a mask from raw bits, dropping bits that name no section.
    pub fn from_bits_truncate(bits: u32) -> (r: ZfpHeaderMask)
        ensures
            r.spec_bits() == bits & 0x7,
    {
        ZfpHeaderMask { bits: bits & 0x7 }
    }

    /// Whether every flag of `other` is set in `self`.
    pub fn contains(&self, other: ZfpHeaderMask) -> (r: bool)
        ensures
            r == self.spec_contains(other),
    {
        self.bits & other.bits == other.bits
    }

    /// The union of two masks.
    pub fn union(self, other: ZfpHeaderMask) -> (r: ZfpHeaderMask)
        ensures
            r.spec_bits() == self.spec_bits() | other.spec_bits(),
    {
        ZfpHeaderMask { bits: self.bits | other.bits }
    }
}

/// A primitive type whose values a field can hold: the tag of its scalar type.
/// The integer types implement it here; floating-point fields are described
/// by their scalar type and their bytes.
pub trait ZfpScalar: Copy {
    /// The scalar type of this primitive type.
    fn scalar_type() -> ZfpScalarType;
}

impl ZfpScalar for i32 {
    fn scalar_type() -> (r: ZfpScalarType)
        ensures
            r == ZfpScalarType::Int32,
    {
        ZfpScalarType::Int32
    }
}

impl ZfpScalar for i64 {
    fn scalar_type() -> (r: ZfpScalarType)
        ensures
            r == ZfpScalarType::Int64,
    {
        ZfpScalarType::Int64
    }
}

} // verus!

//! Why decoding a GGUF file can fail.
use vstd::prelude::*;

verus! {

/// The item that was being read when the bytes ran out or did not decode.
#[derive(Debug, Clone, Copy, PartialEq, Eq, Structural)]
pub enum GgufField {
    Header,
    KeyLength,
    Key,
    ValueType,
    UInt8,
    Int8,
    UInt16,
    Int16,
    UInt32,
    Int32,
    Float32,
    Bool,
    StringLength,
    String,
    ArrayElementType,
    ArrayLength,
    UInt64,
    Int64,
    Float64,
    TensorNameLength,
    TensorName,
    DimensionCount,
    DimensionSize,
    QuantType,
    DataOffset,
    TensorWeights,
}

/// A reason for rejecting the bytes of a GGUF file.
#[derive(Debug, Clone, Copy, PartialEq, Eq, Structural)]
pub enum GgufError {
    /// The file does not start with `GGUF`.
    InvalidMagic,
    /// The bytes end before the given item is complete.
    UnexpectedEnd(GgufField),
    /// The bytes of the given text item are not valid UTF-8.
    InvalidUtf8(GgufField),
    /// A metadata value announces a type code outside `0..=12`.
    UnsupportedValueType(u32),
    /// A boolean metadata value is neither 0 nor 1.
    InvalidBool(u8),
    /// A tensor announces a quantization code that is not supported.
    UnknownQuantType(u32),
}

} // verus!

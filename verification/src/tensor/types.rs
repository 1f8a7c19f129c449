//! Element types, devices and errors of tensors.
use crate::text;
use vstd::prelude::*;

verus! {

/// The type of a tensor's elements: 32-bit floats, or single bits that stand for +1 and -1.
#[derive(Debug, Clone, Copy, PartialEq, Eq, Structural)]
pub enum DType {
    F32,
    BIT1,
}

impl DType {
    /// Bytes of one element (a bit takes a whole byte on its own).
    pub fn size_in_bytes(&self) -> (r: usize)
        ensures
            r == (match *self {
                DType::F32 => 4int,
                DType::BIT1 => 1int,
            }),
    {
        match self {
            DType::F32 => 4,
            DType::BIT1 => 1,
        }
    }

    /// Bits of one element in packed storage.
    pub open spec fn width(self) -> nat {
        match self {
            DType::F32 => 32,
            DType::BIT1 => 1,
        }
    }

    /// Bits of one element in packed storage.
    pub fn bit_width(&self) -> (r: usize)
        ensures
            r == self.width(),
    {
        match self {
            DType::F32 => 32,
            DType::BIT1 => 1,
        }
    }

    /// Elements that share one byte.
    pub fn elems_per_byte(&self) -> (r: usize)
        ensures
            r == (match *self {
                DType::BIT1 => 8int,
                _ => 1int,
            }),
    {
        match self {
            DType::BIT1 => 8,
            _ => 1,
        }
    }

    /// Whether the elements are quantized.
    pub fn is_quantized(&self) -> (r: bool)
        ensures
            r == (*self is BIT1),
    {
        matches!(self, DType::BIT1)
    }

    /// Whether the elements are floats.
    pub fn is_float(&self) -> (r: bool)
        ensures
            r == (*self is F32),
    {
        matches!(self, DType::F32)
    }

    /// The type's short name.
    pub open spec fn label(self) -> Seq<char> {
        match self {
            DType::F32 => "f32"@,
            DType::BIT1 => "bit1"@,
        }
    }

    /// The type's short name.
    pub fn name(&self) -> (r: &'static str)
        ensures
            r@ == self.label(),
    {
        match self {
            DType::F32 => "f32",
            DType::BIT1 => "bit1",
        }
    }
}

/// Where a tensor's bytes are meant to be used.
#[derive(Debug, Clone, Copy, PartialEq, Eq, Hash, Structural)]
pub enum Device {
    Cpu,
    Gpu { device_id: i32 },
}

impl Default for Device {
    fn default() -> (r: Self)
        ensures
            r == Device::Cpu,
    {
        Device::Cpu
    }
}

/// What can go wrong with a tensor.
#[derive(Debug)]
pub enum TensorError {
    ShapeMismatch(String),
    InvalidShape(String),
    OutOfBounds,
    UnsupportedOperation(String),
    IndexError(String),
    ConversionError(String),
}

impl TensorError {
    /// The error's full text.
    pub open spec fn text(self) -> Seq<char> {
        match self {
            TensorError::ShapeMismatch(s) => "Shape mismatch: "@ + s@,
            TensorError::InvalidShape(s) => "Invalid shape: "@ + s@,
            TensorError::OutOfBounds => "Out of bounds access"@,
            TensorError::UnsupportedOperation(s) => "Unsupported operation: "@ + s@,
            TensorError::IndexError(s) => "Index error: "@ + s@,
            TensorError::ConversionError(s) => "Conversion error: "@ + s@,
        }
    }

    /// The error's full text.
    pub fn message(&self) -> (r: String)
        ensures
            r@ == self.text(),
    {
        match self {
            TensorError::ShapeMismatch(s) => text::joined("Shape mismatch: ", s),
            TensorError::InvalidShape(s) => text::joined("Invalid shape: ", s),
            TensorError::OutOfBounds => "Out of bounds access".to_owned(),
            TensorError::UnsupportedOperation(s) => text::joined("Unsupported operation: ", s),
            TensorError::IndexError(s) => text::joined("Index error: ", s),
            TensorError::ConversionError(s) => text::joined("Conversion error: ", s),
        }
    }
}

} // verus!

//! The closed set of element kinds a typed view can interpret bytes as.

use vstd::prelude::*;

verus! {

/// One of the ten fixed-width numeric element types: signed and unsigned
/// integers of 8, 16, 32 and 64 bits, and IEEE-754 binary32 and binary64.
#[derive(Debug, Clone, Copy, PartialEq, Eq, Structural)]
pub enum TypedArrayKind {
    SInt8,
    UInt8,
    SInt16,
    UInt16,
    SInt32,
    UInt32,
    SInt64,
    UInt64,
    Float32,
    Float64,
}

impl TypedArrayKind {
    /// The width in bytes of one element of this kind.
    pub open spec fn width(self) -> nat {
        match self {
            TypedArrayKind::SInt8 => 1,
            TypedArrayKind::UInt8 => 1,
            TypedArrayKind::SInt16 => 2,
            TypedArrayKind::UInt16 => 2,
            TypedArrayKind::SInt32 => 4,
            TypedArrayKind::UInt32 => 4,
            TypedArrayKind::SInt64 => 8,
            TypedArrayKind::UInt64 => 8,
            TypedArrayKind::Float32 => 4,
            TypedArrayKind::Float64 => 8,
        }
    }

    /// Whether elements of this kind are read as two's-complement signed values.
    pub open spec fn is_signed(self) -> bool {
        match self {
            TypedArrayKind::SInt8 => true,
            TypedArrayKind::SInt16 => true,
            TypedArrayKind::SInt32 => true,
            TypedArrayKind::SInt64 => true,
            _ => false,
        }
    }

    /// Whether this kind stores an IEEE-754 floating-point bit pattern.
    pub open spec fn is_float(self) -> bool {
        self == TypedArrayKind::Float32 || self == TypedArrayKind::Float64
    }

    /// The width in bytes of one element: 1 for the 8-bit kinds, 2 for the
    /// 16-bit kinds, 4 for the 32-bit kinds and Float32, 8 for the 64-bit
    /// kinds and Float64.
    pub fn bytes_per_element(self) -> (w: usize)
        ensures
            w == self.width(),
            1 <= w <= 8,
    {
        match self {
            TypedArrayKind::SInt8 => 1,
            TypedArrayKind::UInt8 => 1,
            TypedArrayKind::SInt16 => 2,
            TypedArrayKind::UInt16 => 2,
            TypedArrayKind::SInt32 => 4,
            TypedArrayKind::UInt32 => 4,
            TypedArrayKind::SInt64 => 8,
            TypedArrayKind::UInt64 => 8,
            TypedArrayKind::Float32 => 4,
            TypedArrayKind::Float64 => 8,
        }
    }

    /// The canonical display name of the kind.
    pub fn display_name(self) -> (r: &'static str)
        ensures
            r@ == self.display_name_spec(),
    {
        let r: &'static str = match self {
            TypedArrayKind::SInt8 => "Int8",
            TypedArrayKind::UInt8 => "UInt8",
            TypedArrayKind::SInt16 => "Int16",
            TypedArrayKind::UInt16 => "UInt16",
            TypedArrayKind::SInt32 => "Int32",
            TypedArrayKind::UInt32 => "UInt32",
            TypedArrayKind::SInt64 => "Int64",
            TypedArrayKind::UInt64 => "UInt64",
            TypedArrayKind::Float32 => "Float32",
            TypedArrayKind::Float64 => "Float64",
        };
        r
    }

    /// The element width written as a decimal digit, for diagnostics.
    pub fn width_digit(self) -> (r: &'static str)
        ensures
            r@ == self.width_digit_spec(),
    {
        let r: &'static str = match self.bytes_per_element() {
            1 => "1",
            2 => "2",
            4 => "4",
            _ => "8",
        };
        r
    }

    /// What `width_digit` returns for each kind.
    pub open spec fn width_digit_spec(self) -> Seq<char> {
        if self.width() == 1 {
            "1"@
        } else if self.width() == 2 {
            "2"@
        } else if self.width() == 4 {
            "4"@
        } else {
            "8"@
        }
    }

    /// What `display_name` returns for each kind.
    pub open spec fn display_name_spec(self) -> Seq<char> {
        match self {
            TypedArrayKind::SInt8 => "Int8"@,
            TypedArrayKind::UInt8 => "UInt8"@,
            TypedArrayKind::SInt16 => "Int16"@,
            TypedArrayKind::UInt16 => "UInt16"@,
            TypedArrayKind::SInt32 => "Int32"@,
            TypedArrayKind::UInt32 => "UInt32"@,
            TypedArrayKind::SInt64 => "Int64"@,
            TypedArrayKind::UInt64 => "UInt64"@,
            TypedArrayKind::Float32 => "Float32"@,
            TypedArrayKind::Float64 => "Float64"@,
        }
    }
}

} // verus!

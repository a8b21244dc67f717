//! The registry of the types of the format: for each its tag id, its name,
//! and the size and number of its elements.
use vstd::prelude::*;
use crate::error::KbinError;
use crate::text::str_eq;

verus! {

/// Bit of a stored tag byte that marks the value as a length-prefixed array.
pub const ARRAY_MASK: u8 = 0x40;

/// How the elements of a fixed-size type are read from their bytes.
#[derive(Clone, Copy, Debug, PartialEq, Eq, Structural)]
pub enum ElementKind {
    /// Two's complement integers.
    Signed,
    /// Plain binary numbers; also octets, seconds and IEEE-754 bit patterns.
    Unsigned,
    /// One byte that is 0 or 1.
    Bool,
}

/// The closed set of type tags of the format.
#[allow(non_camel_case_types)]
#[derive(Clone, Copy, Debug, PartialEq, Eq, Structural, Hash)]
pub enum StandardType {
    NodeStart,
    S32,
    U8,
    S16,
    U16,
    S8,
    U32,
    S64,
    U64,
    String,
    Binary,
    Ip4,
    Time,
    Float,
    Double,
    S8_2,
    U8_2,
    S16_2,
    U16_2,
    S32_2,
    U32_2,
    S64_2,
    U64_2,
    Float2,
    Double2,
    S8_3,
    U8_3,
    S16_3,
    U16_3,
    S32_3,
    U32_3,
    S64_3,
    U64_3,
    Float3,
    Double3,
    S8_4,
    U8_4,
    S16_4,
    U16_4,
    S32_4,
    U32_4,
    S64_4,
    U64_4,
    Float4,
    Double4,
    Attribute,
    Vs8,
    Vu8,
    Vs16,
    Vu16,
    Boolean,
    Boolean2,
    Boolean3,
    Boolean4,
    Vb,
    NodeEnd,
    FileEnd,
}

impl StandardType {
    /// The tag id as stored in the node stream, without the array flag.
    pub open spec fn spec_id(&self) -> u8 {
        match self {
            StandardType::NodeStart => 1,
            StandardType::S32 => 2,
            StandardType::U8 => 3,
            StandardType::S16 => 4,
            StandardType::U16 => 5,
            StandardType::S8 => 6,
            StandardType::U32 => 7,
            StandardType::S64 => 8,
            StandardType::U64 => 9,
            StandardType::String => 10,
            StandardType::Binary => 11,
            StandardType::Ip4 => 12,
            StandardType::Time => 13,
            StandardType::Float => 14,
            StandardType::Double => 15,
            StandardType::S8_2 => 16,
            StandardType::U8_2 => 17,
            StandardType::S16_2 => 18,
            StandardType::U16_2 => 19,
            StandardType::S32_2 => 20,
            StandardType::U32_2 => 21,
            StandardType::S64_2 => 22,
            StandardType::U64_2 => 23,
            StandardType::Float2 => 24,
            StandardType::Double2 => 25,
            StandardType::S8_3 => 26,
            StandardType::U8_3 => 27,
            StandardType::S16_3 => 28,
            StandardType::U16_3 => 29,
            StandardType::S32_3 => 30,
            StandardType::U32_3 => 31,
            StandardType::S64_3 => 32,
            StandardType::U64_3 => 33,
            StandardType::Float3 => 34,
            StandardType::Double3 => 35,
            StandardType::S8_4 => 36,
            StandardType::U8_4 => 37,
            StandardType::S16_4 => 38,
            StandardType::U16_4 => 39,
            StandardType::S32_4 => 40,
            StandardType::U32_4 => 41,
            StandardType::S64_4 => 42,
            StandardType::U64_4 => 43,
            StandardType::Float4 => 44,
            StandardType::Double4 => 45,
            StandardType::Attribute => 46,
            StandardType::Vs8 => 48,
            StandardType::Vu8 => 49,
            StandardType::Vs16 => 50,
            StandardType::Vu16 => 51,
            StandardType::Boolean => 52,
            StandardType::Boolean2 => 53,
            StandardType::Boolean3 => 54,
            StandardType::Boolean4 => 55,
            StandardType::Vb => 56,
            StandardType::NodeEnd => 190,
            StandardType::FileEnd => 191,
        }
    }

    /// Bytes of one element.
    pub open spec fn spec_size(&self) -> usize {
        match self {
            StandardType::NodeStart => 0,
            StandardType::S32 => 4,
            StandardType::U8 => 1,
            StandardType::S16 => 2,
            StandardType::U16 => 2,
            StandardType::S8 => 1,
            StandardType::U32 => 4,
            StandardType::S64 => 8,
            StandardType::U64 => 8,
            StandardType::String => 1,
            StandardType::Binary => 1,
            StandardType::Ip4 => 1,
            StandardType::Time => 4,
            StandardType::Float => 4,
            StandardType::Double => 8,
            StandardType::S8_2 => 1,
            StandardType::U8_2 => 1,
            StandardType::S16_2 => 2,
            StandardType::U16_2 => 2,
            StandardType::S32_2 => 4,
            StandardType::U32_2 => 4,
            StandardType::S64_2 => 8,
            StandardType::U64_2 => 8,
            StandardType::Float2 => 4,
            StandardType::Double2 => 8,
            StandardType::S8_3 => 1,
            StandardType::U8_3 => 1,
            StandardType::S16_3 => 2,
            StandardType::U16_3 => 2,
            StandardType::S32_3 => 4,
            StandardType::U32_3 => 4,
            StandardType::S64_3 => 8,
            StandardType::U64_3 => 8,
            StandardType::Float3 => 4,
            StandardType::Double3 => 8,
            StandardType::S8_4 => 1,
            StandardType::U8_4 => 1,
            StandardType::S16_4 => 2,
            StandardType::U16_4 => 2,
            StandardType::S32_4 => 4,
            StandardType::U32_4 => 4,
            StandardType::S64_4 => 8,
            StandardType::U64_4 => 8,
            StandardType::Float4 => 4,
            StandardType::Double4 => 8,
            StandardType::Attribute => 0,
            StandardType::Vs8 => 1,
            StandardType::Vu8 => 1,
            StandardType::Vs16 => 2,
            StandardType::Vu16 => 2,
            StandardType::Boolean => 1,
            StandardType::Boolean2 => 1,
            StandardType::Boolean3 => 1,
            StandardType::Boolean4 => 1,
            StandardType::Vb => 1,
            StandardType::NodeEnd => 0,
            StandardType::FileEnd => 0,
        }
    }

    /// Elements of one value.
    pub open spec fn spec_count(&self) -> usize {
        match self {
            StandardType::NodeStart => 0,
            StandardType::S32 => 1,
            StandardType::U8 => 1,
            StandardType::S16 => 1,
            StandardType::U16 => 1,
            StandardType::S8 => 1,
            StandardType::U32 => 1,
            StandardType::S64 => 1,
            StandardType::U64 => 1,
            StandardType::String => 0,
            StandardType::Binary => 0,
            StandardType::Ip4 => 4,
            StandardType::Time => 1,
            StandardType::Float => 1,
            StandardType::Double => 1,
            StandardType::S8_2 => 2,
            StandardType::U8_2 => 2,
            StandardType::S16_2 => 2,
            StandardType::U16_2 => 2,
            StandardType::S32_2 => 2,
            StandardType::U32_2 => 2,
            StandardType::S64_2 => 2,
            StandardType::U64_2 => 2,
            StandardType::Float2 => 2,
            StandardType::Double2 => 2,
            StandardType::S8_3 => 3,
            StandardType::U8_3 => 3,
            StandardType::S16_3 => 3,
            StandardType::U16_3 => 3,
            StandardType::S32_3 => 3,
            StandardType::U32_3 => 3,
            StandardType::S64_3 => 3,
            StandardType::U64_3 => 3,
            StandardType::Float3 => 3,
            StandardType::Double3 => 3,
            StandardType::S8_4 => 4,
            StandardType::U8_4 => 4,
            StandardType::S16_4 => 4,
            StandardType::U16_4 => 4,
            StandardType::S32_4 => 4,
            StandardType::U32_4 => 4,
            StandardType::S64_4 => 4,
            StandardType::U64_4 => 4,
            StandardType::Float4 => 4,
            StandardType::Double4 => 4,
            StandardType::Attribute => 0,
            StandardType::Vs8 => 16,
            StandardType::Vu8 => 16,
            StandardType::Vs16 => 8,
            StandardType::Vu16 => 8,
            StandardType::Boolean => 1,
            StandardType::Boolean2 => 2,
            StandardType::Boolean3 => 3,
            StandardType::Boolean4 => 4,
            StandardType::Vb => 16,
            StandardType::NodeEnd => 0,
            StandardType::FileEnd => 0,
        }
    }

    /// The canonical lower-case name, as written in a `__type` attribute.
    pub open spec fn spec_name(&self) -> Seq<char> {
        match self {
            StandardType::NodeStart => "void"@,
            StandardType::S32 => "s32"@,
            StandardType::U8 => "u8"@,
            StandardType::S16 => "s16"@,
            StandardType::U16 => "u16"@,
            StandardType::S8 => "s8"@,
            StandardType::U32 => "u32"@,
            StandardType::S64 => "s64"@,
            StandardType::U64 => "u64"@,
            StandardType::String => "str"@,
            StandardType::Binary => "bin"@,
            StandardType::Ip4 => "ip4"@,
            StandardType::Time => "time"@,
            StandardType::Float => "float"@,
            StandardType::Double => "double"@,
            StandardType::S8_2 => "2s8"@,
            StandardType::U8_2 => "2u8"@,
            StandardType::S16_2 => "2s16"@,
            StandardType::U16_2 => "2u16"@,
            StandardType::S32_2 => "2s32"@,
            StandardType::U32_2 => "2u32"@,
            StandardType::S64_2 => "2s64"@,
            StandardType::U64_2 => "2u64"@,
            StandardType::Float2 => "2float"@,
            StandardType::Double2 => "2double"@,
            StandardType::S8_3 => "3s8"@,
            StandardType::U8_3 => "3u8"@,
            StandardType::S16_3 => "3s16"@,
            StandardType::U16_3 => "3u16"@,
            StandardType::S32_3 => "3s32"@,
            StandardType::U32_3 => "3u32"@,
            StandardType::S64_3 => "3s64"@,
            StandardType::U64_3 => "3u64"@,
            StandardType::Float3 => "3float"@,
            StandardType::Double3 => "3double"@,
            StandardType::S8_4 => "4s8"@,
            StandardType::U8_4 => "4u8"@,
            StandardType::S16_4 => "4s16"@,
            StandardType::U16_4 => "4u16"@,
            StandardType::S32_4 => "4s32"@,
            StandardType::U32_4 => "4u32"@,
            StandardType::S64_4 => "4s64"@,
            StandardType::U64_4 => "4u64"@,
            StandardType::Float4 => "4float"@,
            StandardType::Double4 => "4double"@,
            StandardType::Attribute => "attr"@,
            StandardType::Vs8 => "vs8"@,
            StandardType::Vu8 => "vu8"@,
            StandardType::Vs16 => "vs16"@,
            StandardType::Vu16 => "vu16"@,
            StandardType::Boolean => "bool"@,
            StandardType::Boolean2 => "2b"@,
            StandardType::Boolean3 => "3b"@,
            StandardType::Boolean4 => "4b"@,
            StandardType::Vb => "vb"@,
            StandardType::NodeEnd => "node_end"@,
            StandardType::FileEnd => "file_end"@,
        }
    }

    /// The reading of the elements; `None` for the types without fixed-size elements.
    pub open spec fn spec_kind(&self) -> Option<ElementKind> {
        match self {
            StandardType::NodeStart => None,
            StandardType::S32 => Some(ElementKind::Signed),
            StandardType::U8 => Some(ElementKind::Unsigned),
            StandardType::S16 => Some(ElementKind::Signed),
            StandardType::U16 => Some(ElementKind::Unsigned),
            StandardType::S8 => Some(ElementKind::Signed),
            StandardType::U32 => Some(ElementKind::Unsigned),
            StandardType::S64 => Some(ElementKind::Signed),
            StandardType::U64 => Some(ElementKind::Unsigned),
            StandardType::String => None,
            StandardType::Binary => None,
            StandardType::Ip4 => Some(ElementKind::Unsigned),
            StandardType::Time => Some(ElementKind::Unsigned),
            StandardType::Float => Some(ElementKind::Unsigned),
            StandardType::Double => Some(ElementKind::Unsigned),
            StandardType::S8_2 => Some(ElementKind::Signed),
            StandardType::U8_2 => Some(ElementKind::Unsigned),
            StandardType::S16_2 => Some(ElementKind::Signed),
            StandardType::U16_2 => Some(ElementKind::Unsigned),
            StandardType::S32_2 => Some(ElementKind::Signed),
            StandardType::U32_2 => Some(ElementKind::Unsigned),
            StandardType::S64_2 => Some(ElementKind::Signed),
            StandardType::U64_2 => Some(ElementKind::Unsigned),
            StandardType::Float2 => Some(ElementKind::Unsigned),
            StandardType::Double2 => Some(ElementKind::Unsigned),
            StandardType::S8_3 => Some(ElementKind::Signed),
            StandardType::U8_3 => Some(ElementKind::Unsigned),
            StandardType::S16_3 => Some(ElementKind::Signed),
            StandardType::U16_3 => Some(ElementKind::Unsigned),
            StandardType::S32_3 => Some(ElementKind::Signed),
            StandardType::U32_3 => Some(ElementKind::Unsigned),
            StandardType::S64_3 => Some(ElementKind::Signed),
            StandardType::U64_3 => Some(ElementKind::Unsigned),
            StandardType::Float3 => Some(ElementKind::Unsigned),
            StandardType::Double3 => Some(ElementKind::Unsigned),
            StandardType::S8_4 => Some(ElementKind::Signed),
            StandardType::U8_4 => Some(ElementKind::Unsigned),
            StandardType::S16_4 => Some(ElementKind::Signed),
            StandardType::U16_4 => Some(ElementKind::Unsigned),
            StandardType::S32_4 => Some(ElementKind::Signed),
            StandardType::U32_4 => Some(ElementKind::Unsigned),
            StandardType::S64_4 => Some(ElementKind::Signed),
            StandardType::U64_4 => Some(ElementKind::Unsigned),
            StandardType::Float4 => Some(ElementKind::Unsigned),
            StandardType::Double4 => Some(ElementKind::Unsigned),
            StandardType::Attribute => None,
            StandardType::Vs8 => Some(ElementKind::Signed),
            StandardType::Vu8 => Some(ElementKind::Unsigned),
            StandardType::Vs16 => Some(ElementKind::Signed),
            StandardType::Vu16 => Some(ElementKind::Unsigned),
            StandardType::Boolean => Some(ElementKind::Bool),
            StandardType::Boolean2 => Some(ElementKind::Bool),
            StandardType::Boolean3 => Some(ElementKind::Bool),
            StandardType::Boolean4 => Some(ElementKind::Bool),
            StandardType::Vb => Some(ElementKind::Bool),
            StandardType::NodeEnd => None,
            StandardType::FileEnd => None,
        }
    }

    /// A type whose elements are floating-point numbers.
    pub open spec fn spec_is_float(&self) -> bool {
        match self {
            StandardType::Float => true,
            StandardType::Double => true,
            StandardType::Float2 => true,
            StandardType::Double2 => true,
            StandardType::Float3 => true,
            StandardType::Double3 => true,
            StandardType::Float4 => true,
            StandardType::Double4 => true,
            _ => false,
        }
    }

    /// Bytes of one value on the wire: `size * count`, zero for the
    /// length-prefixed and the structural types.
    pub open spec fn spec_byte_len(&self) -> usize {
        match self {
            StandardType::NodeStart => 0,
            StandardType::S32 => 4,
            StandardType::U8 => 1,
            StandardType::S16 => 2,
            StandardType::U16 => 2,
            StandardType::S8 => 1,
            StandardType::U32 => 4,
            StandardType::S64 => 8,
            StandardType::U64 => 8,
            StandardType::String => 0,
            StandardType::Binary => 0,
            StandardType::Ip4 => 4,
            StandardType::Time => 4,
            StandardType::Float => 4,
            StandardType::Double => 8,
            StandardType::S8_2 => 2,
            StandardType::U8_2 => 2,
            StandardType::S16_2 => 4,
            StandardType::U16_2 => 4,
            StandardType::S32_2 => 8,
            StandardType::U32_2 => 8,
            StandardType::S64_2 => 16,
            StandardType::U64_2 => 16,
            StandardType::Float2 => 8,
            StandardType::Double2 => 16,
            StandardType::S8_3 => 3,
            StandardType::U8_3 => 3,
            StandardType::S16_3 => 6,
            StandardType::U16_3 => 6,
            StandardType::S32_3 => 12,
            StandardType::U32_3 => 12,
            StandardType::S64_3 => 24,
            StandardType::U64_3 => 24,
            StandardType::Float3 => 12,
            StandardType::Double3 => 24,
            StandardType::S8_4 => 4,
            StandardType::U8_4 => 4,
            StandardType::S16_4 => 8,
            StandardType::U16_4 => 8,
            StandardType::S32_4 => 16,
            StandardType::U32_4 => 16,
            StandardType::S64_4 => 32,
            StandardType::U64_4 => 32,
            StandardType::Float4 => 16,
            StandardType::Double4 => 32,
            StandardType::Attribute => 0,
            StandardType::Vs8 => 16,
            StandardType::Vu8 => 16,
            StandardType::Vs16 => 16,
            StandardType::Vu16 => 16,
            StandardType::Boolean => 1,
            StandardType::Boolean2 => 2,
            StandardType::Boolean3 => 3,
            StandardType::Boolean4 => 4,
            StandardType::Vb => 16,
            StandardType::NodeEnd => 0,
            StandardType::FileEnd => 0,
        }
    }

    /// A type whose values are a fixed number of fixed-size elements.
    pub open spec fn is_fixed(&self) -> bool {
        self.spec_kind() is Some
    }

    #[verifier::when_used_as_spec(spec_id)]
    pub fn id(&self) -> (r: u8)
        ensures
            r == self.spec_id(),
    {
        match self {
            StandardType::NodeStart => 1,
            StandardType::S32 => 2,
            StandardType::U8 => 3,
            StandardType::S16 => 4,
            StandardType::U16 => 5,
            StandardType::S8 => 6,
            StandardType::U32 => 7,
            StandardType::S64 => 8,
            StandardType::U64 => 9,
            StandardType::String => 10,
            StandardType::Binary => 11,
            StandardType::Ip4 => 12,
            StandardType::Time => 13,
            StandardType::Float => 14,
            StandardType::Double => 15,
            StandardType::S8_2 => 16,
            StandardType::U8_2 => 17,
            StandardType::S16_2 => 18,
            StandardType::U16_2 => 19,
            StandardType::S32_2 => 20,
            StandardType::U32_2 => 21,
            StandardType::S64_2 => 22,
            StandardType::U64_2 => 23,
            StandardType::Float2 => 24,
            StandardType::Double2 => 25,
            StandardType::S8_3 => 26,
            StandardType::U8_3 => 27,
            StandardType::S16_3 => 28,
            StandardType::U16_3 => 29,
            StandardType::S32_3 => 30,
            StandardType::U32_3 => 31,
            StandardType::S64_3 => 32,
            StandardType::U64_3 => 33,
            StandardType::Float3 => 34,
            StandardType::Double3 => 35,
            StandardType::S8_4 => 36,
            StandardType::U8_4 => 37,
            StandardType::S16_4 => 38,
            StandardType::U16_4 => 39,
            StandardType::S32_4 => 40,
            StandardType::U32_4 => 41,
            StandardType::S64_4 => 42,
            StandardType::U64_4 => 43,
            StandardType::Float4 => 44,
            StandardType::Double4 => 45,
            StandardType::Attribute => 46,
            StandardType::Vs8 => 48,
            StandardType::Vu8 => 49,
            StandardType::Vs16 => 50,
            StandardType::Vu16 => 51,
            StandardType::Boolean => 52,
            StandardType::Boolean2 => 53,
            StandardType::Boolean3 => 54,
            StandardType::Boolean4 => 55,
            StandardType::Vb => 56,
            StandardType::NodeEnd => 190,
            StandardType::FileEnd => 191,
        }
    }

    #[verifier::when_used_as_spec(spec_size)]
    pub fn size(&self) -> (r: usize)
        ensures
            r == self.spec_size(),
    {
        match self {
            StandardType::NodeStart => 0,
            StandardType::S32 => 4,
            StandardType::U8 => 1,
            StandardType::S16 => 2,
            StandardType::U16 => 2,
            StandardType::S8 => 1,
            StandardType::U32 => 4,
            StandardType::S64 => 8,
            StandardType::U64 => 8,
            StandardType::String => 1,
            StandardType::Binary => 1,
            StandardType::Ip4 => 1,
            StandardType::Time => 4,
            StandardType::Float => 4,
            StandardType::Double => 8,
            StandardType::S8_2 => 1,
            StandardType::U8_2 => 1,
            StandardType::S16_2 => 2,
            StandardType::U16_2 => 2,
            StandardType::S32_2 => 4,
            StandardType::U32_2 => 4,
            StandardType::S64_2 => 8,
            StandardType::U64_2 => 8,
            StandardType::Float2 => 4,
            StandardType::Double2 => 8,
            StandardType::S8_3 => 1,
            StandardType::U8_3 => 1,
            StandardType::S16_3 => 2,
            StandardType::U16_3 => 2,
            StandardType::S32_3 => 4,
            StandardType::U32_3 => 4,
            StandardType::S64_3 => 8,
            StandardType::U64_3 => 8,
            StandardType::Float3 => 4,
            StandardType::Double3 => 8,
            StandardType::S8_4 => 1,
            StandardType::U8_4 => 1,
            StandardType::S16_4 => 2,
            StandardType::U16_4 => 2,
            StandardType::S32_4 => 4,
            StandardType::U32_4 => 4,
            StandardType::S64_4 => 8,
            StandardType::U64_4 => 8,
            StandardType::Float4 => 4,
            StandardType::Double4 => 8,
            StandardType::Attribute => 0,
            StandardType::Vs8 => 1,
            StandardType::Vu8 => 1,
            StandardType::Vs16 => 2,
            StandardType::Vu16 => 2,
            StandardType::Boolean => 1,
            StandardType::Boolean2 => 1,
            StandardType::Boolean3 => 1,
            StandardType::Boolean4 => 1,
            StandardType::Vb => 1,
            StandardType::NodeEnd => 0,
            StandardType::FileEnd => 0,
        }
    }

    #[verifier::when_used_as_spec(spec_count)]
    pub fn count(&self) -> (r: usize)
        ensures
            r == self.spec_count(),
    {
        match self {
            StandardType::NodeStart => 0,
            StandardType::S32 => 1,
            StandardType::U8 => 1,
            StandardType::S16 => 1,
            StandardType::U16 => 1,
            StandardType::S8 => 1,
            StandardType::U32 => 1,
            StandardType::S64 => 1,
            StandardType::U64 => 1,
            StandardType::String => 0,
            StandardType::Binary => 0,
            StandardType::Ip4 => 4,
            StandardType::Time => 1,
            StandardType::Float => 1,
            StandardType::Double => 1,
            StandardType::S8_2 => 2,
            StandardType::U8_2 => 2,
            StandardType::S16_2 => 2,
            StandardType::U16_2 => 2,
            StandardType::S32_2 => 2,
            StandardType::U32_2 => 2,
            StandardType::S64_2 => 2,
            StandardType::U64_2 => 2,
            StandardType::Float2 => 2,
            StandardType::Double2 => 2,
            StandardType::S8_3 => 3,
            StandardType::U8_3 => 3,
            StandardType::S16_3 => 3,
            StandardType::U16_3 => 3,
            StandardType::S32_3 => 3,
            StandardType::U32_3 => 3,
            StandardType::S64_3 => 3,
            StandardType::U64_3 => 3,
            StandardType::Float3 => 3,
            StandardType::Double3 => 3,
            StandardType::S8_4 => 4,
            StandardType::U8_4 => 4,
            StandardType::S16_4 => 4,
            StandardType::U16_4 => 4,
            StandardType::S32_4 => 4,
            StandardType::U32_4 => 4,
            StandardType::S64_4 => 4,
            StandardType::U64_4 => 4,
            StandardType::Float4 => 4,
            StandardType::Double4 => 4,
            StandardType::Attribute => 0,
            StandardType::Vs8 => 16,
            StandardType::Vu8 => 16,
            StandardType::Vs16 => 8,
            StandardType::Vu16 => 8,
            StandardType::Boolean => 1,
            StandardType::Boolean2 => 2,
            StandardType::Boolean3 => 3,
            StandardType::Boolean4 => 4,
            StandardType::Vb => 16,
            StandardType::NodeEnd => 0,
            StandardType::FileEnd => 0,
        }
    }

    pub fn name(&self) -> (r: &'static str)
        ensures
            r@ == self.spec_name(),
    {
        match self {
            StandardType::NodeStart => "void",
            StandardType::S32 => "s32",
            StandardType::U8 => "u8",
            StandardType::S16 => "s16",
            StandardType::U16 => "u16",
            StandardType::S8 => "s8",
            StandardType::U32 => "u32",
            StandardType::S64 => "s64",
            StandardType::U64 => "u64",
            StandardType::String => "str",
            StandardType::Binary => "bin",
            StandardType::Ip4 => "ip4",
            StandardType::Time => "time",
            StandardType::Float => "float",
            StandardType::Double => "double",
            StandardType::S8_2 => "2s8",
            StandardType::U8_2 => "2u8",
            StandardType::S16_2 => "2s16",
            StandardType::U16_2 => "2u16",
            StandardType::S32_2 => "2s32",
            StandardType::U32_2 => "2u32",
            StandardType::S64_2 => "2s64",
            StandardType::U64_2 => "2u64",
            StandardType::Float2 => "2float",
            StandardType::Double2 => "2double",
            StandardType::S8_3 => "3s8",
            StandardType::U8_3 => "3u8",
            StandardType::S16_3 => "3s16",
            StandardType::U16_3 => "3u16",
            StandardType::S32_3 => "3s32",
            StandardType::U32_3 => "3u32",
            StandardType::S64_3 => "3s64",
            StandardType::U64_3 => "3u64",
            StandardType::Float3 => "3float",
            StandardType::Double3 => "3double",
            StandardType::S8_4 => "4s8",
            StandardType::U8_4 => "4u8",
            StandardType::S16_4 => "4s16",
            StandardType::U16_4 => "4u16",
            StandardType::S32_4 => "4s32",
            StandardType::U32_4 => "4u32",
            StandardType::S64_4 => "4s64",
            StandardType::U64_4 => "4u64",
            StandardType::Float4 => "4float",
            StandardType::Double4 => "4double",
            StandardType::Attribute => "attr",
            StandardType::Vs8 => "vs8",
            StandardType::Vu8 => "vu8",
            StandardType::Vs16 => "vs16",
            StandardType::Vu16 => "vu16",
            StandardType::Boolean => "bool",
            StandardType::Boolean2 => "2b",
            StandardType::Boolean3 => "3b",
            StandardType::Boolean4 => "4b",
            StandardType::Vb => "vb",
            StandardType::NodeEnd => "node_end",
            StandardType::FileEnd => "file_end",
        }
    }

    #[verifier::when_used_as_spec(spec_kind)]
    pub fn kind(&self) -> (r: Option<ElementKind>)
        ensures
            r == self.spec_kind(),
    {
        match self {
            StandardType::NodeStart => None,
            StandardType::S32 => Some(ElementKind::Signed),
            StandardType::U8 => Some(ElementKind::Unsigned),
            StandardType::S16 => Some(ElementKind::Signed),
            StandardType::U16 => Some(ElementKind::Unsigned),
            StandardType::S8 => Some(ElementKind::Signed),
            StandardType::U32 => Some(ElementKind::Unsigned),
            StandardType::S64 => Some(ElementKind::Signed),
            StandardType::U64 => Some(ElementKind::Unsigned),
            StandardType::String => None,
            StandardType::Binary => None,
            StandardType::Ip4 => Some(ElementKind::Unsigned),
            StandardType::Time => Some(ElementKind::Unsigned),
            StandardType::Float => Some(ElementKind::Unsigned),
            StandardType::Double => Some(ElementKind::Unsigned),
            StandardType::S8_2 => Some(ElementKind::Signed),
            StandardType::U8_2 => Some(ElementKind::Unsigned),
            StandardType::S16_2 => Some(ElementKind::Signed),
            StandardType::U16_2 => Some(ElementKind::Unsigned),
            StandardType::S32_2 => Some(ElementKind::Signed),
            StandardType::U32_2 => Some(ElementKind::Unsigned),
            StandardType::S64_2 => Some(ElementKind::Signed),
            StandardType::U64_2 => Some(ElementKind::Unsigned),
            StandardType::Float2 => Some(ElementKind::Unsigned),
            StandardType::Double2 => Some(ElementKind::Unsigned),
            StandardType::S8_3 => Some(ElementKind::Signed),
            StandardType::U8_3 => Some(ElementKind::Unsigned),
            StandardType::S16_3 => Some(ElementKind::Signed),
            StandardType::U16_3 => Some(ElementKind::Unsigned),
            StandardType::S32_3 => Some(ElementKind::Signed),
            StandardType::U32_3 => Some(ElementKind::Unsigned),
            StandardType::S64_3 => Some(ElementKind::Signed),
            StandardType::U64_3 => Some(ElementKind::Unsigned),
            StandardType::Float3 => Some(ElementKind::Unsigned),
            StandardType::Double3 => Some(ElementKind::Unsigned),
            StandardType::S8_4 => Some(ElementKind::Signed),
            StandardType::U8_4 => Some(ElementKind::Unsigned),
            StandardType::S16_4 => Some(ElementKind::Signed),
            StandardType::U16_4 => Some(ElementKind::Unsigned),
            StandardType::S32_4 => Some(ElementKind::Signed),
            StandardType::U32_4 => Some(ElementKind::Unsigned),
            StandardType::S64_4 => Some(ElementKind::Signed),
            StandardType::U64_4 => Some(ElementKind::Unsigned),
            StandardType::Float4 => Some(ElementKind::Unsigned),
            StandardType::Double4 => Some(ElementKind::Unsigned),
            StandardType::Attribute => None,
            StandardType::Vs8 => Some(ElementKind::Signed),
            StandardType::Vu8 => Some(ElementKind::Unsigned),
            StandardType::Vs16 => Some(ElementKind::Signed),
            StandardType::Vu16 => Some(ElementKind::Unsigned),
            StandardType::Boolean => Some(ElementKind::Bool),
            StandardType::Boolean2 => Some(ElementKind::Bool),
            StandardType::Boolean3 => Some(ElementKind::Bool),
            StandardType::Boolean4 => Some(ElementKind::Bool),
            StandardType::Vb => Some(ElementKind::Bool),
            StandardType::NodeEnd => None,
            StandardType::FileEnd => None,
        }
    }

    #[verifier::when_used_as_spec(spec_is_float)]
    pub fn is_float(&self) -> (r: bool)
        ensures
            r == self.spec_is_float(),
    {
        match self {
            StandardType::Float => true,
            StandardType::Double => true,
            StandardType::Float2 => true,
            StandardType::Double2 => true,
            StandardType::Float3 => true,
            StandardType::Double3 => true,
            StandardType::Float4 => true,
            StandardType::Double4 => true,
            _ => false,
        }
    }

    #[verifier::when_used_as_spec(spec_byte_len)]
    pub fn byte_len(&self) -> (r: usize)
        ensures
            r == self.spec_byte_len(),
            r == self.spec_size() * self.spec_count(),
            r <= 32,
    {
        self.size() * self.count()
    }

    /// The type with this tag id, if there is one.
    pub open spec fn spec_from_u8(id: u8) -> Option<StandardType> {
        if exists|t: StandardType| t.spec_id() == id {
            Some(choose|t: StandardType| t.spec_id() == id)
        } else {
            None
        }
    }

    /// Looks a tag id up. Every id belongs to at most one type, so the answer
    /// is the type with that id, or `UnknownType` where there is none.
    pub fn from_u8(id: u8) -> (r: Result<StandardType, KbinError>)
        ensures
            match Self::spec_from_u8(id) {
                Some(t) => r == Ok::<StandardType, KbinError>(t),
                None => r == Err::<StandardType, KbinError>(KbinError::UnknownType(id)),
            },
            r matches Ok(t) ==> t.spec_id() == id,
    {
        let r = match id {
            1 => Ok(StandardType::NodeStart),
            2 => Ok(StandardType::S32),
            3 => Ok(StandardType::U8),
            4 => Ok(StandardType::S16),
            5 => Ok(StandardType::U16),
            6 => Ok(StandardType::S8),
            7 => Ok(StandardType::U32),
            8 => Ok(StandardType::S64),
            9 => Ok(StandardType::U64),
            10 => Ok(StandardType::String),
            11 => Ok(StandardType::Binary),
            12 => Ok(StandardType::Ip4),
            13 => Ok(StandardType::Time),
            14 => Ok(StandardType::Float),
            15 => Ok(StandardType::Double),
            16 => Ok(StandardType::S8_2),
            17 => Ok(StandardType::U8_2),
            18 => Ok(StandardType::S16_2),
            19 => Ok(StandardType::U16_2),
            20 => Ok(StandardType::S32_2),
            21 => Ok(StandardType::U32_2),
            22 => Ok(StandardType::S64_2),
            23 => Ok(StandardType::U64_2),
            24 => Ok(StandardType::Float2),
            25 => Ok(StandardType::Double2),
            26 => Ok(StandardType::S8_3),
            27 => Ok(StandardType::U8_3),
            28 => Ok(StandardType::S16_3),
            29 => Ok(StandardType::U16_3),
            30 => Ok(StandardType::S32_3),
            31 => Ok(StandardType::U32_3),
            32 => Ok(StandardType::S64_3),
            33 => Ok(StandardType::U64_3),
            34 => Ok(StandardType::Float3),
            35 => Ok(StandardType::Double3),
            36 => Ok(StandardType::S8_4),
            37 => Ok(StandardType::U8_4),
            38 => Ok(StandardType::S16_4),
            39 => Ok(StandardType::U16_4),
            40 => Ok(StandardType::S32_4),
            41 => Ok(StandardType::U32_4),
            42 => Ok(StandardType::S64_4),
            43 => Ok(StandardType::U64_4),
            44 => Ok(StandardType::Float4),
            45 => Ok(StandardType::Double4),
            46 => Ok(StandardType::Attribute),
            48 => Ok(StandardType::Vs8),
            49 => Ok(StandardType::Vu8),
            50 => Ok(StandardType::Vs16),
            51 => Ok(StandardType::Vu16),
            52 => Ok(StandardType::Boolean),
            53 => Ok(StandardType::Boolean2),
            54 => Ok(StandardType::Boolean3),
            55 => Ok(StandardType::Boolean4),
            56 => Ok(StandardType::Vb),
            190 => Ok(StandardType::NodeEnd),
            191 => Ok(StandardType::FileEnd),
            _ => Err(KbinError::UnknownType(id)),
        };
        proof {
            match r {
                Ok(t) => {
                    assert(t.spec_id() == id);
                    let u = choose|u: StandardType| u.spec_id() == id;
                    lemma_id_unique(u, t);
                },
                Err(_) => {
                    assert forall|t: StandardType| t.spec_id() != id by {}
                },
            }
        }
        r
    }

    /// The type with this canonical name, if there is one.
    pub open spec fn spec_from_name(name: Seq<char>) -> Option<StandardType> {
        if name == "void"@ {
            Some(StandardType::NodeStart)
        } else if name == "s32"@ {
            Some(StandardType::S32)
        } else if name == "u8"@ {
            Some(StandardType::U8)
        } else if name == "s16"@ {
            Some(StandardType::S16)
        } else if name == "u16"@ {
            Some(StandardType::U16)
        } else if name == "s8"@ {
            Some(StandardType::S8)
        } else if name == "u32"@ {
            Some(StandardType::U32)
        } else if name == "s64"@ {
            Some(StandardType::S64)
        } else if name == "u64"@ {
            Some(StandardType::U64)
        } else if name == "str"@ {
            Some(StandardType::String)
        } else if name == "bin"@ {
            Some(StandardType::Binary)
        } else if name == "ip4"@ {
            Some(StandardType::Ip4)
        } else if name == "time"@ {
            Some(StandardType::Time)
        } else if name == "float"@ {
            Some(StandardType::Float)
        } else if name == "double"@ {
            Some(StandardType::Double)
        } else if name == "2s8"@ {
            Some(StandardType::S8_2)
        } else if name == "2u8"@ {
            Some(StandardType::U8_2)
        } else if name == "2s16"@ {
            Some(StandardType::S16_2)
        } else if name == "2u16"@ {
            Some(StandardType::U16_2)
        } else if name == "2s32"@ {
            Some(StandardType::S32_2)
        } else if name == "2u32"@ {
            Some(StandardType::U32_2)
        } else if name == "2s64"@ {
            Some(StandardType::S64_2)
        } else if name == "2u64"@ {
            Some(StandardType::U64_2)
        } else if name == "2float"@ {
            Some(StandardType::Float2)
        } else if name == "2double"@ {
            Some(StandardType::Double2)
        } else if name == "3s8"@ {
            Some(StandardType::S8_3)
        } else if name == "3u8"@ {
            Some(StandardType::U8_3)
        } else if name == "3s16"@ {
            Some(StandardType::S16_3)
        } else if name == "3u16"@ {
            Some(StandardType::U16_3)
        } else if name == "3s32"@ {
            Some(StandardType::S32_3)
        } else if name == "3u32"@ {
            Some(StandardType::U32_3)
        } else if name == "3s64"@ {
            Some(StandardType::S64_3)
        } else if name == "3u64"@ {
            Some(StandardType::U64_3)
        } else if name == "3float"@ {
            Some(StandardType::Float3)
        } else if name == "3double"@ {
            Some(StandardType::Double3)
        } else if name == "4s8"@ {
            Some(StandardType::S8_4)
        } else if name == "4u8"@ {
            Some(StandardType::U8_4)
        } else if name == "4s16"@ {
            Some(StandardType::S16_4)
        } else if name == "4u16"@ {
            Some(StandardType::U16_4)
        } else if name == "4s32"@ {
            Some(StandardType::S32_4)
        } else if name == "4u32"@ {
            Some(StandardType::U32_4)
        } else if name == "4s64"@ {
            Some(StandardType::S64_4)
        } else if name == "4u64"@ {
            Some(StandardType::U64_4)
        } else if name == "4float"@ {
            Some(StandardType::Float4)
        } else if name == "4double"@ {
            Some(StandardType::Double4)
        } else if name == "attr"@ {
            Some(StandardType::Attribute)
        } else if name == "vs8"@ {
            Some(StandardType::Vs8)
        } else if name == "vu8"@ {
            Some(StandardType::Vu8)
        } else if name == "vs16"@ {
            Some(StandardType::Vs16)
        } else if name == "vu16"@ {
            Some(StandardType::Vu16)
        } else if name == "bool"@ {
            Some(StandardType::Boolean)
        } else if name == "2b"@ {
            Some(StandardType::Boolean2)
        } else if name == "3b"@ {
            Some(StandardType::Boolean3)
        } else if name == "4b"@ {
            Some(StandardType::Boolean4)
        } else if name == "vb"@ {
            Some(StandardType::Vb)
        } else if name == "node_end"@ {
            Some(StandardType::NodeEnd)
        } else if name == "file_end"@ {
            Some(StandardType::FileEnd)
        } else {
            None
        }
    }

    /// Looks a canonical name up: the type with that name, or `None` where
    /// no type has it.
    pub fn lookup_name(name: &str) -> (r: Option<StandardType>)
        ensures
            r == Self::spec_from_name(name@),
            match r {
                Some(t) => t.spec_name() == name@,
                None => forall|t: StandardType| t.spec_name() != name@,
            },
    {
        if str_eq(name, "void") {
            Some(StandardType::NodeStart)
        } else if str_eq(name, "s32") {
            Some(StandardType::S32)
        } else if str_eq(name, "u8") {
            Some(StandardType::U8)
        } else if str_eq(name, "s16") {
            Some(StandardType::S16)
        } else if str_eq(name, "u16") {
            Some(StandardType::U16)
        } else if str_eq(name, "s8") {
            Some(StandardType::S8)
        } else if str_eq(name, "u32") {
            Some(StandardType::U32)
        } else if str_eq(name, "s64") {
            Some(StandardType::S64)
        } else if str_eq(name, "u64") {
            Some(StandardType::U64)
        } else if str_eq(name, "str") {
            Some(StandardType::String)
        } else if str_eq(name, "bin") {
            Some(StandardType::Binary)
        } else if str_eq(name, "ip4") {
            Some(StandardType::Ip4)
        } else if str_eq(name, "time") {
            Some(StandardType::Time)
        } else if str_eq(name, "float") {
            Some(StandardType::Float)
        } else if str_eq(name, "double") {
            Some(StandardType::Double)
        } else if str_eq(name, "2s8") {
            Some(StandardType::S8_2)
        } else if str_eq(name, "2u8") {
            Some(StandardType::U8_2)
        } else if str_eq(name, "2s16") {
            Some(StandardType::S16_2)
        } else if str_eq(name, "2u16") {
            Some(StandardType::U16_2)
        } else if str_eq(name, "2s32") {
            Some(StandardType::S32_2)
        } else if str_eq(name, "2u32") {
            Some(StandardType::U32_2)
        } else if str_eq(name, "2s64") {
            Some(StandardType::S64_2)
        } else if str_eq(name, "2u64") {
            Some(StandardType::U64_2)
        } else if str_eq(name, "2float") {
            Some(StandardType::Float2)
        } else if str_eq(name, "2double") {
            Some(StandardType::Double2)
        } else if str_eq(name, "3s8") {
            Some(StandardType::S8_3)
        } else if str_eq(name, "3u8") {
            Some(StandardType::U8_3)
        } else if str_eq(name, "3s16") {
            Some(StandardType::S16_3)
        } else if str_eq(name, "3u16") {
            Some(StandardType::U16_3)
        } else if str_eq(name, "3s32") {
            Some(StandardType::S32_3)
        } else if str_eq(name, "3u32") {
            Some(StandardType::U32_3)
        } else if str_eq(name, "3s64") {
            Some(StandardType::S64_3)
        } else if str_eq(name, "3u64") {
            Some(StandardType::U64_3)
        } else if str_eq(name, "3float") {
            Some(StandardType::Float3)
        } else if str_eq(name, "3double") {
            Some(StandardType::Double3)
        } else if str_eq(name, "4s8") {
            Some(StandardType::S8_4)
        } else if str_eq(name, "4u8") {
            Some(StandardType::U8_4)
        } else if str_eq(name, "4s16") {
            Some(StandardType::S16_4)
        } else if str_eq(name, "4u16") {
            Some(StandardType::U16_4)
        } else if str_eq(name, "4s32") {
            Some(StandardType::S32_4)
        } else if str_eq(name, "4u32") {
            Some(StandardType::U32_4)
        } else if str_eq(name, "4s64") {
            Some(StandardType::S64_4)
        } else if str_eq(name, "4u64") {
            Some(StandardType::U64_4)
        } else if str_eq(name, "4float") {
            Some(StandardType::Float4)
        } else if str_eq(name, "4double") {
            Some(StandardType::Double4)
        } else if str_eq(name, "attr") {
            Some(StandardType::Attribute)
        } else if str_eq(name, "vs8") {
            Some(StandardType::Vs8)
        } else if str_eq(name, "vu8") {
            Some(StandardType::Vu8)
        } else if str_eq(name, "vs16") {
            Some(StandardType::Vs16)
        } else if str_eq(name, "vu16") {
            Some(StandardType::Vu16)
        } else if str_eq(name, "bool") {
            Some(StandardType::Boolean)
        } else if str_eq(name, "2b") {
            Some(StandardType::Boolean2)
        } else if str_eq(name, "3b") {
            Some(StandardType::Boolean3)
        } else if str_eq(name, "4b") {
            Some(StandardType::Boolean4)
        } else if str_eq(name, "vb") {
            Some(StandardType::Vb)
        } else if str_eq(name, "node_end") {
            Some(StandardType::NodeEnd)
        } else if str_eq(name, "file_end") {
            Some(StandardType::FileEnd)
        } else {
            None
        }
    }

    /// Looks a canonical name up, as `lookup_name` does, and reports a name
    /// that no type has as `UnknownTypeName`.
    pub fn from_name(name: &str) -> (r: Result<StandardType, KbinError>)
        ensures
            match Self::spec_from_name(name@) {
                Some(t) => r == Ok::<StandardType, KbinError>(t) && t.spec_name() == name@,
                None => (r matches Err(KbinError::UnknownTypeName(s)) && s@ == name@)
                    && forall|t: StandardType| t.spec_name() != name@,
            },
    {
        match Self::lookup_name(name) {
            Some(t) => Ok(t),
            None => Err(KbinError::UnknownTypeName(name.to_owned())),
        }
    }
}

/// No two types share a tag id.
pub proof fn lemma_id_unique(a: StandardType, b: StandardType)
    requires
        a.spec_id() == b.spec_id(),
    ensures
        a == b,
{
}

/// Looking up the name of a type gives the type: no two types share a
/// name.
pub proof fn lemma_from_name(t: StandardType)
    ensures
        StandardType::spec_from_name(t.spec_name()) == Some(t),
{
    reveal_strlit("void");
    assert("void"@.len() == 4);
    reveal_strlit("s32");
    assert("s32"@.len() == 3);
    reveal_strlit("u8");
    assert("u8"@.len() == 2);
    reveal_strlit("s16");
    assert("s16"@.len() == 3);
    reveal_strlit("u16");
    assert("u16"@.len() == 3);
    reveal_strlit("s8");
    assert("s8"@.len() == 2);
    reveal_strlit("u32");
    assert("u32"@.len() == 3);
    reveal_strlit("s64");
    assert("s64"@.len() == 3);
    reveal_strlit("u64");
    assert("u64"@.len() == 3);
    reveal_strlit("str");
    assert("str"@.len() == 3);
    reveal_strlit("bin");
    assert("bin"@.len() == 3);
    reveal_strlit("ip4");
    assert("ip4"@.len() == 3);
    reveal_strlit("time");
    assert("time"@.len() == 4);
    reveal_strlit("float");
    assert("float"@.len() == 5);
    reveal_strlit("double");
    assert("double"@.len() == 6);
    reveal_strlit("2s8");
    assert("2s8"@.len() == 3);
    reveal_strlit("2u8");
    assert("2u8"@.len() == 3);
    reveal_strlit("2s16");
    assert("2s16"@.len() == 4);
    reveal_strlit("2u16");
    assert("2u16"@.len() == 4);
    reveal_strlit("2s32");
    assert("2s32"@.len() == 4);
    reveal_strlit("2u32");
    assert("2u32"@.len() == 4);
    reveal_strlit("2s64");
    assert("2s64"@.len() == 4);
    reveal_strlit("2u64");
    assert("2u64"@.len() == 4);
    reveal_strlit("2float");
    assert("2float"@.len() == 6);
    reveal_strlit("2double");
    assert("2double"@.len() == 7);
    reveal_strlit("3s8");
    assert("3s8"@.len() == 3);
    reveal_strlit("3u8");
    assert("3u8"@.len() == 3);
    reveal_strlit("3s16");
    assert("3s16"@.len() == 4);
    reveal_strlit("3u16");
    assert("3u16"@.len() == 4);
    reveal_strlit("3s32");
    assert("3s32"@.len() == 4);
    reveal_strlit("3u32");
    assert("3u32"@.len() == 4);
    reveal_strlit("3s64");
    assert("3s64"@.len() == 4);
    reveal_strlit("3u64");
    assert("3u64"@.len() == 4);
    reveal_strlit("3float");
    assert("3float"@.len() == 6);
    reveal_strlit("3double");
    assert("3double"@.len() == 7);
    reveal_strlit("4s8");
    assert("4s8"@.len() == 3);
    reveal_strlit("4u8");
    assert("4u8"@.len() == 3);
    reveal_strlit("4s16");
    assert("4s16"@.len() == 4);
    reveal_strlit("4u16");
    assert("4u16"@.len() == 4);
    reveal_strlit("4s32");
    assert("4s32"@.len() == 4);
    reveal_strlit("4u32");
    assert("4u32"@.len() == 4);
    reveal_strlit("4s64");
    assert("4s64"@.len() == 4);
    reveal_strlit("4u64");
    assert("4u64"@.len() == 4);
    reveal_strlit("4float");
    assert("4float"@.len() == 6);
    reveal_strlit("4double");
    assert("4double"@.len() == 7);
    reveal_strlit("attr");
    assert("attr"@.len() == 4);
    reveal_strlit("vs8");
    assert("vs8"@.len() == 3);
    reveal_strlit("vu8");
    assert("vu8"@.len() == 3);
    reveal_strlit("vs16");
    assert("vs16"@.len() == 4);
    reveal_strlit("vu16");
    assert("vu16"@.len() == 4);
    reveal_strlit("bool");
    assert("bool"@.len() == 4);
    reveal_strlit("2b");
    assert("2b"@.len() == 2);
    reveal_strlit("3b");
    assert("3b"@.len() == 2);
    reveal_strlit("4b");
    assert("4b"@.len() == 2);
    reveal_strlit("vb");
    assert("vb"@.len() == 2);
    reveal_strlit("node_end");
    assert("node_end"@.len() == 8);
    reveal_strlit("file_end");
    assert("file_end"@.len() == 8);
    match t {
        StandardType::NodeStart => {
        },
        StandardType::S32 => {
        },
        StandardType::U8 => {
        },
        StandardType::S16 => {
            assert("s32"@[1] != "s16"@[1]);
        },
        StandardType::U16 => {
            assert("s32"@[0] != "u16"@[0]);
            assert("s16"@[0] != "u16"@[0]);
        },
        StandardType::S8 => {
            assert("u8"@[0] != "s8"@[0]);
        },
        StandardType::U32 => {
            assert("s32"@[0] != "u32"@[0]);
            assert("s16"@[0] != "u32"@[0]);
            assert("u16"@[1] != "u32"@[1]);
        },
        StandardType::S64 => {
            assert("s32"@[1] != "s64"@[1]);
            assert("s16"@[1] != "s64"@[1]);
            assert("u16"@[0] != "s64"@[0]);
            assert("u32"@[0] != "s64"@[0]);
        },
        StandardType::U64 => {
            assert("s32"@[0] != "u64"@[0]);
            assert("s16"@[0] != "u64"@[0]);
            assert("u16"@[1] != "u64"@[1]);
            assert("u32"@[1] != "u64"@[1]);
            assert("s64"@[0] != "u64"@[0]);
        },
        StandardType::String => {
            assert("s32"@[1] != "str"@[1]);
            assert("s16"@[1] != "str"@[1]);
            assert("u16"@[0] != "str"@[0]);
            assert("u32"@[0] != "str"@[0]);
            assert("s64"@[1] != "str"@[1]);
            assert("u64"@[0] != "str"@[0]);
        },
        StandardType::Binary => {
            assert("s32"@[0] != "bin"@[0]);
            assert("s16"@[0] != "bin"@[0]);
            assert("u16"@[0] != "bin"@[0]);
            assert("u32"@[0] != "bin"@[0]);
            assert("s64"@[0] != "bin"@[0]);
            assert("u64"@[0] != "bin"@[0]);
            assert("str"@[0] != "bin"@[0]);
        },
        StandardType::Ip4 => {
            assert("s32"@[0] != "ip4"@[0]);
            assert("s16"@[0] != "ip4"@[0]);
            assert("u16"@[0] != "ip4"@[0]);
            assert("u32"@[0] != "ip4"@[0]);
            assert("s64"@[0] != "ip4"@[0]);
            assert("u64"@[0] != "ip4"@[0]);
            assert("str"@[0] != "ip4"@[0]);
            assert("bin"@[0] != "ip4"@[0]);
        },
        StandardType::Time => {
            assert("void"@[0] != "time"@[0]);
        },
        StandardType::Float => {
        },
        StandardType::Double => {
        },
        StandardType::S8_2 => {
            assert("s32"@[0] != "2s8"@[0]);
            assert("s16"@[0] != "2s8"@[0]);
            assert("u16"@[0] != "2s8"@[0]);
            assert("u32"@[0] != "2s8"@[0]);
            assert("s64"@[0] != "2s8"@[0]);
            assert("u64"@[0] != "2s8"@[0]);
            assert("str"@[0] != "2s8"@[0]);
            assert("bin"@[0] != "2s8"@[0]);
            assert("ip4"@[0] != "2s8"@[0]);
        },
        StandardType::U8_2 => {
            assert("s32"@[0] != "2u8"@[0]);
            assert("s16"@[0] != "2u8"@[0]);
            assert("u16"@[0] != "2u8"@[0]);
            assert("u32"@[0] != "2u8"@[0]);
            assert("s64"@[0] != "2u8"@[0]);
            assert("u64"@[0] != "2u8"@[0]);
            assert("str"@[0] != "2u8"@[0]);
            assert("bin"@[0] != "2u8"@[0]);
            assert("ip4"@[0] != "2u8"@[0]);
            assert("2s8"@[1] != "2u8"@[1]);
        },
        StandardType::S16_2 => {
            assert("void"@[0] != "2s16"@[0]);
            assert("time"@[0] != "2s16"@[0]);
        },
        StandardType::U16_2 => {
            assert("void"@[0] != "2u16"@[0]);
            assert("time"@[0] != "2u16"@[0]);
            assert("2s16"@[1] != "2u16"@[1]);
        },
        StandardType::S32_2 => {
            assert("void"@[0] != "2s32"@[0]);
            assert("time"@[0] != "2s32"@[0]);
            assert("2s16"@[2] != "2s32"@[2]);
            assert("2u16"@[1] != "2s32"@[1]);
        },
        StandardType::U32_2 => {
            assert("void"@[0] != "2u32"@[0]);
            assert("time"@[0] != "2u32"@[0]);
            assert("2s16"@[1] != "2u32"@[1]);
            assert("2u16"@[2] != "2u32"@[2]);
            assert("2s32"@[1] != "2u32"@[1]);
        },
        StandardType::S64_2 => {
            assert("void"@[0] != "2s64"@[0]);
            assert("time"@[0] != "2s64"@[0]);
            assert("2s16"@[2] != "2s64"@[2]);
            assert("2u16"@[1] != "2s64"@[1]);
            assert("2s32"@[2] != "2s64"@[2]);
            assert("2u32"@[1] != "2s64"@[1]);
        },
        StandardType::U64_2 => {
            assert("void"@[0] != "2u64"@[0]);
            assert("time"@[0] != "2u64"@[0]);
            assert("2s16"@[1] != "2u64"@[1]);
            assert("2u16"@[2] != "2u64"@[2]);
            assert("2s32"@[1] != "2u64"@[1]);
            assert("2u32"@[2] != "2u64"@[2]);
            assert("2s64"@[1] != "2u64"@[1]);
        },
        StandardType::Float2 => {
            assert("double"@[0] != "2float"@[0]);
        },
        StandardType::Double2 => {
        },
        StandardType::S8_3 => {
            assert("s32"@[0] != "3s8"@[0]);
            assert("s16"@[0] != "3s8"@[0]);
            assert("u16"@[0] != "3s8"@[0]);
            assert("u32"@[0] != "3s8"@[0]);
            assert("s64"@[0] != "3s8"@[0]);
            assert("u64"@[0] != "3s8"@[0]);
            assert("str"@[0] != "3s8"@[0]);
            assert("bin"@[0] != "3s8"@[0]);
            assert("ip4"@[0] != "3s8"@[0]);
            assert("2s8"@[0] != "3s8"@[0]);
            assert("2u8"@[0] != "3s8"@[0]);
        },
        StandardType::U8_3 => {
            assert("s32"@[0] != "3u8"@[0]);
            assert("s16"@[0] != "3u8"@[0]);
            assert("u16"@[0] != "3u8"@[0]);
            assert("u32"@[0] != "3u8"@[0]);
            assert("s64"@[0] != "3u8"@[0]);
            assert("u64"@[0] != "3u8"@[0]);
            assert("str"@[0] != "3u8"@[0]);
            assert("bin"@[0] != "3u8"@[0]);
            assert("ip4"@[0] != "3u8"@[0]);
            assert("2s8"@[0] != "3u8"@[0]);
            assert("2u8"@[0] != "3u8"@[0]);
            assert("3s8"@[1] != "3u8"@[1]);
        },
        StandardType::S16_3 => {
            assert("void"@[0] != "3s16"@[0]);
            assert("time"@[0] != "3s16"@[0]);
            assert("2s16"@[0] != "3s16"@[0]);
            assert("2u16"@[0] != "3s16"@[0]);
            assert("2s32"@[0] != "3s16"@[0]);
            assert("2u32"@[0] != "3s16"@[0]);
            assert("2s64"@[0] != "3s16"@[0]);
            assert("2u64"@[0] != "3s16"@[0]);
        },
        StandardType::U16_3 => {
            assert("void"@[0] != "3u16"@[0]);
            assert("time"@[0] != "3u16"@[0]);
            assert("2s16"@[0] != "3u16"@[0]);
            assert("2u16"@[0] != "3u16"@[0]);
            assert("2s32"@[0] != "3u16"@[0]);
            assert("2u32"@[0] != "3u16"@[0]);
            assert("2s64"@[0] != "3u16"@[0]);
            assert("2u64"@[0] != "3u16"@[0]);
            assert("3s16"@[1] != "3u16"@[1]);
        },
        StandardType::S32_3 => {
            assert("void"@[0] != "3s32"@[0]);
            assert("time"@[0] != "3s32"@[0]);
            assert("2s16"@[0] != "3s32"@[0]);
            assert("2u16"@[0] != "3s32"@[0]);
            assert("2s32"@[0] != "3s32"@[0]);
            assert("2u32"@[0] != "3s32"@[0]);
            assert("2s64"@[0] != "3s32"@[0]);
            assert("2u64"@[0] != "3s32"@[0]);
            assert("3s16"@[2] != "3s32"@[2]);
            assert("3u16"@[1] != "3s32"@[1]);
        },
        StandardType::U32_3 => {
            assert("void"@[0] != "3u32"@[0]);
            assert("time"@[0] != "3u32"@[0]);
            assert("2s16"@[0] != "3u32"@[0]);
            assert("2u16"@[0] != "3u32"@[0]);
            assert("2s32"@[0] != "3u32"@[0]);
            assert("2u32"@[0] != "3u32"@[0]);
            assert("2s64"@[0] != "3u32"@[0]);
            assert("2u64"@[0] != "3u32"@[0]);
            assert("3s16"@[1] != "3u32"@[1]);
            assert("3u16"@[2] != "3u32"@[2]);
            assert("3s32"@[1] != "3u32"@[1]);
        },
        StandardType::S64_3 => {
            assert("void"@[0] != "3s64"@[0]);
            assert("time"@[0] != "3s64"@[0]);
            assert("2s16"@[0] != "3s64"@[0]);
            assert("2u16"@[0] != "3s64"@[0]);
            assert("2s32"@[0] != "3s64"@[0]);
            assert("2u32"@[0] != "3s64"@[0]);
            assert("2s64"@[0] != "3s64"@[0]);
            assert("2u64"@[0] != "3s64"@[0]);
            assert("3s16"@[2] != "3s64"@[2]);
            assert("3u16"@[1] != "3s64"@[1]);
            assert("3s32"@[2] != "3s64"@[2]);
            assert("3u32"@[1] != "3s64"@[1]);
        },
        StandardType::U64_3 => {
            assert("void"@[0] != "3u64"@[0]);
            assert("time"@[0] != "3u64"@[0]);
            assert("2s16"@[0] != "3u64"@[0]);
            assert("2u16"@[0] != "3u64"@[0]);
            assert("2s32"@[0] != "3u64"@[0]);
            assert("2u32"@[0] != "3u64"@[0]);
            assert("2s64"@[0] != "3u64"@[0]);
            assert("2u64"@[0] != "3u64"@[0]);
            assert("3s16"@[1] != "3u64"@[1]);
            assert("3u16"@[2] != "3u64"@[2]);
            assert("3s32"@[1] != "3u64"@[1]);
            assert("3u32"@[2] != "3u64"@[2]);
            assert("3s64"@[1] != "3u64"@[1]);
        },
        StandardType::Float3 => {
            assert("double"@[0] != "3float"@[0]);
            assert("2float"@[0] != "3float"@[0]);
        },
        StandardType::Double3 => {
            assert("2double"@[0] != "3double"@[0]);
        },
        StandardType::S8_4 => {
            assert("s32"@[0] != "4s8"@[0]);
            assert("s16"@[0] != "4s8"@[0]);
            assert("u16"@[0] != "4s8"@[0]);
            assert("u32"@[0] != "4s8"@[0]);
            assert("s64"@[0] != "4s8"@[0]);
            assert("u64"@[0] != "4s8"@[0]);
            assert("str"@[0] != "4s8"@[0]);
            assert("bin"@[0] != "4s8"@[0]);
            assert("ip4"@[0] != "4s8"@[0]);
            assert("2s8"@[0] != "4s8"@[0]);
            assert("2u8"@[0] != "4s8"@[0]);
            assert("3s8"@[0] != "4s8"@[0]);
            assert("3u8"@[0] != "4s8"@[0]);
        },
        StandardType::U8_4 => {
            assert("s32"@[0] != "4u8"@[0]);
            assert("s16"@[0] != "4u8"@[0]);
            assert("u16"@[0] != "4u8"@[0]);
            assert("u32"@[0] != "4u8"@[0]);
            assert("s64"@[0] != "4u8"@[0]);
            assert("u64"@[0] != "4u8"@[0]);
            assert("str"@[0] != "4u8"@[0]);
            assert("bin"@[0] != "4u8"@[0]);
            assert("ip4"@[0] != "4u8"@[0]);
            assert("2s8"@[0] != "4u8"@[0]);
            assert("2u8"@[0] != "4u8"@[0]);
            assert("3s8"@[0] != "4u8"@[0]);
            assert("3u8"@[0] != "4u8"@[0]);
            assert("4s8"@[1] != "4u8"@[1]);
        },
        StandardType::S16_4 => {
            assert("void"@[0] != "4s16"@[0]);
            assert("time"@[0] != "4s16"@[0]);
            assert("2s16"@[0] != "4s16"@[0]);
            assert("2u16"@[0] != "4s16"@[0]);
            assert("2s32"@[0] != "4s16"@[0]);
            assert("2u32"@[0] != "4s16"@[0]);
            assert("2s64"@[0] != "4s16"@[0]);
            assert("2u64"@[0] != "4s16"@[0]);
            assert("3s16"@[0] != "4s16"@[0]);
            assert("3u16"@[0] != "4s16"@[0]);
            assert("3s32"@[0] != "4s16"@[0]);
            assert("3u32"@[0] != "4s16"@[0]);
            assert("3s64"@[0] != "4s16"@[0]);
            assert("3u64"@[0] != "4s16"@[0]);
        },
        StandardType::U16_4 => {
            assert("void"@[0] != "4u16"@[0]);
            assert("time"@[0] != "4u16"@[0]);
            assert("2s16"@[0] != "4u16"@[0]);
            assert("2u16"@[0] != "4u16"@[0]);
            assert("2s32"@[0] != "4u16"@[0]);
            assert("2u32"@[0] != "4u16"@[0]);
            assert("2s64"@[0] != "4u16"@[0]);
            assert("2u64"@[0] != "4u16"@[0]);
            assert("3s16"@[0] != "4u16"@[0]);
            assert("3u16"@[0] != "4u16"@[0]);
            assert("3s32"@[0] != "4u16"@[0]);
            assert("3u32"@[0] != "4u16"@[0]);
            assert("3s64"@[0] != "4u16"@[0]);
            assert("3u64"@[0] != "4u16"@[0]);
            assert("4s16"@[1] != "4u16"@[1]);
        },
        StandardType::S32_4 => {
            assert("void"@[0] != "4s32"@[0]);
            assert("time"@[0] != "4s32"@[0]);
            assert("2s16"@[0] != "4s32"@[0]);
            assert("2u16"@[0] != "4s32"@[0]);
            assert("2s32"@[0] != "4s32"@[0]);
            assert("2u32"@[0] != "4s32"@[0]);
            assert("2s64"@[0] != "4s32"@[0]);
            assert("2u64"@[0] != "4s32"@[0]);
            assert("3s16"@[0] != "4s32"@[0]);
            assert("3u16"@[0] != "4s32"@[0]);
            assert("3s32"@[0] != "4s32"@[0]);
            assert("3u32"@[0] != "4s32"@[0]);
            assert("3s64"@[0] != "4s32"@[0]);
            assert("3u64"@[0] != "4s32"@[0]);
            assert("4s16"@[2] != "4s32"@[2]);
            assert("4u16"@[1] != "4s32"@[1]);
        },
        StandardType::U32_4 => {
            assert("void"@[0] != "4u32"@[0]);
            assert("time"@[0] != "4u32"@[0]);
            assert("2s16"@[0] != "4u32"@[0]);
            assert("2u16"@[0] != "4u32"@[0]);
            assert("2s32"@[0] != "4u32"@[0]);
            assert("2u32"@[0] != "4u32"@[0]);
            assert("2s64"@[0] != "4u32"@[0]);
            assert("2u64"@[0] != "4u32"@[0]);
            assert("3s16"@[0] != "4u32"@[0]);
            assert("3u16"@[0] != "4u32"@[0]);
            assert("3s32"@[0] != "4u32"@[0]);
            assert("3u32"@[0] != "4u32"@[0]);
            assert("3s64"@[0] != "4u32"@[0]);
            assert("3u64"@[0] != "4u32"@[0]);
            assert("4s16"@[1] != "4u32"@[1]);
            assert("4u16"@[2] != "4u32"@[2]);
            assert("4s32"@[1] != "4u32"@[1]);
        },
        StandardType::S64_4 => {
            assert("void"@[0] != "4s64"@[0]);
            assert("time"@[0] != "4s64"@[0]);
            assert("2s16"@[0] != "4s64"@[0]);
            assert("2u16"@[0] != "4s64"@[0]);
            assert("2s32"@[0] != "4s64"@[0]);
            assert("2u32"@[0] != "4s64"@[0]);
            assert("2s64"@[0] != "4s64"@[0]);
            assert("2u64"@[0] != "4s64"@[0]);
            assert("3s16"@[0] != "4s64"@[0]);
            assert("3u16"@[0] != "4s64"@[0]);
            assert("3s32"@[0] != "4s64"@[0]);
            assert("3u32"@[0] != "4s64"@[0]);
            assert("3s64"@[0] != "4s64"@[0]);
            assert("3u64"@[0] != "4s64"@[0]);
            assert("4s16"@[2] != "4s64"@[2]);
            assert("4u16"@[1] != "4s64"@[1]);
            assert("4s32"@[2] != "4s64"@[2]);
            assert("4u32"@[1] != "4s64"@[1]);
        },
        StandardType::U64_4 => {
            assert("void"@[0] != "4u64"@[0]);
            assert("time"@[0] != "4u64"@[0]);
            assert("2s16"@[0] != "4u64"@[0]);
            assert("2u16"@[0] != "4u64"@[0]);
            assert("2s32"@[0] != "4u64"@[0]);
            assert("2u32"@[0] != "4u64"@[0]);
            assert("2s64"@[0] != "4u64"@[0]);
            assert("2u64"@[0] != "4u64"@[0]);
            assert("3s16"@[0] != "4u64"@[0]);
            assert("3u16"@[0] != "4u64"@[0]);
            assert("3s32"@[0] != "4u64"@[0]);
            assert("3u32"@[0] != "4u64"@[0]);
            assert("3s64"@[0] != "4u64"@[0]);
            assert("3u64"@[0] != "4u64"@[0]);
            assert("4s16"@[1] != "4u64"@[1]);
            assert("4u16"@[2] != "4u64"@[2]);
            assert("4s32"@[1] != "4u64"@[1]);
            assert("4u32"@[2] != "4u64"@[2]);
            assert("4s64"@[1] != "4u64"@[1]);
        },
        StandardType::Float4 => {
            assert("double"@[0] != "4float"@[0]);
            assert("2float"@[0] != "4float"@[0]);
            assert("3float"@[0] != "4float"@[0]);
        },
        StandardType::Double4 => {
            assert("2double"@[0] != "4double"@[0]);
            assert("3double"@[0] != "4double"@[0]);
        },
        StandardType::Attribute => {
            assert("void"@[0] != "attr"@[0]);
            assert("time"@[0] != "attr"@[0]);
            assert("2s16"@[0] != "attr"@[0]);
            assert("2u16"@[0] != "attr"@[0]);
            assert("2s32"@[0] != "attr"@[0]);
            assert("2u32"@[0] != "attr"@[0]);
            assert("2s64"@[0] != "attr"@[0]);
            assert("2u64"@[0] != "attr"@[0]);
            assert("3s16"@[0] != "attr"@[0]);
            assert("3u16"@[0] != "attr"@[0]);
            assert("3s32"@[0] != "attr"@[0]);
            assert("3u32"@[0] != "attr"@[0]);
            assert("3s64"@[0] != "attr"@[0]);
            assert("3u64"@[0] != "attr"@[0]);
            assert("4s16"@[0] != "attr"@[0]);
            assert("4u16"@[0] != "attr"@[0]);
            assert("4s32"@[0] != "attr"@[0]);
            assert("4u32"@[0] != "attr"@[0]);
            assert("4s64"@[0] != "attr"@[0]);
            assert("4u64"@[0] != "attr"@[0]);
        },
        StandardType::Vs8 => {
            assert("s32"@[0] != "vs8"@[0]);
            assert("s16"@[0] != "vs8"@[0]);
            assert("u16"@[0] != "vs8"@[0]);
            assert("u32"@[0] != "vs8"@[0]);
            assert("s64"@[0] != "vs8"@[0]);
            assert("u64"@[0] != "vs8"@[0]);
            assert("str"@[0] != "vs8"@[0]);
            assert("bin"@[0] != "vs8"@[0]);
            assert("ip4"@[0] != "vs8"@[0]);
            assert("2s8"@[0] != "vs8"@[0]);
            assert("2u8"@[0] != "vs8"@[0]);
            assert("3s8"@[0] != "vs8"@[0]);
            assert("3u8"@[0] != "vs8"@[0]);
            assert("4s8"@[0] != "vs8"@[0]);
            assert("4u8"@[0] != "vs8"@[0]);
        },
        StandardType::Vu8 => {
            assert("s32"@[0] != "vu8"@[0]);
            assert("s16"@[0] != "vu8"@[0]);
            assert("u16"@[0] != "vu8"@[0]);
            assert("u32"@[0] != "vu8"@[0]);
            assert("s64"@[0] != "vu8"@[0]);
            assert("u64"@[0] != "vu8"@[0]);
            assert("str"@[0] != "vu8"@[0]);
            assert("bin"@[0] != "vu8"@[0]);
            assert("ip4"@[0] != "vu8"@[0]);
            assert("2s8"@[0] != "vu8"@[0]);
            assert("2u8"@[0] != "vu8"@[0]);
            assert("3s8"@[0] != "vu8"@[0]);
            assert("3u8"@[0] != "vu8"@[0]);
            assert("4s8"@[0] != "vu8"@[0]);
            assert("4u8"@[0] != "vu8"@[0]);
            assert("vs8"@[1] != "vu8"@[1]);
        },
        StandardType::Vs16 => {
            assert("void"@[1] != "vs16"@[1]);
            assert("time"@[0] != "vs16"@[0]);
            assert("2s16"@[0] != "vs16"@[0]);
            assert("2u16"@[0] != "vs16"@[0]);
            assert("2s32"@[0] != "vs16"@[0]);
            assert("2u32"@[0] != "vs16"@[0]);
            assert("2s64"@[0] != "vs16"@[0]);
            assert("2u64"@[0] != "vs16"@[0]);
            assert("3s16"@[0] != "vs16"@[0]);
            assert("3u16"@[0] != "vs16"@[0]);
            assert("3s32"@[0] != "vs16"@[0]);
            assert("3u32"@[0] != "vs16"@[0]);
            assert("3s64"@[0] != "vs16"@[0]);
            assert("3u64"@[0] != "vs16"@[0]);
            assert("4s16"@[0] != "vs16"@[0]);
            assert("4u16"@[0] != "vs16"@[0]);
            assert("4s32"@[0] != "vs16"@[0]);
            assert("4u32"@[0] != "vs16"@[0]);
            assert("4s64"@[0] != "vs16"@[0]);
            assert("4u64"@[0] != "vs16"@[0]);
            assert("attr"@[0] != "vs16"@[0]);
        },
        StandardType::Vu16 => {
            assert("void"@[1] != "vu16"@[1]);
            assert("time"@[0] != "vu16"@[0]);
            assert("2s16"@[0] != "vu16"@[0]);
            assert("2u16"@[0] != "vu16"@[0]);
            assert("2s32"@[0] != "vu16"@[0]);
            assert("2u32"@[0] != "vu16"@[0]);
            assert("2s64"@[0] != "vu16"@[0]);
            assert("2u64"@[0] != "vu16"@[0]);
            assert("3s16"@[0] != "vu16"@[0]);
            assert("3u16"@[0] != "vu16"@[0]);
            assert("3s32"@[0] != "vu16"@[0]);
            assert("3u32"@[0] != "vu16"@[0]);
            assert("3s64"@[0] != "vu16"@[0]);
            assert("3u64"@[0] != "vu16"@[0]);
            assert("4s16"@[0] != "vu16"@[0]);
            assert("4u16"@[0] != "vu16"@[0]);
            assert("4s32"@[0] != "vu16"@[0]);
            assert("4u32"@[0] != "vu16"@[0]);
            assert("4s64"@[0] != "vu16"@[0]);
            assert("4u64"@[0] != "vu16"@[0]);
            assert("attr"@[0] != "vu16"@[0]);
            assert("vs16"@[1] != "vu16"@[1]);
        },
        StandardType::Boolean => {
            assert("void"@[0] != "bool"@[0]);
            assert("time"@[0] != "bool"@[0]);
            assert("2s16"@[0] != "bool"@[0]);
            assert("2u16"@[0] != "bool"@[0]);
            assert("2s32"@[0] != "bool"@[0]);
            assert("2u32"@[0] != "bool"@[0]);
            assert("2s64"@[0] != "bool"@[0]);
            assert("2u64"@[0] != "bool"@[0]);
            assert("3s16"@[0] != "bool"@[0]);
            assert("3u16"@[0] != "bool"@[0]);
            assert("3s32"@[0] != "bool"@[0]);
            assert("3u32"@[0] != "bool"@[0]);
            assert("3s64"@[0] != "bool"@[0]);
            assert("3u64"@[0] != "bool"@[0]);
            assert("4s16"@[0] != "bool"@[0]);
            assert("4u16"@[0] != "bool"@[0]);
            assert("4s32"@[0] != "bool"@[0]);
            assert("4u32"@[0] != "bool"@[0]);
            assert("4s64"@[0] != "bool"@[0]);
            assert("4u64"@[0] != "bool"@[0]);
            assert("attr"@[0] != "bool"@[0]);
            assert("vs16"@[0] != "bool"@[0]);
            assert("vu16"@[0] != "bool"@[0]);
        },
        StandardType::Boolean2 => {
            assert("u8"@[0] != "2b"@[0]);
            assert("s8"@[0] != "2b"@[0]);
        },
        StandardType::Boolean3 => {
            assert("u8"@[0] != "3b"@[0]);
            assert("s8"@[0] != "3b"@[0]);
            assert("2b"@[0] != "3b"@[0]);
        },
        StandardType::Boolean4 => {
            assert("u8"@[0] != "4b"@[0]);
            assert("s8"@[0] != "4b"@[0]);
            assert("2b"@[0] != "4b"@[0]);
            assert("3b"@[0] != "4b"@[0]);
        },
        StandardType::Vb => {
            assert("u8"@[0] != "vb"@[0]);
            assert("s8"@[0] != "vb"@[0]);
            assert("2b"@[0] != "vb"@[0]);
            assert("3b"@[0] != "vb"@[0]);
            assert("4b"@[0] != "vb"@[0]);
        },
        StandardType::NodeEnd => {
        },
        StandardType::FileEnd => {
            assert("node_end"@[0] != "file_end"@[0]);
        },
    }
}

/// Looking up the id of a type gives the type.
pub proof fn lemma_from_id(t: StandardType)
    ensures
        StandardType::spec_from_u8(t.spec_id()) == Some(t),
{
    let u = choose|u: StandardType| u.spec_id() == t.spec_id();
    assert(u.spec_id() == t.spec_id());
    lemma_id_unique(u, t);
}

/// On the wire one value of a fixed-size type takes between 1 and 32 bytes,
/// and every other type takes none by itself.
pub proof fn lemma_byte_len(t: StandardType)
    ensures
        t.is_fixed() ==> 1 <= t.spec_byte_len() <= 32 && t.spec_count() >= 1 && (t.spec_size() == 1
            || t.spec_size() == 2 || t.spec_size() == 4 || t.spec_size() == 8),
        !t.is_fixed() ==> t.spec_byte_len() == 0,
        t.spec_byte_len() == t.spec_size() * t.spec_count(),
        t.spec_id() & ARRAY_MASK == 0,
{
    let s = t.spec_size();
    let c = t.spec_count();
    if s == 0 {
        assert(s * c == 0);
    } else if s == 1 {
        assert(s * c == c);
    } else if s == 2 {
        assert(s * c == 2 * c);
    } else if s == 4 {
        assert(s * c == 4 * c);
    } else {
        assert(s * c == 8 * c);
    }
    let i = t.spec_id();
    assert(i <= 56 || i == 190 || i == 191);
    assert((i <= 56 || i == 190 || i == 191) ==> i & 0x40 == 0) by (bit_vector);
}

} // verus!

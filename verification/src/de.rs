//! The decisions of a reader that maps a document onto records.
use vstd::prelude::*;
use vstd::string::StringExecFns;
use crate::endian::{elem_value, get_elem};
use crate::error::KbinError;
use crate::node::{attrs_len, Node};
use crate::node_types::{ElementKind, StandardType};
use crate::value::Value;

verus! {

/// What a reader that maps a document onto records reads next.
#[derive(Clone, Copy, Debug, PartialEq, Eq, Structural)]
pub enum ReadMode {
    /// The name of a field.
    Key,
    /// One value.
    Single,
    /// The items of an array.
    Array,
}

/// How a value of a document is handed to a record.
#[derive(Clone, Copy, Debug, PartialEq, Eq, Structural)]
pub enum AnyAction {
    /// As a sequence: an array that is not yet being read.
    Sequence,
    String,
    ByteBuffer,
    U8,
    U16,
    U32,
    U64,
    S8,
    S16,
    S32,
    S64,
    Bool,
    /// As an address, read as the items of an array.
    Ip4,
    /// As a map of the node's attributes and children.
    Fields,
    /// The closing tag is passed over and the next tag is looked at.
    SkipNodeEnd,
    /// As a value of one of the remaining types, by its type.
    Custom,
}

/// How a value of this type is handed on. An array is a sequence unless
/// its items are being read.
pub open spec fn spec_dispatch_any(
    node_type: StandardType,
    is_array: bool,
    read_mode: ReadMode,
) -> AnyAction {
    if is_array && read_mode != ReadMode::Array {
        AnyAction::Sequence
    } else {
        match node_type {
            StandardType::Attribute => AnyAction::String,
            StandardType::String => AnyAction::String,
            StandardType::Binary => AnyAction::ByteBuffer,
            StandardType::U8 => AnyAction::U8,
            StandardType::U16 => AnyAction::U16,
            StandardType::U32 => AnyAction::U32,
            StandardType::U64 => AnyAction::U64,
            StandardType::S8 => AnyAction::S8,
            StandardType::S16 => AnyAction::S16,
            StandardType::S32 => AnyAction::S32,
            StandardType::S64 => AnyAction::S64,
            StandardType::Ip4 => AnyAction::Ip4,
            StandardType::Boolean => AnyAction::Bool,
            StandardType::NodeStart => AnyAction::Fields,
            StandardType::NodeEnd => AnyAction::SkipNodeEnd,
            _ => AnyAction::Custom,
        }
    }
}

pub fn dispatch_any(node_type: StandardType, is_array: bool, read_mode: ReadMode) -> (r: AnyAction)
    ensures
        r == spec_dispatch_any(node_type, is_array, read_mode),
{
    if is_array {
        // the items of an array are handled where the sequence is read
        match read_mode {
            ReadMode::Array => {},
            _ => {
                return AnyAction::Sequence;
            },
        }
    }
    match node_type {
        StandardType::Attribute => AnyAction::String,
        StandardType::String => AnyAction::String,
        StandardType::Binary => AnyAction::ByteBuffer,
        StandardType::U8 => AnyAction::U8,
        StandardType::U16 => AnyAction::U16,
        StandardType::U32 => AnyAction::U32,
        StandardType::U64 => AnyAction::U64,
        StandardType::S8 => AnyAction::S8,
        StandardType::S16 => AnyAction::S16,
        StandardType::S32 => AnyAction::S32,
        StandardType::S64 => AnyAction::S64,
        StandardType::Ip4 => AnyAction::Ip4,
        StandardType::Boolean => AnyAction::Bool,
        StandardType::NodeStart => AnyAction::Fields,
        StandardType::NodeEnd => AnyAction::SkipNodeEnd,
        _ => AnyAction::Custom,
    }
}

/// The name of a field of a record: the name of an attribute with `attr_`
/// before it, the name of a node as it is.
pub fn field_name(node_type: StandardType, name: String) -> (r: String)
    ensures
        r@ == if node_type == StandardType::Attribute {
            "attr_"@ + name@
        } else {
            name@
        },
{
    match node_type {
        StandardType::Attribute => {
            let mut r = String::new();
            r.append("attr_");
            r.append(name.as_str());
            assert(r@ =~= "attr_"@ + name@);
            r
        },
        _ => name,
    }
}

/// Whether a node is handed to a record as its value alone: it has a
/// value, and neither attributes nor children.
pub fn reads_as_value(node: &Node) -> (r: bool)
    ensures
        r == (node@.value is Some && node@.attributes.len() == 0 && node@.children.len() == 0),
{
    let no_attributes = match node.attributes() {
        Some(m) => attrs_len(m) == 0,
        None => true,
    };
    let no_children = match node.children() {
        Some(c) => c.len() == 0,
        None => true,
    };
    node.value().is_some() && no_attributes && no_children
}

/// The element that stands at `pos` in the bytes of a value of a
/// fixed-size type; nothing for another type, and where the bytes end
/// before the element does.
pub fn element_at(node_type: StandardType, bytes: &[u8], pos: usize) -> (r: Option<i128>)
    ensures
        match r {
            Some(n) => node_type.is_fixed() && pos + node_type.spec_size() <= bytes@.len() && n
                == elem_value(
                node_type.spec_kind().unwrap(),
                bytes@.subrange(pos as int, pos + node_type.spec_size()),
            ),
            None => !node_type.is_fixed() || pos + node_type.spec_size() > bytes@.len(),
        },
{
    let kind = match node_type.kind() {
        Some(k) => k,
        None => {
            return None;
        },
    };
    proof {
        crate::node_types::lemma_byte_len(node_type);
    }
    let size = node_type.size();
    if pos > bytes.len() || bytes.len() - pos < size {
        return None;
    }
    let signed = match kind {
        ElementKind::Signed => true,
        _ => false,
    };
    Some(get_elem(bytes, pos, size, signed))
}

/// The boolean of a byte: 0 or 1.
pub fn bool_of_byte(b: u8) -> (r: Result<bool, KbinError>)
    ensures
        b == 0 ==> r == Ok::<bool, KbinError>(false),
        b == 1 ==> r == Ok::<bool, KbinError>(true),
        b > 1 ==> r == Err::<bool, KbinError>(KbinError::InvalidBoolean(b)),
{
    match b {
        0x00 => Ok(false),
        0x01 => Ok(true),
        b => Err(KbinError::InvalidBoolean(b)),
    }
}

/// The bytes that a value holds with the values in `values`: those of
/// unsigned bytes.
pub open spec fn spec_bytes_of(values: Seq<Value>) -> Option<Seq<u8>>
    decreases values.len(),
{
    if values.len() == 0 {
        Some(Seq::empty())
    } else {
        match (spec_bytes_of(values.drop_last()), values.last()) {
            (Some(front), Value::U8(b)) => Some(front.push(b)),
            _ => None,
        }
    }
}

impl Value {
    /// The bytes of binary data, or of an array of unsigned bytes. An
    /// array of another type, or with an item that is no unsigned byte, is
    /// a mismatch with `u8`; any other value is one with `bin`.
    pub fn try_into_bytes(self) -> (r: Result<Vec<u8>, KbinError>)
        ensures
            match self {
                Value::Binary(data) => r == Ok::<Vec<u8>, KbinError>(data),
                Value::Array(t, values) => if t == StandardType::U8 {
                    match spec_bytes_of(values@) {
                        Some(b) => r matches Ok(v) && v@ == b,
                        None => r matches Err(KbinError::TypeMismatch { expected, found })
                            && expected == StandardType::U8,
                    }
                } else {
                    r == Err::<Vec<u8>, KbinError>(
                        KbinError::TypeMismatch { expected: StandardType::U8, found: t },
                    )
                },
                _ => r == Err::<Vec<u8>, KbinError>(
                    KbinError::TypeMismatch {
                        expected: StandardType::Binary,
                        found: self.spec_standard_type(),
                    },
                ),
            },
    {
        match self {
            Value::Binary(data) => Ok(data),
            Value::Array(node_type, values) => {
                match node_type {
                    StandardType::U8 => {},
                    _ => {
                        return Err(
                            KbinError::TypeMismatch {
                                expected: StandardType::U8,
                                found: node_type,
                            },
                        );
                    },
                }
                let mut out: Vec<u8> = Vec::new();
                let mut i: usize = 0;
                assert(values@.take(0) =~= Seq::<Value>::empty());
                while i < values.len()
                    invariant
                        i <= values@.len(),
                        self == Value::Array(node_type, values),
                        node_type == StandardType::U8,
                        spec_bytes_of(values@.take(i as int)) == Some(out@),
                    decreases values@.len() - i,
                {
                    proof {
                        assert(values@.take(i + 1).drop_last() =~= values@.take(i as int));
                        assert(values@.take(i + 1).last() == values@[i as int]);
                    }
                    match values[i].as_u8() {
                        Ok(b) => out.push(b),
                        Err(e) => {
                            proof {
                                lemma_bytes_of_none(values@, i + 1);
                            }
                            return Err(e);
                        },
                    }
                    i += 1;
                }
                assert(values@.take(i as int) =~= values@);
                Ok(out)
            },
            value => Err(
                KbinError::TypeMismatch {
                    expected: StandardType::Binary,
                    found: value.standard_type(),
                },
            ),
        }
    }
}

/// Where the first values hold no bytes, the values hold none.
pub proof fn lemma_bytes_of_none(values: Seq<Value>, k: int)
    requires
        0 <= k <= values.len(),
        spec_bytes_of(values.take(k)) is None,
    ensures
        spec_bytes_of(values) is None,
    decreases values.len() - k,
{
    if k == values.len() {
        assert(values.take(k) =~= values);
    } else {
        assert(values.take(k + 1).drop_last() =~= values.take(k));
        lemma_bytes_of_none(values, k + 1);
    }
}

} // verus!

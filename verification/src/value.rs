//! The typed values of nodes, and their bytes.
use vstd::prelude::*;
use crate::endian::{
    all_bools, elem_bytes, elem_ok, elems_bytes, elems_of, elems_ok, first_bad_bool, get_elems,
    ints, put_elems, Element,
};
use crate::error::KbinError;
use crate::node::{attribute_entries, Node};
use crate::node_types::{ElementKind, StandardType};

verus! {

/// The typed value of a node.
#[allow(non_camel_case_types)]
#[derive(Debug, PartialEq)]
pub enum Value {
    S8(i8),
    U8(u8),
    S16(i16),
    U16(u16),
    S32(i32),
    U32(u32),
    S64(i64),
    U64(u64),
    Binary(Vec<u8>),
    String(String),
    /// The four octets of an IPv4 address.
    Ip4([u8; 4]),
    /// A time stamp, kept as the number that the document holds.
    Time(u32),
    /// The IEEE-754 bit pattern of a single-precision number.
    Float(u32),
    /// The IEEE-754 bit pattern of a double-precision number.
    Double(u64),
    S8_2([i8; 2]),
    U8_2([u8; 2]),
    S16_2([i16; 2]),
    U16_2([u16; 2]),
    S32_2([i32; 2]),
    U32_2([u32; 2]),
    S64_2([i64; 2]),
    U64_2([u64; 2]),
    Float2([u32; 2]),
    Double2([u64; 2]),
    S8_3([i8; 3]),
    U8_3([u8; 3]),
    S16_3([i16; 3]),
    U16_3([u16; 3]),
    S32_3([i32; 3]),
    U32_3([u32; 3]),
    S64_3([i64; 3]),
    U64_3([u64; 3]),
    Float3([u32; 3]),
    Double3([u64; 3]),
    S8_4([i8; 4]),
    U8_4([u8; 4]),
    S16_4([i16; 4]),
    U16_4([u16; 4]),
    S32_4([i32; 4]),
    U32_4([u32; 4]),
    S64_4([i64; 4]),
    U64_4([u64; 4]),
    Float4([u32; 4]),
    Double4([u64; 4]),
    Attribute(String),
    Vs8([i8; 16]),
    Vu8([u8; 16]),
    Vs16([i16; 8]),
    Vu16([u16; 8]),
    Boolean(bool),
    Boolean2([bool; 2]),
    Boolean3([bool; 3]),
    Boolean4([bool; 4]),
    Vb([bool; 16]),
    /// A run of values of one fixed-size type.
    Array(StandardType, Vec<Value>),
    /// A subtree. The binary codec never produces one.
    Node(Box<Node>),
}

/// What a value is, apart from how the machine holds it. Every fixed-size
/// value is its type and its elements as numbers: a boolean as 0 or 1, a
/// floating-point number as its bit pattern.
pub enum ValueView {
    Fixed(StandardType, Seq<int>),
    Binary(Seq<u8>),
    String(Seq<char>),
    Attribute(Seq<char>),
    Array(StandardType, Seq<ValueView>),
    Node(Box<NodeView>),
}

/// What a node is: its key, its attributes in the order in which they were
/// set, its children in document order and its value.
pub struct NodeView {
    pub key: Seq<char>,
    pub attributes: Seq<(Seq<char>, Seq<char>)>,
    pub children: Seq<NodeView>,
    pub value: Option<ValueView>,
}

/// The view of a value.
pub open(crate) spec fn value_view(v: &Value) -> ValueView
    decreases v,
{
    match v {
        Value::S8(n) => ValueView::Fixed(StandardType::S8, ints(seq![*n])),
        Value::U8(n) => ValueView::Fixed(StandardType::U8, ints(seq![*n])),
        Value::S16(n) => ValueView::Fixed(StandardType::S16, ints(seq![*n])),
        Value::U16(n) => ValueView::Fixed(StandardType::U16, ints(seq![*n])),
        Value::S32(n) => ValueView::Fixed(StandardType::S32, ints(seq![*n])),
        Value::U32(n) => ValueView::Fixed(StandardType::U32, ints(seq![*n])),
        Value::S64(n) => ValueView::Fixed(StandardType::S64, ints(seq![*n])),
        Value::U64(n) => ValueView::Fixed(StandardType::U64, ints(seq![*n])),
        Value::Binary(data) => ValueView::Binary(data@),
        Value::String(s) => ValueView::String(s@),
        Value::Ip4(a) => ValueView::Fixed(StandardType::Ip4, ints(a@)),
        Value::Time(n) => ValueView::Fixed(StandardType::Time, ints(seq![*n])),
        Value::Float(n) => ValueView::Fixed(StandardType::Float, ints(seq![*n])),
        Value::Double(n) => ValueView::Fixed(StandardType::Double, ints(seq![*n])),
        Value::S8_2(a) => ValueView::Fixed(StandardType::S8_2, ints(a@)),
        Value::U8_2(a) => ValueView::Fixed(StandardType::U8_2, ints(a@)),
        Value::S16_2(a) => ValueView::Fixed(StandardType::S16_2, ints(a@)),
        Value::U16_2(a) => ValueView::Fixed(StandardType::U16_2, ints(a@)),
        Value::S32_2(a) => ValueView::Fixed(StandardType::S32_2, ints(a@)),
        Value::U32_2(a) => ValueView::Fixed(StandardType::U32_2, ints(a@)),
        Value::S64_2(a) => ValueView::Fixed(StandardType::S64_2, ints(a@)),
        Value::U64_2(a) => ValueView::Fixed(StandardType::U64_2, ints(a@)),
        Value::Float2(a) => ValueView::Fixed(StandardType::Float2, ints(a@)),
        Value::Double2(a) => ValueView::Fixed(StandardType::Double2, ints(a@)),
        Value::S8_3(a) => ValueView::Fixed(StandardType::S8_3, ints(a@)),
        Value::U8_3(a) => ValueView::Fixed(StandardType::U8_3, ints(a@)),
        Value::S16_3(a) => ValueView::Fixed(StandardType::S16_3, ints(a@)),
        Value::U16_3(a) => ValueView::Fixed(StandardType::U16_3, ints(a@)),
        Value::S32_3(a) => ValueView::Fixed(StandardType::S32_3, ints(a@)),
        Value::U32_3(a) => ValueView::Fixed(StandardType::U32_3, ints(a@)),
        Value::S64_3(a) => ValueView::Fixed(StandardType::S64_3, ints(a@)),
        Value::U64_3(a) => ValueView::Fixed(StandardType::U64_3, ints(a@)),
        Value::Float3(a) => ValueView::Fixed(StandardType::Float3, ints(a@)),
        Value::Double3(a) => ValueView::Fixed(StandardType::Double3, ints(a@)),
        Value::S8_4(a) => ValueView::Fixed(StandardType::S8_4, ints(a@)),
        Value::U8_4(a) => ValueView::Fixed(StandardType::U8_4, ints(a@)),
        Value::S16_4(a) => ValueView::Fixed(StandardType::S16_4, ints(a@)),
        Value::U16_4(a) => ValueView::Fixed(StandardType::U16_4, ints(a@)),
        Value::S32_4(a) => ValueView::Fixed(StandardType::S32_4, ints(a@)),
        Value::U32_4(a) => ValueView::Fixed(StandardType::U32_4, ints(a@)),
        Value::S64_4(a) => ValueView::Fixed(StandardType::S64_4, ints(a@)),
        Value::U64_4(a) => ValueView::Fixed(StandardType::U64_4, ints(a@)),
        Value::Float4(a) => ValueView::Fixed(StandardType::Float4, ints(a@)),
        Value::Double4(a) => ValueView::Fixed(StandardType::Double4, ints(a@)),
        Value::Attribute(s) => ValueView::Attribute(s@),
        Value::Vs8(a) => ValueView::Fixed(StandardType::Vs8, ints(a@)),
        Value::Vu8(a) => ValueView::Fixed(StandardType::Vu8, ints(a@)),
        Value::Vs16(a) => ValueView::Fixed(StandardType::Vs16, ints(a@)),
        Value::Vu16(a) => ValueView::Fixed(StandardType::Vu16, ints(a@)),
        Value::Boolean(n) => ValueView::Fixed(StandardType::Boolean, ints(seq![*n])),
        Value::Boolean2(a) => ValueView::Fixed(StandardType::Boolean2, ints(a@)),
        Value::Boolean3(a) => ValueView::Fixed(StandardType::Boolean3, ints(a@)),
        Value::Boolean4(a) => ValueView::Fixed(StandardType::Boolean4, ints(a@)),
        Value::Vb(a) => ValueView::Fixed(StandardType::Vb, ints(a@)),
        Value::Array(t, values) => ValueView::Array(
            *t,
            Seq::new(
                values@.len(),
                |i: int|
                    if 0 <= i < values@.len() {
                        value_view(&values@[i])
                    } else {
                        arbitrary()
                    },
            ),
        ),
        Value::Node(node) => ValueView::Node(Box::new(node_view(node))),
    }
}

/// The view of a node.
pub open(crate) spec fn node_view(n: &Node) -> NodeView
    decreases n,
{
    NodeView {
        key: n.key@,
        attributes: match n.attributes {
            Some(attributes) => attribute_entries(attributes),
            None => Seq::empty(),
        },
        children: match n.children {
            Some(children) => Seq::new(
                children@.len(),
                |i: int|
                    if 0 <= i < children@.len() {
                        node_view(&children@[i])
                    } else {
                        arbitrary()
                    },
            ),
            None => Seq::empty(),
        },
        value: match n.value {
            Some(value) => Some(value_view(&value)),
            None => None,
        },
    }
}

impl View for Value {
    type V = ValueView;

    open(crate) spec fn view(&self) -> ValueView {
        value_view(self)
    }
}

impl Value {
    /// The type of the value; of an array, the type of its items.
    pub open spec fn spec_standard_type(&self) -> StandardType {
        match self {
            Value::S8(_) => StandardType::S8,
            Value::U8(_) => StandardType::U8,
            Value::S16(_) => StandardType::S16,
            Value::U16(_) => StandardType::U16,
            Value::S32(_) => StandardType::S32,
            Value::U32(_) => StandardType::U32,
            Value::S64(_) => StandardType::S64,
            Value::U64(_) => StandardType::U64,
            Value::Binary(_) => StandardType::Binary,
            Value::String(_) => StandardType::String,
            Value::Ip4(_) => StandardType::Ip4,
            Value::Time(_) => StandardType::Time,
            Value::Float(_) => StandardType::Float,
            Value::Double(_) => StandardType::Double,
            Value::S8_2(_) => StandardType::S8_2,
            Value::U8_2(_) => StandardType::U8_2,
            Value::S16_2(_) => StandardType::S16_2,
            Value::U16_2(_) => StandardType::U16_2,
            Value::S32_2(_) => StandardType::S32_2,
            Value::U32_2(_) => StandardType::U32_2,
            Value::S64_2(_) => StandardType::S64_2,
            Value::U64_2(_) => StandardType::U64_2,
            Value::Float2(_) => StandardType::Float2,
            Value::Double2(_) => StandardType::Double2,
            Value::S8_3(_) => StandardType::S8_3,
            Value::U8_3(_) => StandardType::U8_3,
            Value::S16_3(_) => StandardType::S16_3,
            Value::U16_3(_) => StandardType::U16_3,
            Value::S32_3(_) => StandardType::S32_3,
            Value::U32_3(_) => StandardType::U32_3,
            Value::S64_3(_) => StandardType::S64_3,
            Value::U64_3(_) => StandardType::U64_3,
            Value::Float3(_) => StandardType::Float3,
            Value::Double3(_) => StandardType::Double3,
            Value::S8_4(_) => StandardType::S8_4,
            Value::U8_4(_) => StandardType::U8_4,
            Value::S16_4(_) => StandardType::S16_4,
            Value::U16_4(_) => StandardType::U16_4,
            Value::S32_4(_) => StandardType::S32_4,
            Value::U32_4(_) => StandardType::U32_4,
            Value::S64_4(_) => StandardType::S64_4,
            Value::U64_4(_) => StandardType::U64_4,
            Value::Float4(_) => StandardType::Float4,
            Value::Double4(_) => StandardType::Double4,
            Value::Attribute(_) => StandardType::Attribute,
            Value::Vs8(_) => StandardType::Vs8,
            Value::Vu8(_) => StandardType::Vu8,
            Value::Vs16(_) => StandardType::Vs16,
            Value::Vu16(_) => StandardType::Vu16,
            Value::Boolean(_) => StandardType::Boolean,
            Value::Boolean2(_) => StandardType::Boolean2,
            Value::Boolean3(_) => StandardType::Boolean3,
            Value::Boolean4(_) => StandardType::Boolean4,
            Value::Vb(_) => StandardType::Vb,
            Value::Array(t, _) => *t,
            Value::Node(_) => StandardType::NodeStart,
        }
    }

    #[verifier::when_used_as_spec(spec_standard_type)]
    pub fn standard_type(&self) -> (r: StandardType)
        ensures
            r == self.spec_standard_type(),
    {
        match self {
            Value::S8(_) => StandardType::S8,
            Value::U8(_) => StandardType::U8,
            Value::S16(_) => StandardType::S16,
            Value::U16(_) => StandardType::U16,
            Value::S32(_) => StandardType::S32,
            Value::U32(_) => StandardType::U32,
            Value::S64(_) => StandardType::S64,
            Value::U64(_) => StandardType::U64,
            Value::Binary(_) => StandardType::Binary,
            Value::String(_) => StandardType::String,
            Value::Ip4(_) => StandardType::Ip4,
            Value::Time(_) => StandardType::Time,
            Value::Float(_) => StandardType::Float,
            Value::Double(_) => StandardType::Double,
            Value::S8_2(_) => StandardType::S8_2,
            Value::U8_2(_) => StandardType::U8_2,
            Value::S16_2(_) => StandardType::S16_2,
            Value::U16_2(_) => StandardType::U16_2,
            Value::S32_2(_) => StandardType::S32_2,
            Value::U32_2(_) => StandardType::U32_2,
            Value::S64_2(_) => StandardType::S64_2,
            Value::U64_2(_) => StandardType::U64_2,
            Value::Float2(_) => StandardType::Float2,
            Value::Double2(_) => StandardType::Double2,
            Value::S8_3(_) => StandardType::S8_3,
            Value::U8_3(_) => StandardType::U8_3,
            Value::S16_3(_) => StandardType::S16_3,
            Value::U16_3(_) => StandardType::U16_3,
            Value::S32_3(_) => StandardType::S32_3,
            Value::U32_3(_) => StandardType::U32_3,
            Value::S64_3(_) => StandardType::S64_3,
            Value::U64_3(_) => StandardType::U64_3,
            Value::Float3(_) => StandardType::Float3,
            Value::Double3(_) => StandardType::Double3,
            Value::S8_4(_) => StandardType::S8_4,
            Value::U8_4(_) => StandardType::U8_4,
            Value::S16_4(_) => StandardType::S16_4,
            Value::U16_4(_) => StandardType::U16_4,
            Value::S32_4(_) => StandardType::S32_4,
            Value::U32_4(_) => StandardType::U32_4,
            Value::S64_4(_) => StandardType::S64_4,
            Value::U64_4(_) => StandardType::U64_4,
            Value::Float4(_) => StandardType::Float4,
            Value::Double4(_) => StandardType::Double4,
            Value::Attribute(_) => StandardType::Attribute,
            Value::Vs8(_) => StandardType::Vs8,
            Value::Vu8(_) => StandardType::Vu8,
            Value::Vs16(_) => StandardType::Vs16,
            Value::Vu16(_) => StandardType::Vu16,
            Value::Boolean(_) => StandardType::Boolean,
            Value::Boolean2(_) => StandardType::Boolean2,
            Value::Boolean3(_) => StandardType::Boolean3,
            Value::Boolean4(_) => StandardType::Boolean4,
            Value::Vb(_) => StandardType::Vb,
            Value::Array(t, _) => *t,
            Value::Node(_) => StandardType::NodeStart,
        }
    }
}

/// The byte that an `InvalidBoolean` names: the first that is neither 0 nor 1.
pub open spec fn bad_bool_byte(bytes: Seq<u8>) -> u8 {
    bytes[choose|j: int| first_bad_bool(bytes, j)]
}

/// The first byte that is neither 0 nor 1 is unique.
pub proof fn lemma_first_bad_bool(bytes: Seq<u8>, j: int)
    requires
        first_bad_bool(bytes, j),
    ensures
        bad_bool_byte(bytes) == bytes[j],
        !all_bools(bytes),
{
    let k = choose|k: int| first_bad_bool(bytes, k);
    assert(first_bad_bool(bytes, k));
    if k < j {
        assert(bytes[k] <= 1);
    }
    if j < k {
        assert(bytes[j] <= 1);
    }
}

/// Where some byte is neither 0 nor 1, one of them is the first.
pub proof fn lemma_bad_bool_exists(bytes: Seq<u8>)
    requires
        !all_bools(bytes),
    ensures
        exists|j: int| first_bad_bool(bytes, j),
    decreases bytes.len(),
{
    let i = choose|i: int| 0 <= i < bytes.len() && #[trigger] bytes[i] > 1;
    let front = bytes.take(i);
    if all_bools(front) {
        assert forall|k: int| 0 <= k < i implies #[trigger] bytes[k] <= 1 by {
            assert(front[k] == bytes[k]);
        }
        assert(first_bad_bool(bytes, i));
    } else {
        lemma_bad_bool_exists(front);
        let j = choose|j: int| first_bad_bool(front, j);
        assert(bytes[j] == front[j]);
        assert forall|k: int| 0 <= k < j implies #[trigger] bytes[k] <= 1 by {
            assert(front[k] == bytes[k]);
        }
        assert(first_bad_bool(bytes, j));
    }
}

/// The value of a fixed-size type that `input` holds.
pub open spec fn fixed_view(t: StandardType, input: Seq<u8>) -> ValueView {
    ValueView::Fixed(t, elems_of(t.spec_kind().unwrap(), t.spec_size() as nat, input))
}

/// The array of values of a fixed-size type that `input` holds.
pub open spec fn array_view(t: StandardType, input: Seq<u8>) -> ValueView {
    ValueView::Array(
        t,
        Seq::new(
            (input.len() / (t.spec_byte_len() as nat)),
            |k: int|
                fixed_view(
                    t,
                    input.subrange(k * t.spec_byte_len(), k * t.spec_byte_len() + t.spec_byte_len()),
                ),
        ),
    )
}

/// What the bytes of a payload are as a value of type `t`. The structural
/// types and strings have no value of this kind. A fixed-size value takes
/// exactly the bytes of its type, an array a whole number of them, and a
/// boolean byte is 0 or 1.
pub open spec fn spec_from_bytes(t: StandardType, is_array: bool, input: Seq<u8>) -> Result<
    Option<ValueView>,
    KbinError,
> {
    if is_array {
        if !t.is_fixed() {
            Err(KbinError::InvalidState)
        } else if input.len() % (t.spec_byte_len() as nat) != 0 {
            Err(
                KbinError::SizeMismatch {
                    node_type: t,
                    expected: t.spec_byte_len(),
                    found: input.len() as usize,
                },
            )
        } else if t.spec_kind() == Some(ElementKind::Bool) && !all_bools(input) {
            Err(KbinError::InvalidBoolean(bad_bool_byte(input)))
        } else {
            Ok(Some(array_view(t, input)))
        }
    } else if t == StandardType::Binary {
        Ok(Some(ValueView::Binary(input)))
    } else if !t.is_fixed() {
        Ok(None)
    } else if input.len() != t.spec_byte_len() {
        Err(
            KbinError::SizeMismatch {
                node_type: t,
                expected: t.spec_byte_len(),
                found: input.len() as usize,
            },
        )
    } else if t.spec_kind() == Some(ElementKind::Bool) && !all_bools(input) {
        Err(KbinError::InvalidBoolean(bad_bool_byte(input)))
    } else {
        Ok(Some(fixed_view(t, input)))
    }
}

/// An executable result is the one that the model gives.
pub open spec fn same_value_result(
    r: Result<Option<Value>, KbinError>,
    s: Result<Option<ValueView>, KbinError>,
) -> bool {
    match (r, s) {
        (Ok(Some(v)), Ok(Some(w))) => v@ == w,
        (Ok(None), Ok(None)) => true,
        (Err(e), Err(f)) => e == f,
        _ => false,
    }
}

impl ValueView {
    /// The type of the value; of an array, the type of its items.
    pub open spec fn standard_type(self) -> StandardType {
        match self {
            ValueView::Fixed(t, _) => t,
            ValueView::Binary(_) => StandardType::Binary,
            ValueView::String(_) => StandardType::String,
            ValueView::Attribute(_) => StandardType::Attribute,
            ValueView::Array(t, _) => t,
            ValueView::Node(_) => StandardType::NodeStart,
        }
    }

    /// A fixed-size value with as many elements as its type has, each
    /// within the element's range.
    pub open spec fn is_fixed_of(self, t: StandardType) -> bool {
        self matches ValueView::Fixed(u, es) && u == t && t.is_fixed() && es.len() == t.spec_count()
            && elems_ok(t.spec_kind().unwrap(), t.spec_size() as nat, es)
    }

    /// A value that a document can hold: a fixed-size value of its type, an
    /// array whose items are fixed-size values of the array's type, bytes or
    /// text.
    pub open spec fn wf(self) -> bool {
        match self {
            ValueView::Fixed(t, _) => self.is_fixed_of(t),
            ValueView::Array(t, vs) => t.is_fixed() && forall|i: int|
                0 <= i < vs.len() ==> (#[trigger] vs[i]).is_fixed_of(t),
            ValueView::Binary(_) => true,
            ValueView::String(_) => true,
            ValueView::Attribute(_) => true,
            ValueView::Node(_) => false,
        }
    }

    /// The bytes of the value as they stand in the data stream, without a
    /// length prefix; `None` for text and subtrees, which have no such bytes.
    pub open spec fn payload(self) -> Option<Seq<u8>>
        decreases self,
    {
        match self {
            ValueView::Fixed(t, es) => Some(elems_bytes(t.spec_size() as nat, es)),
            ValueView::Binary(b) => Some(b),
            ValueView::Array(_, vs) => payloads(vs),
            ValueView::String(_) => None,
            ValueView::Attribute(_) => None,
            ValueView::Node(_) => None,
        }
    }

    /// The bytes that writing the value appends: its payload where it has
    /// one; nothing for text and subtrees; and for an array that holds a
    /// value without a payload, the payloads of the values before the first
    /// such value and what that value appends.
    pub open spec fn appended(self) -> Seq<u8>
        decreases self,
    {
        match self {
            ValueView::Fixed(t, es) => elems_bytes(t.spec_size() as nat, es),
            ValueView::Binary(b) => b,
            ValueView::Array(_, vs) => appended_all(vs),
            ValueView::String(_) => Seq::empty(),
            ValueView::Attribute(_) => Seq::empty(),
            ValueView::Node(_) => Seq::empty(),
        }
    }
}

/// The bytes that writing the values one after the other appends, up to
/// and with the first that has no payload.
pub open spec fn appended_all(vs: Seq<ValueView>) -> Seq<u8>
    decreases vs,
{
    if vs.len() == 0 {
        Seq::empty()
    } else {
        match payloads(vs.drop_last()) {
            Some(front) => front + vs.last().appended(),
            None => appended_all(vs.drop_last()),
        }
    }
}

/// The payloads of the values, one after the other; `None` where one of
/// them has none.
pub open spec fn payloads(vs: Seq<ValueView>) -> Option<Seq<u8>>
    decreases vs,
{
    if vs.len() == 0 {
        Some(Seq::empty())
    } else {
        match (payloads(vs.drop_last()), vs.last().payload()) {
            (Some(front), Some(last)) => Some(front + last),
            _ => None,
        }
    }
}

/// Appends the bytes of one element.
fn put_one<T: Element>(out: &mut Vec<u8>, x: T)
    ensures
        final(out)@ == old(out)@ + elems_bytes(T::width(), ints(seq![x])),
{
    proof {
        T::lemma_width();
        x.lemma_range();
        crate::endian::lemma_bounds();
        assert(ints(seq![x]) =~= Seq::<int>::empty().push(x.as_int()));
        crate::endian::lemma_elems_bytes_push(T::width(), Seq::<int>::empty(), x.as_int());
        assert(elems_bytes(T::width(), ints(seq![x])) =~= elem_bytes(T::width(), x.as_int()));
    }
    crate::endian::put_elem(out, x.to_wide(), T::size());
}

/// Reads one element from bytes that hold exactly one.
fn get_one<T: Element>(input: &[u8], zero: T) -> (r: Result<T, KbinError>)
    requires
        input@.len() == T::width(),
    ensures
        r is Ok <==> (T::kind() == ElementKind::Bool ==> all_bools(input@)),
        r matches Ok(x) ==> ints(seq![x]) == elems_of(T::kind(), T::width(), input@),
        r matches Err(e) ==> e == KbinError::InvalidBoolean(bad_bool_byte(input@)),
{
    match get_elems::<T, 1>(input, zero) {
        Ok(a) => {
            assert(ints(seq![a[0]]) =~= ints(a@));
            Ok(a[0])
        },
        Err(e) => {
            proof {
                let j = choose|j: int|
                    first_bad_bool(input@, j) && e == KbinError::InvalidBoolean(input@[j]);
                lemma_first_bad_bool(input@, j);
            }
            Err(e)
        },
    }
}

impl Value {
    /// Reads one value of a fixed-size type from exactly the bytes of one.
    pub fn from_fixed(node_type: StandardType, input: &[u8]) -> (r: Result<Value, KbinError>)
        requires
            node_type.is_fixed(),
            input@.len() == node_type.spec_byte_len(),
        ensures
            r is Ok <==> (node_type.spec_kind() == Some(ElementKind::Bool) ==> all_bools(input@)),
            r matches Ok(v) ==> v@ == fixed_view(node_type, input@),
            r matches Err(e) ==> e == KbinError::InvalidBoolean(bad_bool_byte(input@)),
    {
        match node_type {
            StandardType::S8 => match get_one::<i8>(input, 0) {
                Ok(x) => Ok(Value::S8(x)),
                Err(e) => Err(e),
            },
            StandardType::U8 => match get_one::<u8>(input, 0) {
                Ok(x) => Ok(Value::U8(x)),
                Err(e) => Err(e),
            },
            StandardType::S16 => match get_one::<i16>(input, 0) {
                Ok(x) => Ok(Value::S16(x)),
                Err(e) => Err(e),
            },
            StandardType::U16 => match get_one::<u16>(input, 0) {
                Ok(x) => Ok(Value::U16(x)),
                Err(e) => Err(e),
            },
            StandardType::S32 => match get_one::<i32>(input, 0) {
                Ok(x) => Ok(Value::S32(x)),
                Err(e) => Err(e),
            },
            StandardType::U32 => match get_one::<u32>(input, 0) {
                Ok(x) => Ok(Value::U32(x)),
                Err(e) => Err(e),
            },
            StandardType::S64 => match get_one::<i64>(input, 0) {
                Ok(x) => Ok(Value::S64(x)),
                Err(e) => Err(e),
            },
            StandardType::U64 => match get_one::<u64>(input, 0) {
                Ok(x) => Ok(Value::U64(x)),
                Err(e) => Err(e),
            },
            StandardType::Ip4 => match get_elems::<u8, 4>(input, 0) {
                Ok(a) => Ok(Value::Ip4(a)),
                Err(e) => Err(e),
            },
            StandardType::Time => match get_one::<u32>(input, 0) {
                Ok(x) => Ok(Value::Time(x)),
                Err(e) => Err(e),
            },
            StandardType::Float => match get_one::<u32>(input, 0) {
                Ok(x) => Ok(Value::Float(x)),
                Err(e) => Err(e),
            },
            StandardType::Double => match get_one::<u64>(input, 0) {
                Ok(x) => Ok(Value::Double(x)),
                Err(e) => Err(e),
            },
            StandardType::S8_2 => match get_elems::<i8, 2>(input, 0) {
                Ok(a) => Ok(Value::S8_2(a)),
                Err(e) => Err(e),
            },
            StandardType::U8_2 => match get_elems::<u8, 2>(input, 0) {
                Ok(a) => Ok(Value::U8_2(a)),
                Err(e) => Err(e),
            },
            StandardType::S16_2 => match get_elems::<i16, 2>(input, 0) {
                Ok(a) => Ok(Value::S16_2(a)),
                Err(e) => Err(e),
            },
            StandardType::U16_2 => match get_elems::<u16, 2>(input, 0) {
                Ok(a) => Ok(Value::U16_2(a)),
                Err(e) => Err(e),
            },
            StandardType::S32_2 => match get_elems::<i32, 2>(input, 0) {
                Ok(a) => Ok(Value::S32_2(a)),
                Err(e) => Err(e),
            },
            StandardType::U32_2 => match get_elems::<u32, 2>(input, 0) {
                Ok(a) => Ok(Value::U32_2(a)),
                Err(e) => Err(e),
            },
            StandardType::S64_2 => match get_elems::<i64, 2>(input, 0) {
                Ok(a) => Ok(Value::S64_2(a)),
                Err(e) => Err(e),
            },
            StandardType::U64_2 => match get_elems::<u64, 2>(input, 0) {
                Ok(a) => Ok(Value::U64_2(a)),
                Err(e) => Err(e),
            },
            StandardType::Float2 => match get_elems::<u32, 2>(input, 0) {
                Ok(a) => Ok(Value::Float2(a)),
                Err(e) => Err(e),
            },
            StandardType::Double2 => match get_elems::<u64, 2>(input, 0) {
                Ok(a) => Ok(Value::Double2(a)),
                Err(e) => Err(e),
            },
            StandardType::S8_3 => match get_elems::<i8, 3>(input, 0) {
                Ok(a) => Ok(Value::S8_3(a)),
                Err(e) => Err(e),
            },
            StandardType::U8_3 => match get_elems::<u8, 3>(input, 0) {
                Ok(a) => Ok(Value::U8_3(a)),
                Err(e) => Err(e),
            },
            StandardType::S16_3 => match get_elems::<i16, 3>(input, 0) {
                Ok(a) => Ok(Value::S16_3(a)),
                Err(e) => Err(e),
            },
            StandardType::U16_3 => match get_elems::<u16, 3>(input, 0) {
                Ok(a) => Ok(Value::U16_3(a)),
                Err(e) => Err(e),
            },
            StandardType::S32_3 => match get_elems::<i32, 3>(input, 0) {
                Ok(a) => Ok(Value::S32_3(a)),
                Err(e) => Err(e),
            },
            StandardType::U32_3 => match get_elems::<u32, 3>(input, 0) {
                Ok(a) => Ok(Value::U32_3(a)),
                Err(e) => Err(e),
            },
            StandardType::S64_3 => match get_elems::<i64, 3>(input, 0) {
                Ok(a) => Ok(Value::S64_3(a)),
                Err(e) => Err(e),
            },
            StandardType::U64_3 => match get_elems::<u64, 3>(input, 0) {
                Ok(a) => Ok(Value::U64_3(a)),
                Err(e) => Err(e),
            },
            StandardType::Float3 => match get_elems::<u32, 3>(input, 0) {
                Ok(a) => Ok(Value::Float3(a)),
                Err(e) => Err(e),
            },
            StandardType::Double3 => match get_elems::<u64, 3>(input, 0) {
                Ok(a) => Ok(Value::Double3(a)),
                Err(e) => Err(e),
            },
            StandardType::S8_4 => match get_elems::<i8, 4>(input, 0) {
                Ok(a) => Ok(Value::S8_4(a)),
                Err(e) => Err(e),
            },
            StandardType::U8_4 => match get_elems::<u8, 4>(input, 0) {
                Ok(a) => Ok(Value::U8_4(a)),
                Err(e) => Err(e),
            },
            StandardType::S16_4 => match get_elems::<i16, 4>(input, 0) {
                Ok(a) => Ok(Value::S16_4(a)),
                Err(e) => Err(e),
            },
            StandardType::U16_4 => match get_elems::<u16, 4>(input, 0) {
                Ok(a) => Ok(Value::U16_4(a)),
                Err(e) => Err(e),
            },
            StandardType::S32_4 => match get_elems::<i32, 4>(input, 0) {
                Ok(a) => Ok(Value::S32_4(a)),
                Err(e) => Err(e),
            },
            StandardType::U32_4 => match get_elems::<u32, 4>(input, 0) {
                Ok(a) => Ok(Value::U32_4(a)),
                Err(e) => Err(e),
            },
            StandardType::S64_4 => match get_elems::<i64, 4>(input, 0) {
                Ok(a) => Ok(Value::S64_4(a)),
                Err(e) => Err(e),
            },
            StandardType::U64_4 => match get_elems::<u64, 4>(input, 0) {
                Ok(a) => Ok(Value::U64_4(a)),
                Err(e) => Err(e),
            },
            StandardType::Float4 => match get_elems::<u32, 4>(input, 0) {
                Ok(a) => Ok(Value::Float4(a)),
                Err(e) => Err(e),
            },
            StandardType::Double4 => match get_elems::<u64, 4>(input, 0) {
                Ok(a) => Ok(Value::Double4(a)),
                Err(e) => Err(e),
            },
            StandardType::Vs8 => match get_elems::<i8, 16>(input, 0) {
                Ok(a) => Ok(Value::Vs8(a)),
                Err(e) => Err(e),
            },
            StandardType::Vu8 => match get_elems::<u8, 16>(input, 0) {
                Ok(a) => Ok(Value::Vu8(a)),
                Err(e) => Err(e),
            },
            StandardType::Vs16 => match get_elems::<i16, 8>(input, 0) {
                Ok(a) => Ok(Value::Vs16(a)),
                Err(e) => Err(e),
            },
            StandardType::Vu16 => match get_elems::<u16, 8>(input, 0) {
                Ok(a) => Ok(Value::Vu16(a)),
                Err(e) => Err(e),
            },
            StandardType::Boolean => match get_one::<bool>(input, false) {
                Ok(x) => Ok(Value::Boolean(x)),
                Err(e) => Err(e),
            },
            StandardType::Boolean2 => match get_elems::<bool, 2>(input, false) {
                Ok(a) => Ok(Value::Boolean2(a)),
                Err(e) => Err(e),
            },
            StandardType::Boolean3 => match get_elems::<bool, 3>(input, false) {
                Ok(a) => Ok(Value::Boolean3(a)),
                Err(e) => Err(e),
            },
            StandardType::Boolean4 => match get_elems::<bool, 4>(input, false) {
                Ok(a) => Ok(Value::Boolean4(a)),
                Err(e) => Err(e),
            },
            StandardType::Vb => match get_elems::<bool, 16>(input, false) {
                Ok(a) => Ok(Value::Vb(a)),
                Err(e) => Err(e),
            },
            _ => Err(KbinError::InvalidState),
        }
    }

    /// Reads the value that the bytes of a payload hold, or the array of
    /// values where `is_array` is set. The structural types and strings
    /// give `None`: their payload is no value of this kind.
    pub fn from_standard_type(node_type: StandardType, is_array: bool, input: &[u8]) -> (r: Result<
        Option<Value>,
        KbinError,
    >)
        ensures
            same_value_result(r, spec_from_bytes(node_type, is_array, input@)),
    {
        let node_size = node_type.byte_len();
        let len = input.len();
        if is_array {
            if node_type.kind().is_none() {
                return Err(KbinError::InvalidState);
            }
            proof {
                crate::node_types::lemma_byte_len(node_type);
            }
            if len % node_size != 0 {
                return Err(
                    KbinError::SizeMismatch { node_type, expected: node_size, found: len },
                );
            }
            let count = len / node_size;
            let mut values: Vec<Value> = Vec::new();
            let mut k: usize = 0;
            let mut pos: usize = 0;
            while k < count
                invariant
                    is_array,
                    k <= count,
                    pos == k * node_size,
                    node_type.is_fixed(),
                    node_size == node_type.spec_byte_len(),
                    1 <= node_size <= 32,
                    len == input@.len(),
                    count == len / node_size,
                    len % node_size == 0,
                    values@.len() == k,
                    forall|i: int|
                        0 <= i < k ==> (#[trigger] values@[i])@ == fixed_view(
                            node_type,
                            input@.subrange(i * node_size, i * node_size + node_size),
                        ),
                    node_type.spec_kind() == Some(ElementKind::Bool) ==> forall|i: int|
                        0 <= i < pos ==> #[trigger] input@[i] <= 1,
                decreases count - k,
            {
                assert(pos + node_size <= len) by (nonlinear_arith)
                    requires
                        pos == k * node_size,
                        k < count,
                        count == len / node_size,
                        node_size >= 1,
                ;
                let chunk = vstd::slice::slice_subrange(input, pos, pos + node_size);
                match Value::from_fixed(node_type, chunk) {
                    Ok(v) => {
                        values.push(v);
                    },
                    Err(e) => {
                        proof {
                            lemma_bad_bool_exists(chunk@);
                            let j = choose|j: int| first_bad_bool(chunk@, j);
                            lemma_first_bad_bool(chunk@, j);
                            assert(first_bad_bool(chunk@, j));
                            assert(first_bad_bool(input@, pos + j)) by {
                                assert(input@[pos + j] == chunk@[j]);
                                assert forall|i: int| 0 <= i < pos + j implies #[trigger] input@[i]
                                    <= 1 by {
                                    if i >= pos {
                                        assert(input@[i] == chunk@[i - pos]);
                                    }
                                }
                            }
                            lemma_first_bad_bool(input@, pos + j);
                            assert(e == KbinError::InvalidBoolean(bad_bool_byte(input@)));
                            assert(node_type.spec_kind() == Some(ElementKind::Bool));
                            assert(input@.len() % (node_type.spec_byte_len() as nat) == 0);
                        }
                        return Err(e);
                    },
                }
                proof {
                    assert((k + 1) * node_size == pos + node_size) by (nonlinear_arith)
                        requires
                            pos == k * node_size,
                    ;
                    if node_type.spec_kind() == Some(ElementKind::Bool) {
                        assert forall|i: int| 0 <= i < pos + node_size implies #[trigger] input@[i]
                            <= 1 by {
                            if i >= pos {
                                assert(input@[i] == chunk@[i - pos]);
                            }
                        }
                    }
                }
                k += 1;
                pos += node_size;
            }
            proof {
                assert(count * node_size == len) by (nonlinear_arith)
                    requires
                        count == len / node_size,
                        len % node_size == 0,
                        node_size >= 1,
                ;
                if node_type.spec_kind() == Some(ElementKind::Bool) {
                    assert(all_bools(input@));
                }
                let result = Value::Array(node_type, values);
                let s = result@->Array_1;
                let b = array_view(node_type, input@)->Array_1;
                assert(s.len() == b.len());
                assert forall|i: int| 0 <= i < s.len() implies s[i] == b[i] by {
                    assert(0 <= i * node_size && i * node_size + node_size <= len)
                        by (nonlinear_arith)
                        requires
                            0 <= i < count,
                            count * node_size == len,
                            node_size >= 1,
                    ;
                    assert(values@[i]@ == fixed_view(
                        node_type,
                        input@.subrange(i * node_size, i * node_size + node_size),
                    ));
                }
                assert(s =~= b);
            }
            return Ok(Some(Value::Array(node_type, values)));
        }
        match node_type {
            StandardType::Binary => Ok(Some(Value::Binary(vstd::slice::slice_to_vec(input)))),
            _ => {
                if node_type.kind().is_none() {
                    return Ok(None);
                }
                if len != node_size {
                    return Err(
                        KbinError::SizeMismatch { node_type, expected: node_size, found: len },
                    );
                }
                match Value::from_fixed(node_type, input) {
                    Ok(v) => Ok(Some(v)),
                    Err(e) => Err(e),
                }
            },
        }
    }

    /// Appends the payload of the value to `out`. Text and subtrees have no
    /// payload of their own and are refused; an array that holds one is
    /// refused after the items before it were appended.
    pub fn to_bytes_into(&self, out: &mut Vec<u8>) -> (r: Result<(), KbinError>)
        ensures
            match self@.payload() {
                Some(b) => r is Ok && final(out)@ == old(out)@ + b,
                None => r == Err::<(), KbinError>(KbinError::InvalidState),
            },
            final(out)@ == old(out)@ + self@.appended(),
        decreases self,
    {
        proof {
            lemma_appended_payload(self@);
            assert(old(out)@ + Seq::<u8>::empty() =~= old(out)@);
        }
        match self {
            Value::Binary(data) => {
                out.extend_from_slice(data.as_slice());
                Ok(())
            },
            Value::Array(_, values) => {
                let mut k: usize = 0;
                proof {
                    assert(self@->Array_1.take(0) =~= Seq::<ValueView>::empty());
                }
                while k < values.len()
                    invariant
                        k <= values@.len(),
                        self@ matches ValueView::Array(_, vs) && vs.len() == values@.len()
                            && forall|i: int|
                            0 <= i < vs.len() ==> #[trigger] vs[i] == (values@[i])@,
                        *self matches Value::Array(_, w) && w == values,
                        payloads(self@->Array_1.take(k as int)) matches Some(b) && out@ == old(out)@ + b,
                    decreases values@.len() - k,
                {
                    let ghost vs = self@->Array_1;
                    let ghost before = out@;
                    proof {
                        assert(vs.take(k + 1).drop_last() =~= vs.take(k as int));
                        assert(vs.take(k + 1).last() == values@[k as int]@);
                    }
                    match values[k].to_bytes_into(out) {
                        Ok(()) => {},
                        Err(e) => {
                            proof {
                                lemma_payloads_none(vs, k as int);
                                lemma_appended_stops(vs, k as int);
                                let b = payloads(vs.take(k as int)).unwrap();
                                assert((old(out)@ + b) + vs[k as int].appended() =~= old(out)@ + (b
                                    + vs[k as int].appended()));
                            }
                            return Err(e);
                        },
                    }
                    k += 1;
                }
                proof {
                    assert(self@->Array_1.take(k as int) =~= self@->Array_1);
                }
                Ok(())
            },
            Value::String(_) => Err(KbinError::InvalidState),
            Value::Attribute(_) => Err(KbinError::InvalidState),
            Value::Node(_) => Err(KbinError::InvalidState),
            _ => {
                self.put_fixed(out);
                Ok(())
            },
        }
    }

    /// Appends the elements of a fixed-size value.
    #[verifier::rlimit(60)]
    #[verifier::spinoff_prover]
    fn put_fixed(&self, out: &mut Vec<u8>)
        requires
            self@ is Fixed,
        ensures
            final(out)@ == old(out)@ + self@.payload().unwrap(),
    {
        match self {
            Value::S8(n) => put_one(out, *n),
            Value::U8(n) => put_one(out, *n),
            Value::S16(n) => put_one(out, *n),
            Value::U16(n) => put_one(out, *n),
            Value::S32(n) => put_one(out, *n),
            Value::U32(n) => put_one(out, *n),
            Value::S64(n) => put_one(out, *n),
            Value::U64(n) => put_one(out, *n),
            Value::Ip4(a) => put_elems(out, a.as_slice()),
            Value::Time(n) => put_one(out, *n),
            Value::Float(n) => put_one(out, *n),
            Value::Double(n) => put_one(out, *n),
            Value::S8_2(a) => put_elems(out, a.as_slice()),
            Value::U8_2(a) => put_elems(out, a.as_slice()),
            Value::S16_2(a) => put_elems(out, a.as_slice()),
            Value::U16_2(a) => put_elems(out, a.as_slice()),
            Value::S32_2(a) => put_elems(out, a.as_slice()),
            Value::U32_2(a) => put_elems(out, a.as_slice()),
            Value::S64_2(a) => put_elems(out, a.as_slice()),
            Value::U64_2(a) => put_elems(out, a.as_slice()),
            Value::Float2(a) => put_elems(out, a.as_slice()),
            Value::Double2(a) => put_elems(out, a.as_slice()),
            Value::S8_3(a) => put_elems(out, a.as_slice()),
            Value::U8_3(a) => put_elems(out, a.as_slice()),
            Value::S16_3(a) => put_elems(out, a.as_slice()),
            Value::U16_3(a) => put_elems(out, a.as_slice()),
            Value::S32_3(a) => put_elems(out, a.as_slice()),
            Value::U32_3(a) => put_elems(out, a.as_slice()),
            Value::S64_3(a) => put_elems(out, a.as_slice()),
            Value::U64_3(a) => put_elems(out, a.as_slice()),
            Value::Float3(a) => put_elems(out, a.as_slice()),
            Value::Double3(a) => put_elems(out, a.as_slice()),
            Value::S8_4(a) => put_elems(out, a.as_slice()),
            Value::U8_4(a) => put_elems(out, a.as_slice()),
            Value::S16_4(a) => put_elems(out, a.as_slice()),
            Value::U16_4(a) => put_elems(out, a.as_slice()),
            Value::S32_4(a) => put_elems(out, a.as_slice()),
            Value::U32_4(a) => put_elems(out, a.as_slice()),
            Value::S64_4(a) => put_elems(out, a.as_slice()),
            Value::U64_4(a) => put_elems(out, a.as_slice()),
            Value::Float4(a) => put_elems(out, a.as_slice()),
            Value::Double4(a) => put_elems(out, a.as_slice()),
            Value::Vs8(a) => put_elems(out, a.as_slice()),
            Value::Vu8(a) => put_elems(out, a.as_slice()),
            Value::Vs16(a) => put_elems(out, a.as_slice()),
            Value::Vu16(a) => put_elems(out, a.as_slice()),
            Value::Boolean(n) => put_one(out, *n),
            Value::Boolean2(a) => put_elems(out, a.as_slice()),
            Value::Boolean3(a) => put_elems(out, a.as_slice()),
            Value::Boolean4(a) => put_elems(out, a.as_slice()),
            Value::Vb(a) => put_elems(out, a.as_slice()),
            _ => {},
        }
    }

    /// The payload of the value, as `to_bytes_into` appends it.
    pub fn to_bytes(&self) -> (r: Result<Vec<u8>, KbinError>)
        ensures
            match self@.payload() {
                Some(b) => r matches Ok(v) && v@ == b,
                None => r == Err::<Vec<u8>, KbinError>(KbinError::InvalidState),
            },
    {
        let mut out: Vec<u8> = Vec::new();
        match self.to_bytes_into(&mut out) {
            Ok(()) => {
                assert(out@ =~= self@.payload().unwrap());
                Ok(out)
            },
            Err(e) => Err(e),
        }
    }

    /// The number of a `S8` value; any other value is a type mismatch.
    pub fn as_i8(&self) -> (r: Result<i8, KbinError>)
        ensures
            match *self {
                Value::S8(n) => r == Ok::<i8, KbinError>(n),
                _ => r == Err::<i8, KbinError>(
                    KbinError::TypeMismatch {
                        expected: StandardType::S8,
                        found: self.spec_standard_type(),
                    },
                ),
            },
    {
        match self {
            Value::S8(n) => Ok(*n),
            value => Err(
                KbinError::TypeMismatch {
                    expected: StandardType::S8,
                    found: value.standard_type(),
                },
            ),
        }
    }

    /// The number of a `U8` value; any other value is a type mismatch.
    pub fn as_u8(&self) -> (r: Result<u8, KbinError>)
        ensures
            match *self {
                Value::U8(n) => r == Ok::<u8, KbinError>(n),
                _ => r == Err::<u8, KbinError>(
                    KbinError::TypeMismatch {
                        expected: StandardType::U8,
                        found: self.spec_standard_type(),
                    },
                ),
            },
    {
        match self {
            Value::U8(n) => Ok(*n),
            value => Err(
                KbinError::TypeMismatch {
                    expected: StandardType::U8,
                    found: value.standard_type(),
                },
            ),
        }
    }

    /// The number of a `S16` value; any other value is a type mismatch.
    pub fn as_i16(&self) -> (r: Result<i16, KbinError>)
        ensures
            match *self {
                Value::S16(n) => r == Ok::<i16, KbinError>(n),
                _ => r == Err::<i16, KbinError>(
                    KbinError::TypeMismatch {
                        expected: StandardType::S16,
                        found: self.spec_standard_type(),
                    },
                ),
            },
    {
        match self {
            Value::S16(n) => Ok(*n),
            value => Err(
                KbinError::TypeMismatch {
                    expected: StandardType::S16,
                    found: value.standard_type(),
                },
            ),
        }
    }

    /// The number of a `U16` value; any other value is a type mismatch.
    pub fn as_u16(&self) -> (r: Result<u16, KbinError>)
        ensures
            match *self {
                Value::U16(n) => r == Ok::<u16, KbinError>(n),
                _ => r == Err::<u16, KbinError>(
                    KbinError::TypeMismatch {
                        expected: StandardType::U16,
                        found: self.spec_standard_type(),
                    },
                ),
            },
    {
        match self {
            Value::U16(n) => Ok(*n),
            value => Err(
                KbinError::TypeMismatch {
                    expected: StandardType::U16,
                    found: value.standard_type(),
                },
            ),
        }
    }

    /// The number of a `S32` value; any other value is a type mismatch.
    pub fn as_i32(&self) -> (r: Result<i32, KbinError>)
        ensures
            match *self {
                Value::S32(n) => r == Ok::<i32, KbinError>(n),
                _ => r == Err::<i32, KbinError>(
                    KbinError::TypeMismatch {
                        expected: StandardType::S32,
                        found: self.spec_standard_type(),
                    },
                ),
            },
    {
        match self {
            Value::S32(n) => Ok(*n),
            value => Err(
                KbinError::TypeMismatch {
                    expected: StandardType::S32,
                    found: value.standard_type(),
                },
            ),
        }
    }

    /// The number of a `U32` value; any other value is a type mismatch.
    pub fn as_u32(&self) -> (r: Result<u32, KbinError>)
        ensures
            match *self {
                Value::U32(n) => r == Ok::<u32, KbinError>(n),
                _ => r == Err::<u32, KbinError>(
                    KbinError::TypeMismatch {
                        expected: StandardType::U32,
                        found: self.spec_standard_type(),
                    },
                ),
            },
    {
        match self {
            Value::U32(n) => Ok(*n),
            value => Err(
                KbinError::TypeMismatch {
                    expected: StandardType::U32,
                    found: value.standard_type(),
                },
            ),
        }
    }

    /// The number of a `S64` value; any other value is a type mismatch.
    pub fn as_i64(&self) -> (r: Result<i64, KbinError>)
        ensures
            match *self {
                Value::S64(n) => r == Ok::<i64, KbinError>(n),
                _ => r == Err::<i64, KbinError>(
                    KbinError::TypeMismatch {
                        expected: StandardType::S64,
                        found: self.spec_standard_type(),
                    },
                ),
            },
    {
        match self {
            Value::S64(n) => Ok(*n),
            value => Err(
                KbinError::TypeMismatch {
                    expected: StandardType::S64,
                    found: value.standard_type(),
                },
            ),
        }
    }

    /// The number of a `U64` value; any other value is a type mismatch.
    pub fn as_u64(&self) -> (r: Result<u64, KbinError>)
        ensures
            match *self {
                Value::U64(n) => r == Ok::<u64, KbinError>(n),
                _ => r == Err::<u64, KbinError>(
                    KbinError::TypeMismatch {
                        expected: StandardType::U64,
                        found: self.spec_standard_type(),
                    },
                ),
            },
    {
        match self {
            Value::U64(n) => Ok(*n),
            value => Err(
                KbinError::TypeMismatch {
                    expected: StandardType::U64,
                    found: value.standard_type(),
                },
            ),
        }
    }

    /// The bytes of a `Binary` value.
    pub fn as_slice(&self) -> (r: Result<&[u8], KbinError>)
        ensures
            match *self {
                Value::Binary(data) => r matches Ok(s) && s@ == data@,
                _ => r == Err::<&[u8], KbinError>(
                    KbinError::TypeMismatch {
                        expected: StandardType::Binary,
                        found: self.spec_standard_type(),
                    },
                ),
            },
    {
        match self {
            Value::Binary(data) => Ok(data.as_slice()),
            value => Err(
                KbinError::TypeMismatch {
                    expected: StandardType::Binary,
                    found: value.standard_type(),
                },
            ),
        }
    }

    /// The text of a `String` value.
    pub fn as_str(&self) -> (r: Result<&str, KbinError>)
        ensures
            match *self {
                Value::String(text) => r matches Ok(s) && s@ == text@,
                _ => r == Err::<&str, KbinError>(
                    KbinError::TypeMismatch {
                        expected: StandardType::String,
                        found: self.spec_standard_type(),
                    },
                ),
            },
    {
        match self {
            Value::String(text) => Ok(text.as_str()),
            value => Err(
                KbinError::TypeMismatch {
                    expected: StandardType::String,
                    found: value.standard_type(),
                },
            ),
        }
    }

    /// The text of a `String` value, taken out of it.
    pub fn as_string(self) -> (r: Result<String, KbinError>)
        ensures
            match self {
                Value::String(text) => r == Ok::<String, KbinError>(text),
                _ => r == Err::<String, KbinError>(
                    KbinError::TypeMismatch {
                        expected: StandardType::String,
                        found: self.spec_standard_type(),
                    },
                ),
            },
    {
        match self {
            Value::String(text) => Ok(text),
            value => Err(
                KbinError::TypeMismatch {
                    expected: StandardType::String,
                    found: value.standard_type(),
                },
            ),
        }
    }

    /// The text of an `Attribute` value, taken out of it.
    pub fn as_attribute(self) -> (r: Result<String, KbinError>)
        ensures
            match self {
                Value::Attribute(text) => r == Ok::<String, KbinError>(text),
                _ => r == Err::<String, KbinError>(
                    KbinError::TypeMismatch {
                        expected: StandardType::Attribute,
                        found: self.spec_standard_type(),
                    },
                ),
            },
    {
        match self {
            Value::Attribute(text) => Ok(text),
            value => Err(
                KbinError::TypeMismatch {
                    expected: StandardType::Attribute,
                    found: value.standard_type(),
                },
            ),
        }
    }

    /// The bytes of a `Binary` value.
    pub fn as_binary(&self) -> (r: Result<&[u8], KbinError>)
        ensures
            match *self {
                Value::Binary(data) => r matches Ok(s) && s@ == data@,
                _ => r == Err::<&[u8], KbinError>(
                    KbinError::TypeMismatch {
                        expected: StandardType::Binary,
                        found: self.spec_standard_type(),
                    },
                ),
            },
    {
        self.as_slice()
    }

    /// The items of an array. Asking a value that is no array for them is
    /// an invalid state.
    pub fn as_array(&self) -> (r: Result<&[Value], KbinError>)
        ensures
            match *self {
                Value::Array(_, values) => r matches Ok(s) && s@ == values@,
                _ => r == Err::<&[Value], KbinError>(KbinError::InvalidState),
            },
    {
        match self {
            Value::Array(_, values) => Ok(values.as_slice()),
            _ => Err(KbinError::InvalidState),
        }
    }

    /// The bytes of a `Binary` value, taken out of it.
    pub fn into_binary(self) -> (r: Result<Vec<u8>, KbinError>)
        ensures
            match self {
                Value::Binary(data) => r == Ok::<Vec<u8>, KbinError>(data),
                _ => r == Err::<Vec<u8>, KbinError>(
                    KbinError::TypeMismatch {
                        expected: StandardType::Binary,
                        found: self.spec_standard_type(),
                    },
                ),
            },
    {
        match self {
            Value::Binary(data) => Ok(data),
            value => Err(
                KbinError::TypeMismatch {
                    expected: StandardType::Binary,
                    found: value.standard_type(),
                },
            ),
        }
    }
}

/// A value with a payload appends it.
pub proof fn lemma_appended_payload(v: ValueView)
    ensures
        v.payload() matches Some(b) ==> v.appended() == b,
    decreases v,
{
    match v {
        ValueView::Array(_, vs) => {
            lemma_appended_payloads(vs);
        },
        _ => {},
    }
}

/// Values that all have a payload append their payloads.
pub proof fn lemma_appended_payloads(vs: Seq<ValueView>)
    ensures
        payloads(vs) matches Some(b) ==> appended_all(vs) == b,
    decreases vs,
{
    if vs.len() > 0 {
        lemma_appended_payloads(vs.drop_last());
        lemma_appended_payload(vs.last());
    }
}

/// Writing stops at the first value without a payload.
pub proof fn lemma_appended_stops(vs: Seq<ValueView>, k: int)
    requires
        0 <= k < vs.len(),
        payloads(vs.take(k)) is Some,
        vs[k].payload() is None,
    ensures
        appended_all(vs) == payloads(vs.take(k)).unwrap() + vs[k].appended(),
    decreases vs.len(),
{
    if k == vs.len() - 1 {
        assert(vs.drop_last() =~= vs.take(k));
    } else {
        lemma_payloads_none(vs.drop_last(), k);
        assert(vs.drop_last().take(k) =~= vs.take(k));
        lemma_appended_stops(vs.drop_last(), k);
    }
}

/// Where one value has no payload, the run of values has none.
pub proof fn lemma_payloads_none(vs: Seq<ValueView>, k: int)
    requires
        0 <= k < vs.len(),
        vs[k].payload() is None,
    ensures
        payloads(vs) is None,
    decreases vs.len(),
{
    if k < vs.len() - 1 {
        lemma_payloads_none(vs.drop_last(), k);
    }
}

/// The value that executable code holds is a value of its type: a fixed-size
/// value has the elements of its type, each within range.
pub proof fn lemma_fixed_wf(v: &Value)
    requires
        v@ is Fixed,
    ensures
        v@.is_fixed_of(v.spec_standard_type()),
{
    match v {
        Value::S8(n) => {
            crate::endian::lemma_ints_ok::<i8>(seq![*n]);
        },
        Value::U8(n) => {
            crate::endian::lemma_ints_ok::<u8>(seq![*n]);
        },
        Value::S16(n) => {
            crate::endian::lemma_ints_ok::<i16>(seq![*n]);
        },
        Value::U16(n) => {
            crate::endian::lemma_ints_ok::<u16>(seq![*n]);
        },
        Value::S32(n) => {
            crate::endian::lemma_ints_ok::<i32>(seq![*n]);
        },
        Value::U32(n) => {
            crate::endian::lemma_ints_ok::<u32>(seq![*n]);
        },
        Value::S64(n) => {
            crate::endian::lemma_ints_ok::<i64>(seq![*n]);
        },
        Value::U64(n) => {
            crate::endian::lemma_ints_ok::<u64>(seq![*n]);
        },
        Value::Ip4(a) => {
            crate::endian::lemma_ints_ok::<u8>(a@);
        },
        Value::Time(n) => {
            crate::endian::lemma_ints_ok::<u32>(seq![*n]);
        },
        Value::Float(n) => {
            crate::endian::lemma_ints_ok::<u32>(seq![*n]);
        },
        Value::Double(n) => {
            crate::endian::lemma_ints_ok::<u64>(seq![*n]);
        },
        Value::S8_2(a) => {
            crate::endian::lemma_ints_ok::<i8>(a@);
        },
        Value::U8_2(a) => {
            crate::endian::lemma_ints_ok::<u8>(a@);
        },
        Value::S16_2(a) => {
            crate::endian::lemma_ints_ok::<i16>(a@);
        },
        Value::U16_2(a) => {
            crate::endian::lemma_ints_ok::<u16>(a@);
        },
        Value::S32_2(a) => {
            crate::endian::lemma_ints_ok::<i32>(a@);
        },
        Value::U32_2(a) => {
            crate::endian::lemma_ints_ok::<u32>(a@);
        },
        Value::S64_2(a) => {
            crate::endian::lemma_ints_ok::<i64>(a@);
        },
        Value::U64_2(a) => {
            crate::endian::lemma_ints_ok::<u64>(a@);
        },
        Value::Float2(a) => {
            crate::endian::lemma_ints_ok::<u32>(a@);
        },
        Value::Double2(a) => {
            crate::endian::lemma_ints_ok::<u64>(a@);
        },
        Value::S8_3(a) => {
            crate::endian::lemma_ints_ok::<i8>(a@);
        },
        Value::U8_3(a) => {
            crate::endian::lemma_ints_ok::<u8>(a@);
        },
        Value::S16_3(a) => {
            crate::endian::lemma_ints_ok::<i16>(a@);
        },
        Value::U16_3(a) => {
            crate::endian::lemma_ints_ok::<u16>(a@);
        },
        Value::S32_3(a) => {
            crate::endian::lemma_ints_ok::<i32>(a@);
        },
        Value::U32_3(a) => {
            crate::endian::lemma_ints_ok::<u32>(a@);
        },
        Value::S64_3(a) => {
            crate::endian::lemma_ints_ok::<i64>(a@);
        },
        Value::U64_3(a) => {
            crate::endian::lemma_ints_ok::<u64>(a@);
        },
        Value::Float3(a) => {
            crate::endian::lemma_ints_ok::<u32>(a@);
        },
        Value::Double3(a) => {
            crate::endian::lemma_ints_ok::<u64>(a@);
        },
        Value::S8_4(a) => {
            crate::endian::lemma_ints_ok::<i8>(a@);
        },
        Value::U8_4(a) => {
            crate::endian::lemma_ints_ok::<u8>(a@);
        },
        Value::S16_4(a) => {
            crate::endian::lemma_ints_ok::<i16>(a@);
        },
        Value::U16_4(a) => {
            crate::endian::lemma_ints_ok::<u16>(a@);
        },
        Value::S32_4(a) => {
            crate::endian::lemma_ints_ok::<i32>(a@);
        },
        Value::U32_4(a) => {
            crate::endian::lemma_ints_ok::<u32>(a@);
        },
        Value::S64_4(a) => {
            crate::endian::lemma_ints_ok::<i64>(a@);
        },
        Value::U64_4(a) => {
            crate::endian::lemma_ints_ok::<u64>(a@);
        },
        Value::Float4(a) => {
            crate::endian::lemma_ints_ok::<u32>(a@);
        },
        Value::Double4(a) => {
            crate::endian::lemma_ints_ok::<u64>(a@);
        },
        Value::Vs8(a) => {
            crate::endian::lemma_ints_ok::<i8>(a@);
        },
        Value::Vu8(a) => {
            crate::endian::lemma_ints_ok::<u8>(a@);
        },
        Value::Vs16(a) => {
            crate::endian::lemma_ints_ok::<i16>(a@);
        },
        Value::Vu16(a) => {
            crate::endian::lemma_ints_ok::<u16>(a@);
        },
        Value::Boolean(n) => {
            crate::endian::lemma_ints_ok::<bool>(seq![*n]);
        },
        Value::Boolean2(a) => {
            crate::endian::lemma_ints_ok::<bool>(a@);
        },
        Value::Boolean3(a) => {
            crate::endian::lemma_ints_ok::<bool>(a@);
        },
        Value::Boolean4(a) => {
            crate::endian::lemma_ints_ok::<bool>(a@);
        },
        Value::Vb(a) => {
            crate::endian::lemma_ints_ok::<bool>(a@);
        },
        _ => {},
    }
}

/// The bytes of the single-byte elements 0 and 1 are 0 and 1.
pub proof fn lemma_bool_bytes(es: Seq<int>)
    requires
        elems_ok(ElementKind::Bool, 1, es),
    ensures
        all_bools(elems_bytes(1, es)),
        elems_bytes(1, es).len() == es.len(),
    decreases es.len(),
{
    crate::endian::lemma_elems_bytes_len(1, es);
    if es.len() > 0 {
        lemma_bool_bytes(es.drop_last());
        let e = es.last();
        assert(elem_ok(ElementKind::Bool, 1, e));
        crate::endian::lemma_bounds();
        reveal_with_fuel(crate::endian::be_bytes, 2);
        let last = elem_bytes(1, e);
        assert(last.len() == 1 && last[0] <= 1);
        let front = elems_bytes(1, es.drop_last());
        assert forall|i: int| 0 <= i < elems_bytes(1, es).len() implies #[trigger] elems_bytes(
            1,
            es,
        )[i] <= 1 by {
            if i < front.len() {
                assert(elems_bytes(1, es)[i] == front[i]);
            } else {
                assert(elems_bytes(1, es)[i] == last[i - front.len()]);
            }
        }
    }
}

/// A fixed-size value takes as many bytes as its type says: the size of an
/// element times their number.
pub proof fn lemma_fixed_payload_len(v: ValueView, t: StandardType)
    requires
        v.is_fixed_of(t),
    ensures
        v.payload() matches Some(b) && b.len() == t.spec_size() * t.spec_count() && b.len()
            == t.spec_byte_len(),
{
    crate::endian::lemma_elems_bytes_len(t.spec_size() as nat, v->Fixed_1);
    crate::node_types::lemma_byte_len(t);
    assert(t.spec_count() * t.spec_size() == t.spec_size() * t.spec_count()) by (nonlinear_arith);
}

/// A fixed-size value reads back from its bytes.
pub proof fn lemma_fixed_round_trip(v: ValueView, t: StandardType)
    requires
        v.is_fixed_of(t),
    ensures
        v.payload() matches Some(b) && spec_from_bytes(t, false, b) == Ok::<
            Option<ValueView>,
            KbinError,
        >(Some(v)),
{
    let es = v->Fixed_1;
    let kind = t.spec_kind().unwrap();
    lemma_fixed_payload_len(v, t);
    crate::node_types::lemma_byte_len(t);
    crate::endian::lemma_elems_round_trip(kind, t.spec_size() as nat, es);
    if kind == ElementKind::Bool {
        lemma_bool_bytes(es);
    }
}

/// The payloads of `n` values of one fixed-size type are `n` times the bytes
/// of the type, and the bytes of each value stand at its place.
pub proof fn lemma_payloads_fixed(vs: Seq<ValueView>, t: StandardType)
    requires
        forall|i: int| 0 <= i < vs.len() ==> (#[trigger] vs[i]).is_fixed_of(t),
    ensures
        payloads(vs) matches Some(b) && b.len() == vs.len() * t.spec_byte_len() && forall|k: int|
            0 <= k < vs.len() ==> #[trigger] b.subrange(
                k * t.spec_byte_len(),
                k * t.spec_byte_len() + t.spec_byte_len(),
            ) == vs[k].payload().unwrap(),
    decreases vs.len(),
{
    let bl = t.spec_byte_len() as int;
    if vs.len() > 0 {
        let front = vs.drop_last();
        lemma_payloads_fixed(front, t);
        lemma_fixed_payload_len(vs.last(), t);
        let fb = payloads(front).unwrap();
        let lb = vs.last().payload().unwrap();
        let b = payloads(vs).unwrap();
        assert(b == fb + lb);
        assert((vs.len() - 1) * bl + bl == vs.len() * bl) by (nonlinear_arith);
        assert forall|k: int| 0 <= k < vs.len() implies #[trigger] b.subrange(k * bl, k * bl + bl)
            == vs[k].payload().unwrap() by {
            assert(0 <= k * bl && k * bl + bl <= vs.len() * bl) by (nonlinear_arith)
                requires
                    0 <= k < vs.len(),
                    bl >= 0,
            ;
            if k < vs.len() - 1 {
                assert(k * bl + bl <= (vs.len() - 1) * bl) by (nonlinear_arith)
                    requires
                        0 <= k < vs.len() - 1,
                        bl >= 0,
                ;
                assert(b.subrange(k * bl, k * bl + bl) =~= fb.subrange(k * bl, k * bl + bl));
                assert(vs[k] == front[k]);
            } else {
                assert(b.subrange(k * bl, k * bl + bl) =~= lb);
            }
        }
    } else {
        assert(0 * bl == 0) by (nonlinear_arith);
    }
}

/// An array of `n` values of type `t` takes `n * t.size * t.count` bytes,
/// and reads back from them.
pub proof fn lemma_array_round_trip(v: ValueView)
    requires
        v is Array,
        v.wf(),
    ensures
        v.payload() matches Some(b) && b.len() == v->Array_1.len() * (v->Array_0.spec_size()
            * v->Array_0.spec_count()) && spec_from_bytes(v->Array_0, true, b) == Ok::<
            Option<ValueView>,
            KbinError,
        >(Some(v)),
{
    let t = v->Array_0;
    let vs = v->Array_1;
    let bl = t.spec_byte_len() as int;
    lemma_payloads_fixed(vs, t);
    crate::node_types::lemma_byte_len(t);
    let b = payloads(vs).unwrap();
    assert((vs.len() * bl) % bl == 0 && (vs.len() * bl) / bl == vs.len()) by (nonlinear_arith)
        requires
            bl >= 1,
    ;
    if t.spec_kind() == Some(ElementKind::Bool) {
        assert(bl == t.spec_count()) by {
            assert(t.spec_size() == 1);
        }
        assert forall|i: int| 0 <= i < b.len() implies #[trigger] b[i] <= 1 by {
            let k = i / bl;
            assert(0 <= k < vs.len() && k * bl <= i < k * bl + bl && k * bl + bl <= vs.len() * bl)
                by (nonlinear_arith)
                requires
                    0 <= i < vs.len() * bl,
                    bl >= 1,
                    k == i / bl,
            ;
            let chunk = b.subrange(k * bl, k * bl + bl);
            assert(chunk == vs[k].payload().unwrap());
            assert(vs[k].is_fixed_of(t));
            lemma_bool_bytes(vs[k]->Fixed_1);
            assert(chunk[i - k * bl] == b[i]);
        }
        assert(all_bools(b));
    }
    let back = array_view(t, b)->Array_1;
    assert forall|k: int| 0 <= k < vs.len() implies back[k] == vs[k] by {
        assert(0 <= k * bl && k * bl + bl <= vs.len() * bl) by (nonlinear_arith)
            requires
                0 <= k < vs.len(),
                bl >= 1,
        ;
        let chunk = b.subrange(k * bl, k * bl + bl);
        assert(chunk == vs[k].payload().unwrap());
        assert(vs[k].is_fixed_of(t));
        lemma_fixed_round_trip(vs[k], t);
    }
    assert(back =~= vs);
}

/// The view of a value has the value's type, and is an array exactly when
/// the value is one.
pub proof fn lemma_view_type(v: &Value)
    ensures
        v@.standard_type() == v.spec_standard_type(),
        v@ is Array <==> v is Array,
        v@ is Fixed <==> v.spec_standard_type().is_fixed() && !(v is Array),
{
    match v {
        Value::S8(_) => {},
        Value::U8(_) => {},
        Value::S16(_) => {},
        Value::U16(_) => {},
        Value::S32(_) => {},
        Value::U32(_) => {},
        Value::S64(_) => {},
        Value::U64(_) => {},
        Value::Ip4(_) => {},
        Value::Time(_) => {},
        Value::Float(_) => {},
        Value::Double(_) => {},
        Value::S8_2(_) => {},
        Value::U8_2(_) => {},
        Value::S16_2(_) => {},
        Value::U16_2(_) => {},
        Value::S32_2(_) => {},
        Value::U32_2(_) => {},
        Value::S64_2(_) => {},
        Value::U64_2(_) => {},
        Value::Float2(_) => {},
        Value::Double2(_) => {},
        Value::S8_3(_) => {},
        Value::U8_3(_) => {},
        Value::S16_3(_) => {},
        Value::U16_3(_) => {},
        Value::S32_3(_) => {},
        Value::U32_3(_) => {},
        Value::S64_3(_) => {},
        Value::U64_3(_) => {},
        Value::Float3(_) => {},
        Value::Double3(_) => {},
        Value::S8_4(_) => {},
        Value::U8_4(_) => {},
        Value::S16_4(_) => {},
        Value::U16_4(_) => {},
        Value::S32_4(_) => {},
        Value::U32_4(_) => {},
        Value::S64_4(_) => {},
        Value::U64_4(_) => {},
        Value::Float4(_) => {},
        Value::Double4(_) => {},
        Value::Vs8(_) => {},
        Value::Vu8(_) => {},
        Value::Vs16(_) => {},
        Value::Vu16(_) => {},
        Value::Boolean(_) => {},
        Value::Boolean2(_) => {},
        Value::Boolean3(_) => {},
        Value::Boolean4(_) => {},
        Value::Vb(_) => {},
        _ => {},
    }
}

/// Copies of the values, in their order.
fn clone_values(values: &Vec<Value>) -> (r: Vec<Value>)
    ensures
        r@.len() == values@.len(),
        forall|j: int| 0 <= j < r@.len() ==> (#[trigger] r@[j])@ == values@[j]@,
    decreases values,
{
    let mut out: Vec<Value> = Vec::new();
    let mut i: usize = 0;
    while i < values.len()
        invariant
            i <= values@.len(),
            out@.len() == i,
            forall|j: int| 0 <= j < i ==> (#[trigger] out@[j])@ == values@[j]@,
        decreases values@.len() - i,
    {
        out.push(values[i].clone());
        i += 1;
    }
    out
}

impl Value {
    /// A copy of the value.
    pub fn clone(&self) -> (r: Value)
        ensures
            r@ == self@,
        decreases self,
    {
        match self {
            Value::Binary(data) => Value::Binary(data.clone()),
            Value::String(s) => Value::String(s.clone()),
            Value::Attribute(s) => Value::Attribute(s.clone()),
            Value::Node(node) => {
                let inner: &Node = &**node;
                Value::Node(Box::new(inner.clone()))
            },
            Value::Array(t, values) => {
                let r = Value::Array(*t, clone_values(values));
                assert(r@->Array_1 =~= self@->Array_1);
                r
            },
            _ => {
                proof {
                    lemma_view_type(self);
                    lemma_fixed_wf(self);
                    lemma_fixed_round_trip(self@, self.spec_standard_type());
                }
                match self.to_bytes() {
                    Ok(bytes) => match Value::from_standard_type(
                        self.standard_type(),
                        false,
                        bytes.as_slice(),
                    ) {
                        Ok(Some(v)) => v,
                        _ => Value::Binary(bytes),
                    },
                    Err(_) => Value::Binary(Vec::new()),
                }
            },
        }
    }
}

} // verus!

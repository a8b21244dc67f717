//! Arrays of values held as vectors of the type's own elements.
use vstd::prelude::*;
use crate::endian::{all_bools, elems_bytes, first_bad_bool, get_elems, ints, put_elems, Element};
use crate::error::KbinError;
use crate::node_types::{lemma_byte_len, ElementKind, StandardType};
use crate::value::{
    array_view, bad_bool_byte, fixed_view, lemma_first_bad_bool, payloads, spec_from_bytes, Value,
    ValueView,
};

verus! {

/// An array of values of one fixed-size type, held as a vector of the
/// type's own elements.
#[allow(non_camel_case_types)]
#[derive(Clone, Debug, PartialEq)]
pub enum ValueArray {
    S8(Vec<i8>),
    U8(Vec<u8>),
    S16(Vec<i16>),
    U16(Vec<u16>),
    S32(Vec<i32>),
    U32(Vec<u32>),
    S64(Vec<i64>),
    U64(Vec<u64>),
    Ip4(Vec<[u8; 4]>),
    Float(Vec<u32>),
    Double(Vec<u64>),
    S8_2(Vec<[i8; 2]>),
    U8_2(Vec<[u8; 2]>),
    S16_2(Vec<[i16; 2]>),
    U16_2(Vec<[u16; 2]>),
    S32_2(Vec<[i32; 2]>),
    U32_2(Vec<[u32; 2]>),
    S64_2(Vec<[i64; 2]>),
    U64_2(Vec<[u64; 2]>),
    Float2(Vec<[u32; 2]>),
    Double2(Vec<[u64; 2]>),
    S8_3(Vec<[i8; 3]>),
    U8_3(Vec<[u8; 3]>),
    S16_3(Vec<[i16; 3]>),
    U16_3(Vec<[u16; 3]>),
    S32_3(Vec<[i32; 3]>),
    U32_3(Vec<[u32; 3]>),
    S64_3(Vec<[i64; 3]>),
    U64_3(Vec<[u64; 3]>),
    Float3(Vec<[u32; 3]>),
    Double3(Vec<[u64; 3]>),
    S8_4(Vec<[i8; 4]>),
    U8_4(Vec<[u8; 4]>),
    S16_4(Vec<[i16; 4]>),
    U16_4(Vec<[u16; 4]>),
    S32_4(Vec<[i32; 4]>),
    U32_4(Vec<[u32; 4]>),
    S64_4(Vec<[i64; 4]>),
    U64_4(Vec<[u64; 4]>),
    Float4(Vec<[u32; 4]>),
    Double4(Vec<[u64; 4]>),
    Vs8(Vec<[i8; 16]>),
    Vu8(Vec<[u8; 16]>),
    Vs16(Vec<[i16; 8]>),
    Vu16(Vec<[u16; 8]>),
    Boolean(Vec<bool>),
    Boolean2(Vec<[bool; 2]>),
    Boolean3(Vec<[bool; 3]>),
    Boolean4(Vec<[bool; 4]>),
    Vb(Vec<[bool; 16]>),
}

/// The values of a vector of single elements.
pub open spec fn scalar_items<T: Element>(t: StandardType, s: Seq<T>) -> Seq<ValueView> {
    Seq::new(s.len(), |i: int| ValueView::Fixed(t, ints(seq![s[i]])))
}

/// The values of a vector of groups of elements.
pub open spec fn vector_items<T: Element, const N: usize>(t: StandardType, s: Seq<[T; N]>) -> Seq<
    ValueView,
> {
    Seq::new(s.len(), |i: int| ValueView::Fixed(t, ints(s[i]@)))
}

/// The type holds `n` elements of the kind and width of `T`.
pub open spec fn type_of<T: Element>(t: StandardType, n: nat) -> bool {
    t.spec_kind() == Some(T::kind()) && t.spec_size() == T::width() && t.spec_count() == n
}

impl View for ValueArray {
    type V = ValueView;

    /// The array as a value: an array of fixed-size values of its type.
    open spec fn view(&self) -> ValueView {
        match self {
            ValueArray::S8(a) => ValueView::Array(
                StandardType::S8,
                scalar_items(StandardType::S8, a@),
            ),
            ValueArray::U8(a) => ValueView::Array(
                StandardType::U8,
                scalar_items(StandardType::U8, a@),
            ),
            ValueArray::S16(a) => ValueView::Array(
                StandardType::S16,
                scalar_items(StandardType::S16, a@),
            ),
            ValueArray::U16(a) => ValueView::Array(
                StandardType::U16,
                scalar_items(StandardType::U16, a@),
            ),
            ValueArray::S32(a) => ValueView::Array(
                StandardType::S32,
                scalar_items(StandardType::S32, a@),
            ),
            ValueArray::U32(a) => ValueView::Array(
                StandardType::U32,
                scalar_items(StandardType::U32, a@),
            ),
            ValueArray::S64(a) => ValueView::Array(
                StandardType::S64,
                scalar_items(StandardType::S64, a@),
            ),
            ValueArray::U64(a) => ValueView::Array(
                StandardType::U64,
                scalar_items(StandardType::U64, a@),
            ),
            ValueArray::Ip4(a) => ValueView::Array(
                StandardType::Ip4,
                vector_items(StandardType::Ip4, a@),
            ),
            ValueArray::Float(a) => ValueView::Array(
                StandardType::Float,
                scalar_items(StandardType::Float, a@),
            ),
            ValueArray::Double(a) => ValueView::Array(
                StandardType::Double,
                scalar_items(StandardType::Double, a@),
            ),
            ValueArray::S8_2(a) => ValueView::Array(
                StandardType::S8_2,
                vector_items(StandardType::S8_2, a@),
            ),
            ValueArray::U8_2(a) => ValueView::Array(
                StandardType::U8_2,
                vector_items(StandardType::U8_2, a@),
            ),
            ValueArray::S16_2(a) => ValueView::Array(
                StandardType::S16_2,
                vector_items(StandardType::S16_2, a@),
            ),
            ValueArray::U16_2(a) => ValueView::Array(
                StandardType::U16_2,
                vector_items(StandardType::U16_2, a@),
            ),
            ValueArray::S32_2(a) => ValueView::Array(
                StandardType::S32_2,
                vector_items(StandardType::S32_2, a@),
            ),
            ValueArray::U32_2(a) => ValueView::Array(
                StandardType::U32_2,
                vector_items(StandardType::U32_2, a@),
            ),
            ValueArray::S64_2(a) => ValueView::Array(
                StandardType::S64_2,
                vector_items(StandardType::S64_2, a@),
            ),
            ValueArray::U64_2(a) => ValueView::Array(
                StandardType::U64_2,
                vector_items(StandardType::U64_2, a@),
            ),
            ValueArray::Float2(a) => ValueView::Array(
                StandardType::Float2,
                vector_items(StandardType::Float2, a@),
            ),
            ValueArray::Double2(a) => ValueView::Array(
                StandardType::Double2,
                vector_items(StandardType::Double2, a@),
            ),
            ValueArray::S8_3(a) => ValueView::Array(
                StandardType::S8_3,
                vector_items(StandardType::S8_3, a@),
            ),
            ValueArray::U8_3(a) => ValueView::Array(
                StandardType::U8_3,
                vector_items(StandardType::U8_3, a@),
            ),
            ValueArray::S16_3(a) => ValueView::Array(
                StandardType::S16_3,
                vector_items(StandardType::S16_3, a@),
            ),
            ValueArray::U16_3(a) => ValueView::Array(
                StandardType::U16_3,
                vector_items(StandardType::U16_3, a@),
            ),
            ValueArray::S32_3(a) => ValueView::Array(
                StandardType::S32_3,
                vector_items(StandardType::S32_3, a@),
            ),
            ValueArray::U32_3(a) => ValueView::Array(
                StandardType::U32_3,
                vector_items(StandardType::U32_3, a@),
            ),
            ValueArray::S64_3(a) => ValueView::Array(
                StandardType::S64_3,
                vector_items(StandardType::S64_3, a@),
            ),
            ValueArray::U64_3(a) => ValueView::Array(
                StandardType::U64_3,
                vector_items(StandardType::U64_3, a@),
            ),
            ValueArray::Float3(a) => ValueView::Array(
                StandardType::Float3,
                vector_items(StandardType::Float3, a@),
            ),
            ValueArray::Double3(a) => ValueView::Array(
                StandardType::Double3,
                vector_items(StandardType::Double3, a@),
            ),
            ValueArray::S8_4(a) => ValueView::Array(
                StandardType::S8_4,
                vector_items(StandardType::S8_4, a@),
            ),
            ValueArray::U8_4(a) => ValueView::Array(
                StandardType::U8_4,
                vector_items(StandardType::U8_4, a@),
            ),
            ValueArray::S16_4(a) => ValueView::Array(
                StandardType::S16_4,
                vector_items(StandardType::S16_4, a@),
            ),
            ValueArray::U16_4(a) => ValueView::Array(
                StandardType::U16_4,
                vector_items(StandardType::U16_4, a@),
            ),
            ValueArray::S32_4(a) => ValueView::Array(
                StandardType::S32_4,
                vector_items(StandardType::S32_4, a@),
            ),
            ValueArray::U32_4(a) => ValueView::Array(
                StandardType::U32_4,
                vector_items(StandardType::U32_4, a@),
            ),
            ValueArray::S64_4(a) => ValueView::Array(
                StandardType::S64_4,
                vector_items(StandardType::S64_4, a@),
            ),
            ValueArray::U64_4(a) => ValueView::Array(
                StandardType::U64_4,
                vector_items(StandardType::U64_4, a@),
            ),
            ValueArray::Float4(a) => ValueView::Array(
                StandardType::Float4,
                vector_items(StandardType::Float4, a@),
            ),
            ValueArray::Double4(a) => ValueView::Array(
                StandardType::Double4,
                vector_items(StandardType::Double4, a@),
            ),
            ValueArray::Vs8(a) => ValueView::Array(
                StandardType::Vs8,
                vector_items(StandardType::Vs8, a@),
            ),
            ValueArray::Vu8(a) => ValueView::Array(
                StandardType::Vu8,
                vector_items(StandardType::Vu8, a@),
            ),
            ValueArray::Vs16(a) => ValueView::Array(
                StandardType::Vs16,
                vector_items(StandardType::Vs16, a@),
            ),
            ValueArray::Vu16(a) => ValueView::Array(
                StandardType::Vu16,
                vector_items(StandardType::Vu16, a@),
            ),
            ValueArray::Boolean(a) => ValueView::Array(
                StandardType::Boolean,
                scalar_items(StandardType::Boolean, a@),
            ),
            ValueArray::Boolean2(a) => ValueView::Array(
                StandardType::Boolean2,
                vector_items(StandardType::Boolean2, a@),
            ),
            ValueArray::Boolean3(a) => ValueView::Array(
                StandardType::Boolean3,
                vector_items(StandardType::Boolean3, a@),
            ),
            ValueArray::Boolean4(a) => ValueView::Array(
                StandardType::Boolean4,
                vector_items(StandardType::Boolean4, a@),
            ),
            ValueArray::Vb(a) => ValueView::Array(
                StandardType::Vb,
                vector_items(StandardType::Vb, a@),
            ),
        }
    }
}

/// Appends the bytes of the values of a vector of single elements.
fn put_scalars<T: Element>(out: &mut Vec<u8>, t: StandardType, items: &Vec<T>)
    requires
        type_of::<T>(t, 1),
    ensures
        payloads(scalar_items(t, items@)) == Some(final(out)@.skip(old(out)@.len() as int)),
        final(out)@.take(old(out)@.len() as int) == old(out)@,
        final(out)@.len() >= old(out)@.len(),
{
    let ghost vs = scalar_items(t, items@);
    let mut k: usize = 0;
    proof {
        assert(vs.take(0) =~= Seq::<ValueView>::empty());
        assert(out@.skip(out@.len() as int) =~= Seq::<u8>::empty());
    }
    while k < items.len()
        invariant
            k <= items@.len(),
            type_of::<T>(t, 1),
            vs == scalar_items(t, items@),
            out@.len() >= old(out)@.len(),
            out@.take(old(out)@.len() as int) == old(out)@,
            payloads(vs.take(k as int)) == Some(out@.skip(old(out)@.len() as int)),
        decreases items@.len() - k,
    {
        let ghost before = out@;
        let x = items[k];
        let one = [x];
        put_elems(out, one.as_slice());
        proof {
            assert(one@ =~= seq![x]);
            assert(vs.take(k + 1).drop_last() =~= vs.take(k as int));
            assert(vs.take(k + 1).last() == vs[k as int]);
            assert(vs[k as int] == ValueView::Fixed(t, ints(seq![x])));
            assert(vs[k as int].payload() == Some(elems_bytes(T::width(), ints(seq![x]))));
            assert(payloads(vs.take(k + 1)) == Some(
                before.skip(old(out)@.len() as int) + elems_bytes(T::width(), ints(seq![x])),
            ));
            assert(out@.skip(old(out)@.len() as int) =~= before.skip(old(out)@.len() as int)
                + elems_bytes(T::width(), ints(seq![x])));
            assert(out@.take(old(out)@.len() as int) =~= before.take(old(out)@.len() as int));
        }
        k += 1;
    }
    assert(vs.take(k as int) =~= vs);
}

/// Appends the bytes of the values of a vector of groups of elements.
fn put_vectors<T: Element, const N: usize>(out: &mut Vec<u8>, t: StandardType, items: &Vec<[T; N]>)
    requires
        type_of::<T>(t, N as nat),
    ensures
        payloads(vector_items(t, items@)) == Some(final(out)@.skip(old(out)@.len() as int)),
        final(out)@.take(old(out)@.len() as int) == old(out)@,
        final(out)@.len() >= old(out)@.len(),
{
    let ghost vs = vector_items(t, items@);
    let mut k: usize = 0;
    proof {
        assert(vs.take(0) =~= Seq::<ValueView>::empty());
        assert(out@.skip(out@.len() as int) =~= Seq::<u8>::empty());
    }
    while k < items.len()
        invariant
            k <= items@.len(),
            type_of::<T>(t, N as nat),
            vs == vector_items(t, items@),
            out@.len() >= old(out)@.len(),
            out@.take(old(out)@.len() as int) == old(out)@,
            payloads(vs.take(k as int)) == Some(out@.skip(old(out)@.len() as int)),
        decreases items@.len() - k,
    {
        let ghost before = out@;
        put_elems(out, items[k].as_slice());
        proof {
            assert(vs.take(k + 1).drop_last() =~= vs.take(k as int));
            assert(vs.take(k + 1).last() == vs[k as int]);
            assert(vs[k as int] == ValueView::Fixed(t, ints(items@[k as int]@)));
            assert(vs[k as int].payload() == Some(
                elems_bytes(T::width(), ints(items@[k as int]@)),
            ));
            assert(payloads(vs.take(k + 1)) == Some(
                before.skip(old(out)@.len() as int) + elems_bytes(
                    T::width(),
                    ints(items@[k as int]@),
                ),
            ));
            assert(out@.skip(old(out)@.len() as int) =~= before.skip(old(out)@.len() as int)
                + elems_bytes(T::width(), ints(items@[k as int]@)));
            assert(out@.take(old(out)@.len() as int) =~= before.take(old(out)@.len() as int));
        }
        k += 1;
    }
    assert(vs.take(k as int) =~= vs);
}

/// Reads groups of `N` elements from bytes that hold a whole number of
/// groups.
fn get_vectors<T: Element, const N: usize>(t: StandardType, input: &[u8], zero: T) -> (r: Result<
    Vec<[T; N]>,
    KbinError,
>)
    requires
        type_of::<T>(t, N as nat),
        t.is_fixed(),
        input@.len() % (t.spec_byte_len() as nat) == 0,
    ensures
        r is Ok <==> (T::kind() == ElementKind::Bool ==> all_bools(input@)),
        r matches Ok(v) ==> vector_items(t, v@) == array_view(t, input@)->Array_1,
        r matches Err(e) ==> e == KbinError::InvalidBoolean(bad_bool_byte(input@)),
{
    let node_size = t.byte_len();
    let len = input.len();
    proof {
        lemma_byte_len(t);
        T::lemma_width();
        assert(t.spec_byte_len() == N * T::width()) by {
            assert(t.spec_size() * t.spec_count() == t.spec_count() * t.spec_size())
                by (nonlinear_arith);
        }
    }
    let count = len / node_size;
    let mut values: Vec<[T; N]> = Vec::new();
    let mut k: usize = 0;
    let mut pos: usize = 0;
    while k < count
        invariant
            k <= count,
            pos == k * node_size,
            type_of::<T>(t, N as nat),
            t.is_fixed(),
            node_size == t.spec_byte_len(),
            node_size == N * T::width(),
            1 <= node_size <= 32,
            len == input@.len(),
            count == len / node_size,
            len % node_size == 0,
            values@.len() == k,
            forall|i: int|
                0 <= i < k ==> ValueView::Fixed(t, ints((#[trigger] values@[i])@)) == fixed_view(
                    t,
                    input@.subrange(i * node_size, i * node_size + node_size),
                ),
            T::kind() == ElementKind::Bool ==> forall|i: int|
                0 <= i < pos ==> #[trigger] input@[i] <= 1,
        decreases count - k,
    {
        assert(pos + node_size <= len) by (nonlinear_arith)
            requires
                pos == k * node_size,
                k < count,
                count == len / node_size,
                node_size >= 1,
        ;
        let chunk = vstd::slice::slice_subrange(input, pos, pos + node_size);
        match get_elems::<T, N>(chunk, zero) {
            Ok(a) => {
                values.push(a);
            },
            Err(e) => {
                proof {
                    let j = choose|j: int|
                        first_bad_bool(chunk@, j) && e == KbinError::InvalidBoolean(chunk@[j]);
                    assert(first_bad_bool(input@, pos + j)) by {
                        assert(input@[pos + j] == chunk@[j]);
                        assert forall|i: int| 0 <= i < pos + j implies #[trigger] input@[i]
                            <= 1 by {
                            if i >= pos {
                                assert(input@[i] == chunk@[i - pos]);
                            }
                        }
                    }
                    lemma_first_bad_bool(input@, pos + j);
                }
                return Err(e);
            },
        }
        proof {
            assert((k + 1) * node_size == pos + node_size) by (nonlinear_arith)
                requires
                    pos == k * node_size,
            ;
            if T::kind() == ElementKind::Bool {
                assert forall|i: int| 0 <= i < pos + node_size implies #[trigger] input@[i]
                    <= 1 by {
                    if i >= pos {
                        assert(input@[i] == chunk@[i - pos]);
                    }
                }
            }
        }
        k += 1;
        pos += node_size;
    }
    proof {
        assert(count * node_size == len) by (nonlinear_arith)
            requires
                count == len / node_size,
                len % node_size == 0,
                node_size >= 1,
        ;
        if T::kind() == ElementKind::Bool {
            assert(all_bools(input@));
        }
        let s = vector_items(t, values@);
        let b = array_view(t, input@)->Array_1;
        assert(s.len() == b.len());
        assert forall|i: int| 0 <= i < s.len() implies s[i] == b[i] by {
            assert(0 <= i * node_size && i * node_size + node_size <= len) by (nonlinear_arith)
                requires
                    0 <= i < count,
                    count * node_size == len,
                    node_size >= 1,
            ;
            assert(ValueView::Fixed(t, ints(values@[i]@)) == fixed_view(
                t,
                input@.subrange(i * node_size, i * node_size + node_size),
            ));
        }
        assert(s =~= b);
    }
    Ok(values)
}

/// The single elements of groups of one.
fn firsts<T: Element>(t: StandardType, groups: Vec<[T; 1]>) -> (r: Vec<T>)
    ensures
        scalar_items(t, r@) == vector_items(t, groups@),
{
    let mut out: Vec<T> = Vec::new();
    let mut k: usize = 0;
    while k < groups.len()
        invariant
            k <= groups@.len(),
            out@.len() == k,
            forall|i: int| 0 <= i < k ==> #[trigger] out@[i] == groups@[i]@[0],
        decreases groups@.len() - k,
    {
        out.push(groups[k][0]);
        k += 1;
    }
    proof {
        let a = scalar_items(t, out@);
        let b = vector_items(t, groups@);
        assert forall|i: int| 0 <= i < a.len() implies a[i] == b[i] by {
            assert(seq![out@[i]] =~= groups@[i]@);
        }
        assert(a =~= b);
    }
    out
}

impl ValueArray {
    /// The type of the items.
    pub open spec fn spec_standard_type(&self) -> StandardType {
        match self {
            ValueArray::S8(_) => StandardType::S8,
            ValueArray::U8(_) => StandardType::U8,
            ValueArray::S16(_) => StandardType::S16,
            ValueArray::U16(_) => StandardType::U16,
            ValueArray::S32(_) => StandardType::S32,
            ValueArray::U32(_) => StandardType::U32,
            ValueArray::S64(_) => StandardType::S64,
            ValueArray::U64(_) => StandardType::U64,
            ValueArray::Ip4(_) => StandardType::Ip4,
            ValueArray::Float(_) => StandardType::Float,
            ValueArray::Double(_) => StandardType::Double,
            ValueArray::S8_2(_) => StandardType::S8_2,
            ValueArray::U8_2(_) => StandardType::U8_2,
            ValueArray::S16_2(_) => StandardType::S16_2,
            ValueArray::U16_2(_) => StandardType::U16_2,
            ValueArray::S32_2(_) => StandardType::S32_2,
            ValueArray::U32_2(_) => StandardType::U32_2,
            ValueArray::S64_2(_) => StandardType::S64_2,
            ValueArray::U64_2(_) => StandardType::U64_2,
            ValueArray::Float2(_) => StandardType::Float2,
            ValueArray::Double2(_) => StandardType::Double2,
            ValueArray::S8_3(_) => StandardType::S8_3,
            ValueArray::U8_3(_) => StandardType::U8_3,
            ValueArray::S16_3(_) => StandardType::S16_3,
            ValueArray::U16_3(_) => StandardType::U16_3,
            ValueArray::S32_3(_) => StandardType::S32_3,
            ValueArray::U32_3(_) => StandardType::U32_3,
            ValueArray::S64_3(_) => StandardType::S64_3,
            ValueArray::U64_3(_) => StandardType::U64_3,
            ValueArray::Float3(_) => StandardType::Float3,
            ValueArray::Double3(_) => StandardType::Double3,
            ValueArray::S8_4(_) => StandardType::S8_4,
            ValueArray::U8_4(_) => StandardType::U8_4,
            ValueArray::S16_4(_) => StandardType::S16_4,
            ValueArray::U16_4(_) => StandardType::U16_4,
            ValueArray::S32_4(_) => StandardType::S32_4,
            ValueArray::U32_4(_) => StandardType::U32_4,
            ValueArray::S64_4(_) => StandardType::S64_4,
            ValueArray::U64_4(_) => StandardType::U64_4,
            ValueArray::Float4(_) => StandardType::Float4,
            ValueArray::Double4(_) => StandardType::Double4,
            ValueArray::Vs8(_) => StandardType::Vs8,
            ValueArray::Vu8(_) => StandardType::Vu8,
            ValueArray::Vs16(_) => StandardType::Vs16,
            ValueArray::Vu16(_) => StandardType::Vu16,
            ValueArray::Boolean(_) => StandardType::Boolean,
            ValueArray::Boolean2(_) => StandardType::Boolean2,
            ValueArray::Boolean3(_) => StandardType::Boolean3,
            ValueArray::Boolean4(_) => StandardType::Boolean4,
            ValueArray::Vb(_) => StandardType::Vb,
        }
    }

    #[verifier::when_used_as_spec(spec_standard_type)]
    pub fn standard_type(&self) -> (r: StandardType)
        ensures
            r == self.spec_standard_type(),
            self@ matches ValueView::Array(t, _) && t == r,
    {
        match self {
            ValueArray::S8(_) => StandardType::S8,
            ValueArray::U8(_) => StandardType::U8,
            ValueArray::S16(_) => StandardType::S16,
            ValueArray::U16(_) => StandardType::U16,
            ValueArray::S32(_) => StandardType::S32,
            ValueArray::U32(_) => StandardType::U32,
            ValueArray::S64(_) => StandardType::S64,
            ValueArray::U64(_) => StandardType::U64,
            ValueArray::Ip4(_) => StandardType::Ip4,
            ValueArray::Float(_) => StandardType::Float,
            ValueArray::Double(_) => StandardType::Double,
            ValueArray::S8_2(_) => StandardType::S8_2,
            ValueArray::U8_2(_) => StandardType::U8_2,
            ValueArray::S16_2(_) => StandardType::S16_2,
            ValueArray::U16_2(_) => StandardType::U16_2,
            ValueArray::S32_2(_) => StandardType::S32_2,
            ValueArray::U32_2(_) => StandardType::U32_2,
            ValueArray::S64_2(_) => StandardType::S64_2,
            ValueArray::U64_2(_) => StandardType::U64_2,
            ValueArray::Float2(_) => StandardType::Float2,
            ValueArray::Double2(_) => StandardType::Double2,
            ValueArray::S8_3(_) => StandardType::S8_3,
            ValueArray::U8_3(_) => StandardType::U8_3,
            ValueArray::S16_3(_) => StandardType::S16_3,
            ValueArray::U16_3(_) => StandardType::U16_3,
            ValueArray::S32_3(_) => StandardType::S32_3,
            ValueArray::U32_3(_) => StandardType::U32_3,
            ValueArray::S64_3(_) => StandardType::S64_3,
            ValueArray::U64_3(_) => StandardType::U64_3,
            ValueArray::Float3(_) => StandardType::Float3,
            ValueArray::Double3(_) => StandardType::Double3,
            ValueArray::S8_4(_) => StandardType::S8_4,
            ValueArray::U8_4(_) => StandardType::U8_4,
            ValueArray::S16_4(_) => StandardType::S16_4,
            ValueArray::U16_4(_) => StandardType::U16_4,
            ValueArray::S32_4(_) => StandardType::S32_4,
            ValueArray::U32_4(_) => StandardType::U32_4,
            ValueArray::S64_4(_) => StandardType::S64_4,
            ValueArray::U64_4(_) => StandardType::U64_4,
            ValueArray::Float4(_) => StandardType::Float4,
            ValueArray::Double4(_) => StandardType::Double4,
            ValueArray::Vs8(_) => StandardType::Vs8,
            ValueArray::Vu8(_) => StandardType::Vu8,
            ValueArray::Vs16(_) => StandardType::Vs16,
            ValueArray::Vu16(_) => StandardType::Vu16,
            ValueArray::Boolean(_) => StandardType::Boolean,
            ValueArray::Boolean2(_) => StandardType::Boolean2,
            ValueArray::Boolean3(_) => StandardType::Boolean3,
            ValueArray::Boolean4(_) => StandardType::Boolean4,
            ValueArray::Vb(_) => StandardType::Vb,
        }
    }

    /// Reads the array that the bytes of a payload hold. The types without
    /// fixed size, and the time stamp, have no array of this kind.
    pub fn from_standard_type(node_type: StandardType, input: &[u8]) -> (r: Result<
        Option<ValueArray>,
        KbinError,
    >)
        ensures
            if !node_type.is_fixed() || node_type == StandardType::Time {
                r matches Ok(None)
            } else {
                match spec_from_bytes(node_type, true, input@) {
                    Ok(v) => r matches Ok(Some(x)) && Some(x@) == v,
                    Err(e) => r matches Err(f) && f == e,
                }
            },
    {
        if node_type.kind().is_none() {
            return Ok(None);
        }
        let node_size = node_type.byte_len();
        proof {
            lemma_byte_len(node_type);
        }
        match node_type {
            StandardType::Time => {
                return Ok(None);
            },
            _ => {},
        }
        // Incomplete values at the end are refused.
        if input.len() % node_size != 0 {
            return Err(
                KbinError::SizeMismatch {
                    node_type,
                    expected: node_size,
                    found: input.len(),
                },
            );
        }
        Self::read_items(node_type, input)
    }

    /// Reads the items of an array from bytes that hold a whole number of
    /// them.
    #[verifier::rlimit(60)]
    #[verifier::spinoff_prover]
    fn read_items(node_type: StandardType, input: &[u8]) -> (r: Result<Option<ValueArray>, KbinError>)
        requires
            node_type.is_fixed(),
            node_type != StandardType::Time,
            input@.len() % (node_type.spec_byte_len() as nat) == 0,
        ensures
            r is Ok <==> (node_type.spec_kind() == Some(ElementKind::Bool) ==> all_bools(input@)),
            r matches Ok(x) ==> x matches Some(a) && a@ == array_view(node_type, input@),
            r matches Err(e) ==> e == KbinError::InvalidBoolean(bad_bool_byte(input@)),
    {
        match node_type {
            StandardType::S8 => match get_vectors::<i8, 1>(node_type, input, 0) {
                Ok(a) => Ok(Some(ValueArray::S8(firsts(node_type, a)))),
                Err(e) => Err(e),
            },
            StandardType::U8 => match get_vectors::<u8, 1>(node_type, input, 0) {
                Ok(a) => Ok(Some(ValueArray::U8(firsts(node_type, a)))),
                Err(e) => Err(e),
            },
            StandardType::S16 => match get_vectors::<i16, 1>(node_type, input, 0) {
                Ok(a) => Ok(Some(ValueArray::S16(firsts(node_type, a)))),
                Err(e) => Err(e),
            },
            StandardType::U16 => match get_vectors::<u16, 1>(node_type, input, 0) {
                Ok(a) => Ok(Some(ValueArray::U16(firsts(node_type, a)))),
                Err(e) => Err(e),
            },
            StandardType::S32 => match get_vectors::<i32, 1>(node_type, input, 0) {
                Ok(a) => Ok(Some(ValueArray::S32(firsts(node_type, a)))),
                Err(e) => Err(e),
            },
            StandardType::U32 => match get_vectors::<u32, 1>(node_type, input, 0) {
                Ok(a) => Ok(Some(ValueArray::U32(firsts(node_type, a)))),
                Err(e) => Err(e),
            },
            StandardType::S64 => match get_vectors::<i64, 1>(node_type, input, 0) {
                Ok(a) => Ok(Some(ValueArray::S64(firsts(node_type, a)))),
                Err(e) => Err(e),
            },
            StandardType::U64 => match get_vectors::<u64, 1>(node_type, input, 0) {
                Ok(a) => Ok(Some(ValueArray::U64(firsts(node_type, a)))),
                Err(e) => Err(e),
            },
            StandardType::Ip4 => match get_vectors::<u8, 4>(node_type, input, 0) {
                Ok(a) => Ok(Some(ValueArray::Ip4(a))),
                Err(e) => Err(e),
            },
            StandardType::Float => match get_vectors::<u32, 1>(node_type, input, 0) {
                Ok(a) => Ok(Some(ValueArray::Float(firsts(node_type, a)))),
                Err(e) => Err(e),
            },
            StandardType::Double => match get_vectors::<u64, 1>(node_type, input, 0) {
                Ok(a) => Ok(Some(ValueArray::Double(firsts(node_type, a)))),
                Err(e) => Err(e),
            },
            StandardType::S8_2 => match get_vectors::<i8, 2>(node_type, input, 0) {
                Ok(a) => Ok(Some(ValueArray::S8_2(a))),
                Err(e) => Err(e),
            },
            StandardType::U8_2 => match get_vectors::<u8, 2>(node_type, input, 0) {
                Ok(a) => Ok(Some(ValueArray::U8_2(a))),
                Err(e) => Err(e),
            },
            StandardType::S16_2 => match get_vectors::<i16, 2>(node_type, input, 0) {
                Ok(a) => Ok(Some(ValueArray::S16_2(a))),
                Err(e) => Err(e),
            },
            StandardType::U16_2 => match get_vectors::<u16, 2>(node_type, input, 0) {
                Ok(a) => Ok(Some(ValueArray::U16_2(a))),
                Err(e) => Err(e),
            },
            StandardType::S32_2 => match get_vectors::<i32, 2>(node_type, input, 0) {
                Ok(a) => Ok(Some(ValueArray::S32_2(a))),
                Err(e) => Err(e),
            },
            StandardType::U32_2 => match get_vectors::<u32, 2>(node_type, input, 0) {
                Ok(a) => Ok(Some(ValueArray::U32_2(a))),
                Err(e) => Err(e),
            },
            StandardType::S64_2 => match get_vectors::<i64, 2>(node_type, input, 0) {
                Ok(a) => Ok(Some(ValueArray::S64_2(a))),
                Err(e) => Err(e),
            },
            StandardType::U64_2 => match get_vectors::<u64, 2>(node_type, input, 0) {
                Ok(a) => Ok(Some(ValueArray::U64_2(a))),
                Err(e) => Err(e),
            },
            StandardType::Float2 => match get_vectors::<u32, 2>(node_type, input, 0) {
                Ok(a) => Ok(Some(ValueArray::Float2(a))),
                Err(e) => Err(e),
            },
            StandardType::Double2 => match get_vectors::<u64, 2>(node_type, input, 0) {
                Ok(a) => Ok(Some(ValueArray::Double2(a))),
                Err(e) => Err(e),
            },
            StandardType::S8_3 => match get_vectors::<i8, 3>(node_type, input, 0) {
                Ok(a) => Ok(Some(ValueArray::S8_3(a))),
                Err(e) => Err(e),
            },
            StandardType::U8_3 => match get_vectors::<u8, 3>(node_type, input, 0) {
                Ok(a) => Ok(Some(ValueArray::U8_3(a))),
                Err(e) => Err(e),
            },
            StandardType::S16_3 => match get_vectors::<i16, 3>(node_type, input, 0) {
                Ok(a) => Ok(Some(ValueArray::S16_3(a))),
                Err(e) => Err(e),
            },
            StandardType::U16_3 => match get_vectors::<u16, 3>(node_type, input, 0) {
                Ok(a) => Ok(Some(ValueArray::U16_3(a))),
                Err(e) => Err(e),
            },
            StandardType::S32_3 => match get_vectors::<i32, 3>(node_type, input, 0) {
                Ok(a) => Ok(Some(ValueArray::S32_3(a))),
                Err(e) => Err(e),
            },
            StandardType::U32_3 => match get_vectors::<u32, 3>(node_type, input, 0) {
                Ok(a) => Ok(Some(ValueArray::U32_3(a))),
                Err(e) => Err(e),
            },
            StandardType::S64_3 => match get_vectors::<i64, 3>(node_type, input, 0) {
                Ok(a) => Ok(Some(ValueArray::S64_3(a))),
                Err(e) => Err(e),
            },
            StandardType::U64_3 => match get_vectors::<u64, 3>(node_type, input, 0) {
                Ok(a) => Ok(Some(ValueArray::U64_3(a))),
                Err(e) => Err(e),
            },
            StandardType::Float3 => match get_vectors::<u32, 3>(node_type, input, 0) {
                Ok(a) => Ok(Some(ValueArray::Float3(a))),
                Err(e) => Err(e),
            },
            StandardType::Double3 => match get_vectors::<u64, 3>(node_type, input, 0) {
                Ok(a) => Ok(Some(ValueArray::Double3(a))),
                Err(e) => Err(e),
            },
            StandardType::S8_4 => match get_vectors::<i8, 4>(node_type, input, 0) {
                Ok(a) => Ok(Some(ValueArray::S8_4(a))),
                Err(e) => Err(e),
            },
            StandardType::U8_4 => match get_vectors::<u8, 4>(node_type, input, 0) {
                Ok(a) => Ok(Some(ValueArray::U8_4(a))),
                Err(e) => Err(e),
            },
            StandardType::S16_4 => match get_vectors::<i16, 4>(node_type, input, 0) {
                Ok(a) => Ok(Some(ValueArray::S16_4(a))),
                Err(e) => Err(e),
            },
            StandardType::U16_4 => match get_vectors::<u16, 4>(node_type, input, 0) {
                Ok(a) => Ok(Some(ValueArray::U16_4(a))),
                Err(e) => Err(e),
            },
            StandardType::S32_4 => match get_vectors::<i32, 4>(node_type, input, 0) {
                Ok(a) => Ok(Some(ValueArray::S32_4(a))),
                Err(e) => Err(e),
            },
            StandardType::U32_4 => match get_vectors::<u32, 4>(node_type, input, 0) {
                Ok(a) => Ok(Some(ValueArray::U32_4(a))),
                Err(e) => Err(e),
            },
            StandardType::S64_4 => match get_vectors::<i64, 4>(node_type, input, 0) {
                Ok(a) => Ok(Some(ValueArray::S64_4(a))),
                Err(e) => Err(e),
            },
            StandardType::U64_4 => match get_vectors::<u64, 4>(node_type, input, 0) {
                Ok(a) => Ok(Some(ValueArray::U64_4(a))),
                Err(e) => Err(e),
            },
            StandardType::Float4 => match get_vectors::<u32, 4>(node_type, input, 0) {
                Ok(a) => Ok(Some(ValueArray::Float4(a))),
                Err(e) => Err(e),
            },
            StandardType::Double4 => match get_vectors::<u64, 4>(node_type, input, 0) {
                Ok(a) => Ok(Some(ValueArray::Double4(a))),
                Err(e) => Err(e),
            },
            StandardType::Vs8 => match get_vectors::<i8, 16>(node_type, input, 0) {
                Ok(a) => Ok(Some(ValueArray::Vs8(a))),
                Err(e) => Err(e),
            },
            StandardType::Vu8 => match get_vectors::<u8, 16>(node_type, input, 0) {
                Ok(a) => Ok(Some(ValueArray::Vu8(a))),
                Err(e) => Err(e),
            },
            StandardType::Vs16 => match get_vectors::<i16, 8>(node_type, input, 0) {
                Ok(a) => Ok(Some(ValueArray::Vs16(a))),
                Err(e) => Err(e),
            },
            StandardType::Vu16 => match get_vectors::<u16, 8>(node_type, input, 0) {
                Ok(a) => Ok(Some(ValueArray::Vu16(a))),
                Err(e) => Err(e),
            },
            StandardType::Boolean => match get_vectors::<bool, 1>(node_type, input, false) {
                Ok(a) => Ok(Some(ValueArray::Boolean(firsts(node_type, a)))),
                Err(e) => Err(e),
            },
            StandardType::Boolean2 => match get_vectors::<bool, 2>(node_type, input, false) {
                Ok(a) => Ok(Some(ValueArray::Boolean2(a))),
                Err(e) => Err(e),
            },
            StandardType::Boolean3 => match get_vectors::<bool, 3>(node_type, input, false) {
                Ok(a) => Ok(Some(ValueArray::Boolean3(a))),
                Err(e) => Err(e),
            },
            StandardType::Boolean4 => match get_vectors::<bool, 4>(node_type, input, false) {
                Ok(a) => Ok(Some(ValueArray::Boolean4(a))),
                Err(e) => Err(e),
            },
            StandardType::Vb => match get_vectors::<bool, 16>(node_type, input, false) {
                Ok(a) => Ok(Some(ValueArray::Vb(a))),
                Err(e) => Err(e),
            },
            _ => Ok(None),
        }
    }

    /// Appends the bytes of the items, one after the other.
    #[verifier::rlimit(60)]
    #[verifier::spinoff_prover]
    pub fn to_bytes_into(&self, out: &mut Vec<u8>)
        ensures
            self@.payload() == Some(final(out)@.skip(old(out)@.len() as int)),
            final(out)@.take(old(out)@.len() as int) == old(out)@,
            final(out)@.len() >= old(out)@.len(),
    {
        match self {
            ValueArray::S8(a) => put_scalars(out, StandardType::S8, a),
            ValueArray::U8(a) => put_scalars(out, StandardType::U8, a),
            ValueArray::S16(a) => put_scalars(out, StandardType::S16, a),
            ValueArray::U16(a) => put_scalars(out, StandardType::U16, a),
            ValueArray::S32(a) => put_scalars(out, StandardType::S32, a),
            ValueArray::U32(a) => put_scalars(out, StandardType::U32, a),
            ValueArray::S64(a) => put_scalars(out, StandardType::S64, a),
            ValueArray::U64(a) => put_scalars(out, StandardType::U64, a),
            ValueArray::Ip4(a) => put_vectors(out, StandardType::Ip4, a),
            ValueArray::Float(a) => put_scalars(out, StandardType::Float, a),
            ValueArray::Double(a) => put_scalars(out, StandardType::Double, a),
            ValueArray::S8_2(a) => put_vectors(out, StandardType::S8_2, a),
            ValueArray::U8_2(a) => put_vectors(out, StandardType::U8_2, a),
            ValueArray::S16_2(a) => put_vectors(out, StandardType::S16_2, a),
            ValueArray::U16_2(a) => put_vectors(out, StandardType::U16_2, a),
            ValueArray::S32_2(a) => put_vectors(out, StandardType::S32_2, a),
            ValueArray::U32_2(a) => put_vectors(out, StandardType::U32_2, a),
            ValueArray::S64_2(a) => put_vectors(out, StandardType::S64_2, a),
            ValueArray::U64_2(a) => put_vectors(out, StandardType::U64_2, a),
            ValueArray::Float2(a) => put_vectors(out, StandardType::Float2, a),
            ValueArray::Double2(a) => put_vectors(out, StandardType::Double2, a),
            ValueArray::S8_3(a) => put_vectors(out, StandardType::S8_3, a),
            ValueArray::U8_3(a) => put_vectors(out, StandardType::U8_3, a),
            ValueArray::S16_3(a) => put_vectors(out, StandardType::S16_3, a),
            ValueArray::U16_3(a) => put_vectors(out, StandardType::U16_3, a),
            ValueArray::S32_3(a) => put_vectors(out, StandardType::S32_3, a),
            ValueArray::U32_3(a) => put_vectors(out, StandardType::U32_3, a),
            ValueArray::S64_3(a) => put_vectors(out, StandardType::S64_3, a),
            ValueArray::U64_3(a) => put_vectors(out, StandardType::U64_3, a),
            ValueArray::Float3(a) => put_vectors(out, StandardType::Float3, a),
            ValueArray::Double3(a) => put_vectors(out, StandardType::Double3, a),
            ValueArray::S8_4(a) => put_vectors(out, StandardType::S8_4, a),
            ValueArray::U8_4(a) => put_vectors(out, StandardType::U8_4, a),
            ValueArray::S16_4(a) => put_vectors(out, StandardType::S16_4, a),
            ValueArray::U16_4(a) => put_vectors(out, StandardType::U16_4, a),
            ValueArray::S32_4(a) => put_vectors(out, StandardType::S32_4, a),
            ValueArray::U32_4(a) => put_vectors(out, StandardType::U32_4, a),
            ValueArray::S64_4(a) => put_vectors(out, StandardType::S64_4, a),
            ValueArray::U64_4(a) => put_vectors(out, StandardType::U64_4, a),
            ValueArray::Float4(a) => put_vectors(out, StandardType::Float4, a),
            ValueArray::Double4(a) => put_vectors(out, StandardType::Double4, a),
            ValueArray::Vs8(a) => put_vectors(out, StandardType::Vs8, a),
            ValueArray::Vu8(a) => put_vectors(out, StandardType::Vu8, a),
            ValueArray::Vs16(a) => put_vectors(out, StandardType::Vs16, a),
            ValueArray::Vu16(a) => put_vectors(out, StandardType::Vu16, a),
            ValueArray::Boolean(a) => put_scalars(out, StandardType::Boolean, a),
            ValueArray::Boolean2(a) => put_vectors(out, StandardType::Boolean2, a),
            ValueArray::Boolean3(a) => put_vectors(out, StandardType::Boolean3, a),
            ValueArray::Boolean4(a) => put_vectors(out, StandardType::Boolean4, a),
            ValueArray::Vb(a) => put_vectors(out, StandardType::Vb, a),
        }
    }

    /// The bytes of the items, one after the other.
    pub fn to_bytes(&self) -> (r: Vec<u8>)
        ensures
            self@.payload() == Some(r@),
    {
        let mut out: Vec<u8> = Vec::new();
        self.to_bytes_into(&mut out);
        assert(out@.skip(0) =~= out@);
        out
    }

    /// The array as a value whose items are values of their own.
    pub fn to_value(&self) -> (r: Value)
        ensures
            r@ == self@,
    {
        let t = self.standard_type();
        let bytes = self.to_bytes();
        proof {
            self.lemma_wf();
            crate::value::lemma_array_round_trip(self@);
        }
        match Value::from_standard_type(t, true, bytes.as_slice()) {
            Ok(Some(v)) => v,
            _ => Value::Array(t, Vec::new()),
        }
    }

    /// The text of the array: the elements of its items with a space
    /// between them. Floating-point numbers have no text here.
    pub fn to_string(&self) -> (r: Option<String>)
        ensures
            match crate::value_text::spec_value_text(self@) {
                Some(t) => r matches Some(s) && s@ == t,
                None => r is None,
            },
    {
        self.to_value().to_string()
    }

    /// The items are fixed-size values of the array's type.
    pub proof fn lemma_wf(&self)
        ensures
            self@.wf(),
    {
        match self {
            ValueArray::S8(a) => {
                lemma_scalar_items::<i8>(StandardType::S8, a@);
            },
            ValueArray::U8(a) => {
                lemma_scalar_items::<u8>(StandardType::U8, a@);
            },
            ValueArray::S16(a) => {
                lemma_scalar_items::<i16>(StandardType::S16, a@);
            },
            ValueArray::U16(a) => {
                lemma_scalar_items::<u16>(StandardType::U16, a@);
            },
            ValueArray::S32(a) => {
                lemma_scalar_items::<i32>(StandardType::S32, a@);
            },
            ValueArray::U32(a) => {
                lemma_scalar_items::<u32>(StandardType::U32, a@);
            },
            ValueArray::S64(a) => {
                lemma_scalar_items::<i64>(StandardType::S64, a@);
            },
            ValueArray::U64(a) => {
                lemma_scalar_items::<u64>(StandardType::U64, a@);
            },
            ValueArray::Ip4(a) => {
                lemma_vector_items::<u8, 4>(StandardType::Ip4, a@);
            },
            ValueArray::Float(a) => {
                lemma_scalar_items::<u32>(StandardType::Float, a@);
            },
            ValueArray::Double(a) => {
                lemma_scalar_items::<u64>(StandardType::Double, a@);
            },
            ValueArray::S8_2(a) => {
                lemma_vector_items::<i8, 2>(StandardType::S8_2, a@);
            },
            ValueArray::U8_2(a) => {
                lemma_vector_items::<u8, 2>(StandardType::U8_2, a@);
            },
            ValueArray::S16_2(a) => {
                lemma_vector_items::<i16, 2>(StandardType::S16_2, a@);
            },
            ValueArray::U16_2(a) => {
                lemma_vector_items::<u16, 2>(StandardType::U16_2, a@);
            },
            ValueArray::S32_2(a) => {
                lemma_vector_items::<i32, 2>(StandardType::S32_2, a@);
            },
            ValueArray::U32_2(a) => {
                lemma_vector_items::<u32, 2>(StandardType::U32_2, a@);
            },
            ValueArray::S64_2(a) => {
                lemma_vector_items::<i64, 2>(StandardType::S64_2, a@);
            },
            ValueArray::U64_2(a) => {
                lemma_vector_items::<u64, 2>(StandardType::U64_2, a@);
            },
            ValueArray::Float2(a) => {
                lemma_vector_items::<u32, 2>(StandardType::Float2, a@);
            },
            ValueArray::Double2(a) => {
                lemma_vector_items::<u64, 2>(StandardType::Double2, a@);
            },
            ValueArray::S8_3(a) => {
                lemma_vector_items::<i8, 3>(StandardType::S8_3, a@);
            },
            ValueArray::U8_3(a) => {
                lemma_vector_items::<u8, 3>(StandardType::U8_3, a@);
            },
            ValueArray::S16_3(a) => {
                lemma_vector_items::<i16, 3>(StandardType::S16_3, a@);
            },
            ValueArray::U16_3(a) => {
                lemma_vector_items::<u16, 3>(StandardType::U16_3, a@);
            },
            ValueArray::S32_3(a) => {
                lemma_vector_items::<i32, 3>(StandardType::S32_3, a@);
            },
            ValueArray::U32_3(a) => {
                lemma_vector_items::<u32, 3>(StandardType::U32_3, a@);
            },
            ValueArray::S64_3(a) => {
                lemma_vector_items::<i64, 3>(StandardType::S64_3, a@);
            },
            ValueArray::U64_3(a) => {
                lemma_vector_items::<u64, 3>(StandardType::U64_3, a@);
            },
            ValueArray::Float3(a) => {
                lemma_vector_items::<u32, 3>(StandardType::Float3, a@);
            },
            ValueArray::Double3(a) => {
                lemma_vector_items::<u64, 3>(StandardType::Double3, a@);
            },
            ValueArray::S8_4(a) => {
                lemma_vector_items::<i8, 4>(StandardType::S8_4, a@);
            },
            ValueArray::U8_4(a) => {
                lemma_vector_items::<u8, 4>(StandardType::U8_4, a@);
            },
            ValueArray::S16_4(a) => {
                lemma_vector_items::<i16, 4>(StandardType::S16_4, a@);
            },
            ValueArray::U16_4(a) => {
                lemma_vector_items::<u16, 4>(StandardType::U16_4, a@);
            },
            ValueArray::S32_4(a) => {
                lemma_vector_items::<i32, 4>(StandardType::S32_4, a@);
            },
            ValueArray::U32_4(a) => {
                lemma_vector_items::<u32, 4>(StandardType::U32_4, a@);
            },
            ValueArray::S64_4(a) => {
                lemma_vector_items::<i64, 4>(StandardType::S64_4, a@);
            },
            ValueArray::U64_4(a) => {
                lemma_vector_items::<u64, 4>(StandardType::U64_4, a@);
            },
            ValueArray::Float4(a) => {
                lemma_vector_items::<u32, 4>(StandardType::Float4, a@);
            },
            ValueArray::Double4(a) => {
                lemma_vector_items::<u64, 4>(StandardType::Double4, a@);
            },
            ValueArray::Vs8(a) => {
                lemma_vector_items::<i8, 16>(StandardType::Vs8, a@);
            },
            ValueArray::Vu8(a) => {
                lemma_vector_items::<u8, 16>(StandardType::Vu8, a@);
            },
            ValueArray::Vs16(a) => {
                lemma_vector_items::<i16, 8>(StandardType::Vs16, a@);
            },
            ValueArray::Vu16(a) => {
                lemma_vector_items::<u16, 8>(StandardType::Vu16, a@);
            },
            ValueArray::Boolean(a) => {
                lemma_scalar_items::<bool>(StandardType::Boolean, a@);
            },
            ValueArray::Boolean2(a) => {
                lemma_vector_items::<bool, 2>(StandardType::Boolean2, a@);
            },
            ValueArray::Boolean3(a) => {
                lemma_vector_items::<bool, 3>(StandardType::Boolean3, a@);
            },
            ValueArray::Boolean4(a) => {
                lemma_vector_items::<bool, 4>(StandardType::Boolean4, a@);
            },
            ValueArray::Vb(a) => {
                lemma_vector_items::<bool, 16>(StandardType::Vb, a@);
            },
        }
    }
}

/// Single elements are fixed-size values of a type of one element.
pub proof fn lemma_scalar_items<T: Element>(t: StandardType, s: Seq<T>)
    requires
        type_of::<T>(t, 1),
    ensures
        forall|i: int|
            0 <= i < scalar_items(t, s).len() ==> (#[trigger] scalar_items(t, s)[i]).is_fixed_of(t),
{
    assert forall|i: int| 0 <= i < scalar_items(t, s).len() implies (#[trigger] scalar_items(
        t,
        s,
    )[i]).is_fixed_of(t) by {
        crate::endian::lemma_ints_ok::<T>(seq![s[i]]);
    }
}

/// Groups of elements are fixed-size values of a type of as many elements.
pub proof fn lemma_vector_items<T: Element, const N: usize>(t: StandardType, s: Seq<[T; N]>)
    requires
        type_of::<T>(t, N as nat),
    ensures
        forall|i: int|
            0 <= i < vector_items(t, s).len() ==> (#[trigger] vector_items(t, s)[i]).is_fixed_of(t),
{
    assert forall|i: int| 0 <= i < vector_items(t, s).len() implies (#[trigger] vector_items(
        t,
        s,
    )[i]).is_fixed_of(t) by {
        crate::endian::lemma_ints_ok::<T>(s[i]@);
    }
}

} // verus!

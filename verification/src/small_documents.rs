//! Small documents, byte for byte.
use vstd::prelude::*;
use crate::byte_buffer::{align4, Cursors, Lane};
use crate::encoding_type::EncodingType;
use crate::endian::{be_bytes, elem_bytes, elems_bytes, lemma_bounds};
use crate::error::KbinError;
use crate::format::{
    all_sixbit, header_bytes, node_bytes, node_ok, node_section, padding, put_node, reads_back,
    spec_decode_binary, spec_encode_binary, DataState,
};
use crate::node_types::StandardType;
use crate::round_trip::lemma_binary_round_trip;
use crate::sixbit::{packed_byte, sixbit_index, sixbit_values, spec_pack, spec_sixbit_encode};
use crate::value::{NodeView, ValueView};

verus! {

/// The element `n` that holds the 32-bit number -1.
pub open spec fn scalar_tree() -> NodeView {
    NodeView {
        key: seq!['n'],
        attributes: Seq::empty(),
        children: Seq::empty(),
        value: Some(ValueView::Fixed(StandardType::S32, seq![-1int])),
    }
}

/// The document of that element, with packed identifiers.
pub open spec fn scalar_document() -> Seq<u8> {
    seq![
        0xA0u8, 0x42, 0x80, 0x7F, 0x00, 0x00, 0x00, 0x08,
        0x02, 0x01, 0xC4, 0xBE, 0xBF, 0x00, 0x00, 0x00,
        0xFF, 0xFF, 0xFF, 0xFF,
    ]
}

/// The packed identifier `n`.
proof fn lemma_name_n()
    ensures
        spec_sixbit_encode(seq!['n']) =~= seq![0x01u8, 0xC4],
        crate::sixbit::sixbit_encodable(seq!['n']),
{
    let vals = sixbit_values(seq!['n']);
    assert(sixbit_index('n') == Some(49u8));
    assert(vals =~= seq![49u8]);
    assert((49u8 << 2) | (0u8 >> 4) == 0xC4u8) by (bit_vector);
    assert(packed_byte(vals, 0) == 0xC4u8);
    assert(spec_pack(vals) =~= seq![0xC4u8]);
}

/// Four bytes that spell a small length.
proof fn lemma_length_bytes(n: nat)
    requires
        n < 256,
    ensures
        be_bytes(n, 4) =~= seq![0u8, 0, 0, n as u8],
{
    reveal_with_fuel(be_bytes, 5);
}

/// The bytes of the number -1.
proof fn lemma_minus_one()
    ensures
        elems_bytes(4, seq![-1int]) =~= seq![0xFFu8, 0xFF, 0xFF, 0xFF],
{
    lemma_bounds();
    reveal_with_fuel(be_bytes, 5);
    reveal_with_fuel(elems_bytes, 2);
    assert(seq![-1int].drop_last() =~= Seq::<int>::empty());
    assert(elem_bytes(4, -1) =~= seq![0xFFu8, 0xFF, 0xFF, 0xFF]);
}

/// The node section of the element.
proof fn lemma_scalar_nodes()
    ensures
        node_section(true, EncodingType::UTF_8, scalar_tree()) =~= seq![
            0x02u8, 0x01, 0xC4, 0xBE, 0xBF, 0x00, 0x00, 0x00,
        ],
{
    lemma_name_n();
    let t = scalar_tree();
    assert(crate::format::attr_names_bytes(true, EncodingType::UTF_8, t.attributes) =~= Seq::<
        u8,
    >::empty());
    assert(crate::format::nodes_bytes(true, EncodingType::UTF_8, t.children) =~= Seq::<
        u8,
    >::empty());
    let body = node_bytes(true, EncodingType::UTF_8, t) + seq![StandardType::FileEnd.spec_id()];
    assert(node_bytes(true, EncodingType::UTF_8, t) =~= seq![0x02u8, 0x01, 0xC4, 0xBE]);
    assert(body =~= seq![0x02u8, 0x01, 0xC4, 0xBE, 0xBF]);
    assert(padding(body.len()) =~= seq![0u8, 0, 0]);
}

/// The data section of the element.
proof fn lemma_scalar_data()
    ensures
        put_node(DataState::start(), EncodingType::UTF_8, scalar_tree()).data =~= seq![
            0xFFu8, 0xFF, 0xFF, 0xFF,
        ],
{
    lemma_minus_one();
    let t = scalar_tree();
    let v = t.value.unwrap();
    assert(v.payload().unwrap() =~= seq![0xFFu8, 0xFF, 0xFF, 0xFF]);
    let w = DataState::start().put_value(EncodingType::UTF_8, v);
    assert(align4(4) == 4);
    assert(w.data =~= seq![0xFFu8, 0xFF, 0xFF, 0xFF]);
    assert(crate::format::put_attrs(w, EncodingType::UTF_8, t.attributes) == w);
    assert(crate::format::put_nodes(w, EncodingType::UTF_8, t.children) == w);
}

/// The element is written as its document, and the document reads back
/// as the element.
pub proof fn lemma_scalar_document()
    ensures
        spec_encode_binary(scalar_tree(), EncodingType::UTF_8) == Some(scalar_document()),
        spec_decode_binary(scalar_document()) == Ok::<(NodeView, EncodingType), KbinError>(
            (scalar_tree(), EncodingType::UTF_8),
        ),
{
    let t = scalar_tree();
    let e = EncodingType::UTF_8;
    lemma_name_n();
    lemma_scalar_nodes();
    lemma_scalar_data();
    lemma_length_bytes(8);
    lemma_bounds();
    assert(all_sixbit(t));
    assert(node_ok(true, e, t));
    assert(!0x80u8 == 0x7Fu8) by (bit_vector);
    assert(header_bytes(true, e, 8) =~= seq![0xA0u8, 0x42, 0x80, 0x7F, 0x00, 0x00, 0x00, 0x08]);
    assert(spec_encode_binary(t, e).unwrap() =~= scalar_document());
    assert(reads_back(true, e, t));
    lemma_binary_round_trip(t, e);
}

/// An element without attributes or children, with a value or without.
pub open spec fn leaf(key: Seq<char>, value: Option<ValueView>) -> NodeView {
    NodeView { key, attributes: Seq::empty(), children: Seq::empty(), value }
}

/// The element `root` with two children: the text `hi` as `a`, and the
/// boolean 1 as `b`.
pub open spec fn mixed_tree() -> NodeView {
    NodeView {
        key: seq!['r', 'o', 'o', 't'],
        attributes: Seq::empty(),
        children: seq![
            leaf(seq!['a'], Some(ValueView::String(seq!['h', 'i']))),
            leaf(seq!['b'], Some(ValueView::Fixed(StandardType::Boolean, seq![1int]))),
        ],
        value: None,
    }
}

/// The document of that tree, with packed identifiers: the header, the
/// node section, and the data section, in which the text is a block of
/// three bytes and the boolean opens a window of its own.
pub open spec fn mixed_document() -> Seq<u8> {
    seq![
        0xA0u8, 0x42, 0x80, 0x7F, 0x00, 0x00, 0x00, 0x10,
        0x01, 0x04, 0xD7, 0x2C, 0xB7, 0x0A, 0x01, 0x90, 0xBE,
        0x34, 0x01, 0x94, 0xBE, 0xBE, 0xBF, 0x00,
        0x00, 0x00, 0x00, 0x03, 0x68, 0x69, 0x00, 0x00,
        0x01, 0x00, 0x00, 0x00,
    ]
}

/// The packed identifiers `root`, `a` and `b`.
proof fn lemma_mixed_names()
    ensures
        spec_sixbit_encode(seq!['r', 'o', 'o', 't']) =~= seq![0x04u8, 0xD7, 0x2C, 0xB7],
        spec_sixbit_encode(seq!['a']) =~= seq![0x01u8, 0x90],
        spec_sixbit_encode(seq!['b']) =~= seq![0x01u8, 0x94],
        crate::sixbit::sixbit_encodable(seq!['r', 'o', 'o', 't']),
        crate::sixbit::sixbit_encodable(seq!['a']),
        crate::sixbit::sixbit_encodable(seq!['b']),
{
    let root = sixbit_values(seq!['r', 'o', 'o', 't']);
    assert(sixbit_index('r') == Some(53u8));
    assert(sixbit_index('o') == Some(50u8));
    assert(sixbit_index('t') == Some(55u8));
    assert(root =~= seq![53u8, 50, 50, 55]);
    assert((53u8 << 2) | (50u8 >> 4) == 0xD7u8) by (bit_vector);
    assert(((50u8 & 15) << 4) | (50u8 >> 2) == 0x2Cu8) by (bit_vector);
    assert(((50u8 & 3) << 6) | 55u8 == 0xB7u8) by (bit_vector);
    assert(packed_byte(root, 0) == 0xD7u8);
    assert(packed_byte(root, 1) == 0x2Cu8);
    assert(packed_byte(root, 2) == 0xB7u8);
    assert(spec_pack(root) =~= seq![0xD7u8, 0x2C, 0xB7]);
    let a = sixbit_values(seq!['a']);
    assert(sixbit_index('a') == Some(36u8));
    assert(a =~= seq![36u8]);
    assert((36u8 << 2) | (0u8 >> 4) == 0x90u8) by (bit_vector);
    assert(packed_byte(a, 0) == 0x90u8);
    assert(spec_pack(a) =~= seq![0x90u8]);
    let b = sixbit_values(seq!['b']);
    assert(sixbit_index('b') == Some(37u8));
    assert(b =~= seq![37u8]);
    assert((37u8 << 2) | (0u8 >> 4) == 0x94u8) by (bit_vector);
    assert(packed_byte(b, 0) == 0x94u8);
    assert(spec_pack(b) =~= seq![0x94u8]);
}

/// The node section of the tree.
proof fn lemma_mixed_nodes()
    ensures
        node_section(true, EncodingType::UTF_8, mixed_tree()) =~= seq![
            0x01u8, 0x04, 0xD7, 0x2C, 0xB7, 0x0A, 0x01, 0x90, 0xBE,
            0x34, 0x01, 0x94, 0xBE, 0xBE, 0xBF, 0x00,
        ],
{
    lemma_mixed_names();
    let e = EncodingType::UTF_8;
    let t = mixed_tree();
    let a = t.children[0];
    let b = t.children[1];
    let none = Seq::<(Seq<char>, Seq<char>)>::empty();
    let no_nodes = Seq::<NodeView>::empty();
    assert(crate::format::attr_names_bytes(true, e, none) =~= Seq::<u8>::empty());
    assert(crate::format::nodes_bytes(true, e, no_nodes) =~= Seq::<u8>::empty());
    assert(node_bytes(true, e, a) =~= seq![0x0Au8, 0x01, 0x90, 0xBE]);
    assert(node_bytes(true, e, b) =~= seq![0x34u8, 0x01, 0x94, 0xBE]);
    assert(t.children.drop_last() =~= seq![a]);
    assert(seq![a].drop_last() =~= no_nodes);
    assert(crate::format::nodes_bytes(true, e, seq![a]) =~= seq![0x0Au8, 0x01, 0x90, 0xBE]);
    assert(crate::format::nodes_bytes(true, e, t.children) =~= seq![
        0x0Au8, 0x01, 0x90, 0xBE, 0x34, 0x01, 0x94, 0xBE,
    ]);
    assert(node_bytes(true, e, t) =~= seq![
        0x01u8, 0x04, 0xD7, 0x2C, 0xB7, 0x0A, 0x01, 0x90, 0xBE,
        0x34, 0x01, 0x94, 0xBE, 0xBE,
    ]);
    let body = node_bytes(true, e, t) + seq![StandardType::FileEnd.spec_id()];
    assert(body.len() == 15);
    assert(padding(15) =~= seq![0u8]);
}

/// The bytes of the text `hi`.
proof fn lemma_text_hi()
    ensures
        EncodingType::UTF_8.spec_encode(seq!['h', 'i']) == Some(seq![0x68u8, 0x69]),
{
    let s = seq!['h', 'i'];
    assert(vstd::utf8::is_ascii_chars(s));
    crate::value_text::lemma_ascii_bytes(s);
    assert(crate::encoding_type::bytes_of_chars(s) =~= seq![0x68u8, 0x69]);
}

/// The data section of the tree.
proof fn lemma_mixed_data()
    ensures
        put_node(DataState::start(), EncodingType::UTF_8, mixed_tree()).data =~= seq![
            0x00u8, 0x00, 0x00, 0x03, 0x68, 0x69, 0x00, 0x00,
            0x01, 0x00, 0x00, 0x00,
        ],
{
    lemma_text_hi();
    lemma_length_bytes(3);
    lemma_bounds();
    reveal_with_fuel(be_bytes, 2);
    reveal_with_fuel(elems_bytes, 2);
    let e = EncodingType::UTF_8;
    let t = mixed_tree();
    let a = t.children[0];
    let b = t.children[1];
    let none = Seq::<(Seq<char>, Seq<char>)>::empty();
    let no_nodes = Seq::<NodeView>::empty();
    let w0 = DataState::start();
    assert(crate::format::text_payload(e, seq!['h', 'i']) =~= seq![0x68u8, 0x69, 0x00]);
    assert(align4(4) == 4 && align4(3) == 4);
    let w1 = w0.put(Lane::Dword, seq![0u8, 0, 0, 3]);
    assert(w1.data =~= seq![0u8, 0, 0, 3]);
    let w2 = w1.put(Lane::Dword, seq![0x68u8, 0x69, 0x00]);
    assert(w2.data =~= seq![0u8, 0, 0, 3, 0x68, 0x69, 0, 0]);
    assert(w2.cursors == Cursors { byte: 0, word: 0, dword: 8 });
    assert(w0.put_value(e, a.value.unwrap()) == w2);
    assert(crate::format::put_attrs(w2, e, none) == w2);
    assert(crate::format::put_nodes(w2, e, no_nodes) == w2);
    assert(put_node(w0, e, a) == w2);
    assert(seq![1int].drop_last() =~= Seq::<int>::empty());
    assert(b.value.unwrap().payload().unwrap() =~= seq![1u8]);
    let w3 = w2.put(Lane::Byte, seq![1u8]);
    assert(w3.data =~= seq![0u8, 0, 0, 3, 0x68, 0x69, 0, 0, 1, 0, 0, 0]);
    assert(w2.put_value(e, b.value.unwrap()) == w3);
    assert(crate::format::put_attrs(w3, e, none) == w3);
    assert(crate::format::put_nodes(w3, e, no_nodes) == w3);
    assert(put_node(w2, e, b) == w3);
    assert(t.children.drop_last() =~= seq![a]);
    assert(seq![a].drop_last() =~= no_nodes);
    assert(crate::format::put_nodes(w0, e, no_nodes) == w0);
    assert(seq![a].last() == a);
    assert(crate::format::put_nodes(w0, e, seq![a]) == w2);
    assert(crate::format::put_nodes(w0, e, t.children) == w3);
    assert(crate::format::put_attrs(w0, e, none) == w0);
}

/// The tree is written as its document, and the document reads back as
/// the tree.
pub proof fn lemma_mixed_document()
    ensures
        spec_encode_binary(mixed_tree(), EncodingType::UTF_8) == Some(mixed_document()),
        spec_decode_binary(mixed_document()) == Ok::<(NodeView, EncodingType), KbinError>(
            (mixed_tree(), EncodingType::UTF_8),
        ),
{
    let t = mixed_tree();
    let e = EncodingType::UTF_8;
    lemma_mixed_names();
    lemma_mixed_nodes();
    lemma_mixed_data();
    lemma_text_hi();
    lemma_length_bytes(16);
    lemma_bounds();
    assert(all_sixbit(t.children[0]));
    assert(all_sixbit(t.children[1]));
    assert(all_sixbit(t));
    assert(seq![1int].drop_last() =~= Seq::<int>::empty());
    assert(node_ok(true, e, t.children[0]));
    assert(node_ok(true, e, t.children[1]));
    assert(node_ok(true, e, t));
    assert(!0x80u8 == 0x7Fu8) by (bit_vector);
    assert(header_bytes(true, e, 16) =~= seq![0xA0u8, 0x42, 0x80, 0x7F, 0x00, 0x00, 0x00, 0x10]);
    assert(spec_encode_binary(t, e).unwrap() =~= mixed_document());
    assert(crate::round_trip::names_distinct(t.children[0]));
    assert(crate::round_trip::names_distinct(t.children[1]));
    assert(crate::round_trip::names_distinct(t));
    crate::round_trip::lemma_unicode_round_trip(t, e);
}

/// Three one-byte numbers below one element share one window of the data
/// section: the first opens it, the others follow inside it.
pub proof fn lemma_short_values_share_a_window()
    ensures
        put_node(
            DataState::start(),
            EncodingType::UTF_8,
            NodeView {
                key: seq!['p'],
                attributes: Seq::empty(),
                children: seq![
                    leaf(seq!['a'], Some(ValueView::Fixed(StandardType::U8, seq![10int]))),
                    leaf(seq!['b'], Some(ValueView::Fixed(StandardType::U8, seq![20int]))),
                    leaf(seq!['c'], Some(ValueView::Fixed(StandardType::U8, seq![30int]))),
                ],
                value: None,
            },
        ) == (DataState {
            data: seq![0x0Au8, 0x14, 0x1E, 0x00],
            cursors: Cursors { byte: 3, word: 0, dword: 4 },
        }),
{
    lemma_bounds();
    reveal_with_fuel(be_bytes, 2);
    reveal_with_fuel(elems_bytes, 2);
    let e = EncodingType::UTF_8;
    let a = leaf(seq!['a'], Some(ValueView::Fixed(StandardType::U8, seq![10int])));
    let b = leaf(seq!['b'], Some(ValueView::Fixed(StandardType::U8, seq![20int])));
    let c = leaf(seq!['c'], Some(ValueView::Fixed(StandardType::U8, seq![30int])));
    let t = NodeView {
        key: seq!['p'],
        attributes: Seq::empty(),
        children: seq![a, b, c],
        value: None,
    };
    let none = Seq::<(Seq<char>, Seq<char>)>::empty();
    let no_nodes = Seq::<NodeView>::empty();
    let w0 = DataState::start();
    assert(seq![10int].drop_last() =~= Seq::<int>::empty());
    assert(seq![20int].drop_last() =~= Seq::<int>::empty());
    assert(seq![30int].drop_last() =~= Seq::<int>::empty());
    assert(a.value.unwrap().payload().unwrap() =~= seq![10u8]);
    assert(b.value.unwrap().payload().unwrap() =~= seq![20u8]);
    assert(c.value.unwrap().payload().unwrap() =~= seq![30u8]);
    let w1 = w0.put(Lane::Byte, seq![10u8]);
    assert(w1.data =~= seq![10u8, 0, 0, 0]);
    let w2 = w1.put(Lane::Byte, seq![20u8]);
    assert(w2.data =~= seq![10u8, 20, 0, 0]);
    let w3 = w2.put(Lane::Byte, seq![30u8]);
    assert(w3.data =~= seq![10u8, 20, 30, 0]);
    assert(crate::format::put_attrs(w0, e, none) == w0);
    assert(crate::format::put_attrs(w1, e, none) == w1);
    assert(crate::format::put_attrs(w2, e, none) == w2);
    assert(crate::format::put_attrs(w3, e, none) == w3);
    assert(crate::format::put_nodes(w0, e, no_nodes) == w0);
    assert(crate::format::put_nodes(w1, e, no_nodes) == w1);
    assert(crate::format::put_nodes(w2, e, no_nodes) == w2);
    assert(crate::format::put_nodes(w3, e, no_nodes) == w3);
    assert(put_node(w0, e, a) == w1);
    assert(put_node(w1, e, b) == w2);
    assert(put_node(w2, e, c) == w3);
    assert(seq![a].drop_last() =~= no_nodes && seq![a].last() == a);
    assert(seq![a, b].drop_last() =~= seq![a] && seq![a, b].last() == b);
    assert(t.children.drop_last() =~= seq![a, b] && t.children.last() == c);
    assert(crate::format::put_nodes(w0, e, seq![a]) == w1);
    assert(crate::format::put_nodes(w0, e, seq![a, b]) == w2);
    assert(crate::format::put_nodes(w0, e, t.children) == w3);
}

/// An array of the three 16-bit numbers 1, 2 and 3 is written as its
/// length in bytes and its six bytes, filled up to eight, and leaves the
/// three cursors at the end.
pub proof fn lemma_array_block()
    ensures
        DataState::start().put_value(
            EncodingType::UTF_8,
            ValueView::Array(
                StandardType::U16,
                seq![
                    ValueView::Fixed(StandardType::U16, seq![1int]),
                    ValueView::Fixed(StandardType::U16, seq![2int]),
                    ValueView::Fixed(StandardType::U16, seq![3int]),
                ],
            ),
        ) == (DataState {
            data: seq![
                0x00u8, 0x00, 0x00, 0x06, 0x00, 0x01, 0x00, 0x02, 0x00, 0x03, 0x00, 0x00,
            ],
            cursors: Cursors { byte: 12, word: 12, dword: 12 },
        }),
{
    lemma_bounds();
    lemma_length_bytes(6);
    reveal_with_fuel(be_bytes, 3);
    reveal_with_fuel(elems_bytes, 2);
    reveal_with_fuel(crate::value::payloads, 4);
    let one = ValueView::Fixed(StandardType::U16, seq![1int]);
    let two = ValueView::Fixed(StandardType::U16, seq![2int]);
    let three = ValueView::Fixed(StandardType::U16, seq![3int]);
    let vs = seq![one, two, three];
    assert(seq![1int].drop_last() =~= Seq::<int>::empty());
    assert(seq![2int].drop_last() =~= Seq::<int>::empty());
    assert(seq![3int].drop_last() =~= Seq::<int>::empty());
    assert(one.payload().unwrap() =~= seq![0u8, 1]);
    assert(two.payload().unwrap() =~= seq![0u8, 2]);
    assert(three.payload().unwrap() =~= seq![0u8, 3]);
    assert(seq![one].drop_last() =~= Seq::<ValueView>::empty() && seq![one].last() == one);
    assert(seq![one, two].drop_last() =~= seq![one] && seq![one, two].last() == two);
    assert(vs.drop_last() =~= seq![one, two] && vs.last() == three);
    assert(crate::value::payloads(seq![one]).unwrap() =~= seq![0u8, 1]);
    assert(crate::value::payloads(seq![one, two]).unwrap() =~= seq![0u8, 1, 0, 2]);
    assert(crate::value::payloads(vs).unwrap() =~= seq![0u8, 1, 0, 2, 0, 3]);
    assert(align4(4) == 4 && align4(6) == 8);
    let w1 = DataState::start().put(Lane::Dword, seq![0u8, 0, 0, 6]);
    assert(w1.data =~= seq![0u8, 0, 0, 6]);
    let w2 = w1.put(Lane::Dword, seq![0u8, 1, 0, 2, 0, 3]);
    assert(w2.data =~= seq![0u8, 0, 0, 6, 0, 1, 0, 2, 0, 3, 0, 0]);
}

/// The address 127.0.0.1 is written as its four bytes.
pub proof fn lemma_address_bytes()
    ensures
        DataState::start().put_value(
            EncodingType::UTF_8,
            ValueView::Fixed(StandardType::Ip4, seq![127int, 0, 0, 1]),
        ).data == seq![0x7Fu8, 0x00, 0x00, 0x01],
{
    lemma_bounds();
    reveal_with_fuel(be_bytes, 2);
    reveal_with_fuel(elems_bytes, 5);
    let es = seq![127int, 0, 0, 1];
    assert(es.drop_last() =~= seq![127int, 0, 0]);
    assert(seq![127int, 0, 0].drop_last() =~= seq![127int, 0]);
    assert(seq![127int, 0].drop_last() =~= seq![127int]);
    assert(seq![127int].drop_last() =~= Seq::<int>::empty());
    assert(elems_bytes(1, seq![127int]) =~= seq![0x7Fu8]);
    assert(elems_bytes(1, seq![127int, 0]) =~= seq![0x7Fu8, 0]);
    assert(elems_bytes(1, seq![127int, 0, 0]) =~= seq![0x7Fu8, 0, 0]);
    assert(elems_bytes(1, es) =~= seq![0x7Fu8, 0, 0, 1]);
    assert(align4(4) == 4);
    let w = DataState::start().put(Lane::Dword, seq![0x7Fu8, 0, 0, 1]);
    assert(w.data =~= seq![0x7Fu8, 0, 0, 1]);
}

/// The element `x` with the attributes `a` and `b`, in that order.
pub open spec fn attribute_tree() -> NodeView {
    NodeView {
        key: seq!['x'],
        attributes: seq![(seq!['a'], seq!['1']), (seq!['b'], seq!['2'])],
        children: Seq::empty(),
        value: None,
    }
}

/// The document of that element: the name of `a` stands before the name
/// of `b`, and the value of `a` before the value of `b`.
pub open spec fn attribute_document() -> Seq<u8> {
    seq![
        0xA0u8, 0x42, 0x80, 0x7F, 0x00, 0x00, 0x00, 0x0C,
        0x01, 0x01, 0xEC, 0x2E, 0x01, 0x90, 0x2E, 0x01, 0x94, 0xBE, 0xBF, 0x00,
        0x00, 0x00, 0x00, 0x02, 0x31, 0x00, 0x00, 0x00,
        0x00, 0x00, 0x00, 0x02, 0x32, 0x00, 0x00, 0x00,
    ]
}

/// The element is written as its document, and the document reads back as
/// the element, with its attributes in their order.
pub proof fn lemma_attribute_document()
    ensures
        spec_encode_binary(attribute_tree(), EncodingType::UTF_8) == Some(attribute_document()),
        spec_decode_binary(attribute_document()) == Ok::<(NodeView, EncodingType), KbinError>(
            (attribute_tree(), EncodingType::UTF_8),
        ),
{
    let t = attribute_tree();
    let e = EncodingType::UTF_8;
    let attrs = t.attributes;
    let first = seq![(seq!['a'], seq!['1'])];
    let none = Seq::<(Seq<char>, Seq<char>)>::empty();
    let no_nodes = Seq::<NodeView>::empty();
    lemma_mixed_names();
    lemma_bounds();
    lemma_length_bytes(2);
    lemma_length_bytes(12);
    // the identifier of the element
    let x = sixbit_values(seq!['x']);
    assert(sixbit_index('x') == Some(59u8));
    assert(x =~= seq![59u8]);
    assert((59u8 << 2) | (0u8 >> 4) == 0xECu8) by (bit_vector);
    assert(packed_byte(x, 0) == 0xECu8);
    assert(spec_pack(x) =~= seq![0xECu8]);
    assert(spec_sixbit_encode(seq!['x']) =~= seq![0x01u8, 0xEC]);
    // the node section
    assert(attrs.drop_last() =~= first && attrs.last() == (seq!['b'], seq!['2']));
    assert(first.drop_last() =~= none && first.last() == (seq!['a'], seq!['1']));
    assert(crate::format::attr_names_bytes(true, e, none) =~= Seq::<u8>::empty());
    assert(crate::format::attr_names_bytes(true, e, first) =~= seq![0x2Eu8, 0x01, 0x90]);
    assert(crate::format::attr_names_bytes(true, e, attrs) =~= seq![
        0x2Eu8, 0x01, 0x90, 0x2E, 0x01, 0x94,
    ]);
    assert(crate::format::nodes_bytes(true, e, no_nodes) =~= Seq::<u8>::empty());
    assert(node_bytes(true, e, t) =~= seq![
        0x01u8, 0x01, 0xEC, 0x2E, 0x01, 0x90, 0x2E, 0x01, 0x94, 0xBE,
    ]);
    let body = node_bytes(true, e, t) + seq![StandardType::FileEnd.spec_id()];
    assert(body.len() == 11);
    assert(padding(11) =~= seq![0u8]);
    assert(node_section(true, e, t) =~= seq![
        0x01u8, 0x01, 0xEC, 0x2E, 0x01, 0x90, 0x2E, 0x01, 0x94, 0xBE, 0xBF, 0x00,
    ]);
    // the data section
    assert(vstd::utf8::is_ascii_chars(seq!['1']));
    assert(vstd::utf8::is_ascii_chars(seq!['2']));
    crate::value_text::lemma_ascii_bytes(seq!['1']);
    crate::value_text::lemma_ascii_bytes(seq!['2']);
    assert(crate::encoding_type::bytes_of_chars(seq!['1']) =~= seq![0x31u8]);
    assert(crate::encoding_type::bytes_of_chars(seq!['2']) =~= seq![0x32u8]);
    assert(crate::format::text_payload(e, seq!['1']) =~= seq![0x31u8, 0x00]);
    assert(crate::format::text_payload(e, seq!['2']) =~= seq![0x32u8, 0x00]);
    assert(align4(4) == 4 && align4(2) == 4);
    let w0 = DataState::start();
    let w1 = w0.put(Lane::Dword, seq![0u8, 0, 0, 2]);
    assert(w1.data =~= seq![0u8, 0, 0, 2]);
    let w2 = w1.put(Lane::Dword, seq![0x31u8, 0x00]);
    assert(w2.data =~= seq![0u8, 0, 0, 2, 0x31, 0, 0, 0]);
    let w3 = w2.put(Lane::Dword, seq![0u8, 0, 0, 2]);
    assert(w3.data =~= seq![0u8, 0, 0, 2, 0x31, 0, 0, 0, 0, 0, 0, 2]);
    let w4 = w3.put(Lane::Dword, seq![0x32u8, 0x00]);
    assert(w4.data =~= seq![0u8, 0, 0, 2, 0x31, 0, 0, 0, 0, 0, 0, 2, 0x32, 0, 0, 0]);
    assert(crate::format::put_attrs(w0, e, none) == w0);
    assert(crate::format::put_attrs(w0, e, first) == w2);
    assert(crate::format::put_attrs(w0, e, attrs) == w4);
    assert(crate::format::put_nodes(w4, e, no_nodes) == w4);
    assert(put_node(w0, e, t) == w4);
    // the document
    assert(all_sixbit(t));
    assert(node_ok(true, e, t));
    assert(!0x80u8 == 0x7Fu8) by (bit_vector);
    assert(header_bytes(true, e, 12) =~= seq![0xA0u8, 0x42, 0x80, 0x7F, 0x00, 0x00, 0x00, 0x0C]);
    assert(spec_encode_binary(t, e).unwrap() =~= attribute_document());
    assert(seq!['a'] != seq!['b']) by {
        assert(seq!['a'][0] != seq!['b'][0]);
    }
    assert(crate::node::distinct_names(attrs));
    assert(crate::round_trip::names_distinct(t));
    crate::round_trip::lemma_unicode_round_trip(t, e);
}

} // verus!

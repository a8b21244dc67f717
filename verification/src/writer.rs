//! Writing a document in its binary form.
use vstd::prelude::*;
use crate::byte_buffer::{ByteBufferWrite, Lane};
use crate::encoding_type::EncodingType;
use crate::endian::{lemma_be_bytes_len, lemma_bounds, write_be};
use crate::error::KbinError;
use crate::format::{
    all_sixbit, attr_names_bytes, attrs_fault, head_value_fault, header_bytes, identifier_fault,
    lemma_attrs_fault, lemma_nodes_fault, node_bytes, node_fault, node_ok, node_section,
    nodes_bytes, nodes_fault, spec_encode_fault, text_fault, value_fault, put_attrs, put_node,
    put_nodes, spec_encode_binary, spec_identifier, spec_tag, text_ok, value_ok, value_tag,
    DataState, MAX_LEN, SIGNATURE, SIG_COMPRESSED, SIG_UNCOMPRESSED,
};
use indexmap::IndexMap;
use crate::node::{attribute_entries, attrs_get_index, attrs_len, nodes_view, Node};
use crate::node_types::{StandardType, ARRAY_MASK};
use crate::sixbit::{sixbit_encodable, sixbit_encode, to_sixbit_values};
use crate::value::{
    lemma_fixed_payload_len, lemma_fixed_wf, lemma_payloads_fixed, lemma_view_type, NodeView,
    Value, ValueView,
};

verus! {

/// The data stream of a writer as the model sees it.
pub open spec fn state_of(w: &ByteBufferWrite) -> DataState {
    DataState { data: w.data(), cursors: w.cursors() }
}

/// Whether an identifier can be packed six bits to the character.
pub fn is_sixbit(s: &str) -> (r: bool)
    ensures
        r == sixbit_encodable(s@),
{
    match to_sixbit_values(s) {
        Some(v) => 1 <= v.len() && v.len() <= 255,
        None => false,
    }
}

/// Whether every identifier of a tree can be packed.
pub fn can_pack(node: &Node) -> (r: bool)
    ensures
        r == all_sixbit(node@),
    decreases node,
{
    if !is_sixbit(node.key.as_str()) {
        return false;
    }
    match &node.attributes {
        Some(m) => {
            let n = attrs_len(m);
            let mut i: usize = 0;
            while i < n
                invariant
                    i <= n,
                    n == attribute_entries(*m).len(),
                    node@.attributes == attribute_entries(*m),
                    forall|j: int|
                        0 <= j < i ==> sixbit_encodable((#[trigger] node@.attributes[j]).0),
                decreases n - i,
            {
                match attrs_get_index(m, i) {
                    Some((k, _)) => {
                        if !is_sixbit(k.as_str()) {
                            assert(!sixbit_encodable(node@.attributes[i as int].0));
                            return false;
                        }
                    },
                    None => {},
                }
                i += 1;
            }
        },
        None => {},
    }
    match &node.children {
        Some(children) => {
            let mut i: usize = 0;
            while i < children.len()
                invariant
                    i <= children@.len(),
                    node.children == Some(*children),
                    node@.children.len() == children@.len(),
                    forall|j: int| 0 <= j < children@.len() ==> node@.children[j] == children@[j]@,
                    forall|j: int| 0 <= j < i ==> all_sixbit(#[trigger] node@.children[j]),
                decreases children@.len() - i,
            {
                if !can_pack(&children[i]) {
                    assert(!all_sixbit(node@.children[i as int]));
                    return false;
                }
                i += 1;
            }
        },
        None => {},
    }
    true
}

/// Appends an identifier to the node stream. Packed, an identifier that
/// cannot be packed is refused as invalid. As text, one that the encoding
/// cannot write is an encoding error, and one of no bytes or of more than
/// 64 is invalid.
pub fn write_identifier(
    nodes: &mut Vec<u8>,
    compressed: bool,
    encoding: EncodingType,
    s: &str,
) -> (r: Result<(), KbinError>)
    ensures
        match spec_identifier(compressed, encoding, s@) {
            Some(b) => r is Ok && final(nodes)@ == old(nodes)@ + b,
            None => r is Err && final(nodes)@ == old(nodes)@,
        },
        r matches Err(e) ==> Some(e) == identifier_fault(compressed, encoding, s@),
{
    if compressed {
        match sixbit_encode(s) {
            Ok(b) => {
                nodes.extend_from_slice(b.as_slice());
                Ok(())
            },
            Err(e) => Err(e),
        }
    } else {
        match encoding.encode_bytes(s) {
            Ok(b) => {
                let n = b.len();
                if n < 1 || n > 64 {
                    return Err(KbinError::InvalidIdentifier);
                }
                nodes.push(((n - 1) as u8) | 0x40u8);
                nodes.extend_from_slice(b.as_slice());
                assert(nodes@ =~= old(nodes)@ + (seq![((b@.len() - 1) as u8) | 0x40u8] + b@));
                Ok(())
            },
            Err(e) => Err(e),
        }
    }
}

/// Writes a length-prefixed block at the long cursor.
pub fn write_block(data: &mut ByteBufferWrite, bytes: &[u8])
    requires
        old(data).wf(),
        bytes@.len() <= MAX_LEN,
    ensures
        final(data).wf(),
        state_of(final(data)) == state_of(old(data)).put_block(bytes@),
{
    proof {
        lemma_be_bytes_len(bytes@.len(), 4);
    }
    data.write_u32(bytes.len() as u32);
    data.put(Lane::Dword, bytes);
}

/// Writes a text into the data stream. A text that the encoding cannot
/// write is an encoding error; one too long for the length field is a size
/// mismatch.
pub fn write_text(data: &mut ByteBufferWrite, encoding: EncodingType, s: &str) -> (r: Result<
    (),
    KbinError,
>)
    requires
        old(data).wf(),
    ensures
        final(data).wf(),
        r is Ok <==> text_ok(encoding, s@),
        r is Ok ==> state_of(final(data)) == state_of(old(data)).put_text(encoding, s@),
        r matches Err(e) ==> Some(e) == text_fault(encoding, s@) && state_of(final(data))
            == state_of(old(data)),
{
    match encoding.encode_bytes(s) {
        Ok(mut b) => {
            if b.len() >= MAX_LEN {
                return Err(
                    KbinError::SizeMismatch {
                        node_type: StandardType::String,
                        expected: MAX_LEN,
                        found: b.len(),
                    },
                );
            }
            b.push(0);
            write_block(data, b.as_slice());
            Ok(())
        },
        Err(e) => Err(e),
    }
}

/// Writes the payload of a node's value into the data stream. An attribute
/// text, a subtree, and an array whose items are not fixed-size values of
/// the array's type are no values of a node; a payload too long for the
/// length field is a size mismatch.
pub fn write_value(data: &mut ByteBufferWrite, encoding: EncodingType, v: &Value) -> (r: Result<
    (),
    KbinError,
>)
    requires
        old(data).wf(),
    ensures
        final(data).wf(),
        r is Ok <==> value_ok(encoding, v@),
        r is Ok ==> state_of(final(data)) == state_of(old(data)).put_value(encoding, v@),
        r matches Err(e) ==> Some(e) == value_fault(encoding, v@) && state_of(final(data))
            == state_of(old(data)),
{
    match v {
        Value::String(s) => write_text(data, encoding, s.as_str()),
        Value::Binary(b) => {
            if b.len() > MAX_LEN {
                return Err(
                    KbinError::SizeMismatch {
                        node_type: StandardType::Binary,
                        expected: MAX_LEN,
                        found: b.len(),
                    },
                );
            }
            write_block(data, b.as_slice());
            Ok(())
        },
        Value::Attribute(_) => Err(KbinError::InvalidState),
        Value::Node(_) => Err(KbinError::InvalidState),
        Value::Array(t, values) => {
            if t.kind().is_none() {
                return Err(KbinError::InvalidState);
            }
            let mut i: usize = 0;
            while i < values.len()
                invariant
                    i <= values@.len(),
                    t.is_fixed(),
                    v@ matches ValueView::Array(u, vs) && u == *t && vs.len() == values@.len()
                        && forall|j: int| 0 <= j < vs.len() ==> #[trigger] vs[j] == values@[j]@,
                    forall|j: int| 0 <= j < i ==> (#[trigger] values@[j])@.is_fixed_of(*t),
                    data.wf(),
                    state_of(data) == state_of(old(data)),
                decreases values@.len() - i,
            {
                let item = &values[i];
                let fixed = match item {
                    Value::String(_) => false,
                    Value::Binary(_) => false,
                    Value::Attribute(_) => false,
                    Value::Node(_) => false,
                    Value::Array(_, _) => false,
                    _ => true,
                };
                if !fixed || item.standard_type() != *t {
                    proof {
                        let vs = v@->Array_1;
                        assert(vs[i as int] == item@);
                        if fixed {
                            lemma_fixed_wf(item);
                        }
                        assert(!vs[i as int].is_fixed_of(*t));
                    }
                    return Err(KbinError::InvalidState);
                }
                proof {
                    lemma_fixed_wf(item);
                }
                i += 1;
            }
            proof {
                let vs = v@->Array_1;
                assert forall|j: int| 0 <= j < vs.len() implies (#[trigger] vs[j]).is_fixed_of(
                    *t,
                ) by {
                    assert(vs[j] == values@[j]@);
                }
                lemma_payloads_fixed(vs, *t);
            }
            match v.to_bytes() {
                Ok(payload) => {
                    if payload.len() > MAX_LEN {
                        return Err(
                            KbinError::SizeMismatch {
                                node_type: *t,
                                expected: MAX_LEN,
                                found: payload.len(),
                            },
                        );
                    }
                    write_block(data, payload.as_slice());
                    data.realign_writes();
                    Ok(())
                },
                Err(e) => Err(e),
            }
        },
        _ => {
            proof {
                lemma_fixed_wf(v);
                lemma_fixed_payload_len(v@, v.spec_standard_type());
            }
            match v.to_bytes() {
                Ok(payload) => {
                    data.write_aligned(v.standard_type(), payload.as_slice());
                    Ok(())
                },
                Err(e) => Err(e),
            }
        },
    }
}

/// Writes the start of a node: its tag and key into the node stream, its
/// value into the data stream.
pub fn write_head(
    nodes: &mut Vec<u8>,
    data: &mut ByteBufferWrite,
    compressed: bool,
    encoding: EncodingType,
    node: &Node,
) -> (r: Result<(), KbinError>)
    requires
        old(data).wf(),
    ensures
        final(data).wf(),
        r is Ok <==> spec_identifier(compressed, encoding, node@.key) is Some && (
        node@.value matches Some(v) ==> value_ok(encoding, v)),
        r is Ok ==> final(nodes)@ == old(nodes)@ + seq![
            spec_tag(value_tag(node@.value).0, value_tag(node@.value).1),
        ] + spec_identifier(compressed, encoding, node@.key).unwrap() && state_of(final(data))
            == (match node@.value {
            Some(v) => state_of(old(data)).put_value(encoding, v),
            None => state_of(old(data)),
        }),
        r matches Err(e) ==> Some(e) == (match identifier_fault(compressed, encoding, node@.key) {
            Some(f) => Some(f),
            None => head_value_fault(encoding, node@),
        }),
{
    let (t, is_array) = match &node.value {
        None => (StandardType::NodeStart, false),
        Some(v) => {
            proof {
                lemma_view_type(v);
            }
            (
                v.standard_type(),
                match v {
                    Value::Array(_, _) => true,
                    _ => false,
                },
            )
        },
    };
    assert(value_tag(node@.value) == (t, is_array));
    let tag = if is_array {
        t.id() | ARRAY_MASK
    } else {
        t.id()
    };
    nodes.push(tag);
    match write_identifier(nodes, compressed, encoding, node.key.as_str()) {
        Ok(()) => {},
        Err(e) => {
            return Err(e);
        },
    }
    match &node.value {
        Some(v) => match write_value(data, encoding, v) {
            Ok(()) => {},
            Err(e) => {
                return Err(e);
            },
        },
        None => {},
    }
    Ok(())
}

/// Every attribute has a name that fits the form of the identifiers and a
/// value that can be written.
pub open spec fn attrs_ok(
    compressed: bool,
    encoding: EncodingType,
    attrs: Seq<(Seq<char>, Seq<char>)>,
) -> bool {
    forall|i: int|
        0 <= i < attrs.len() ==> spec_identifier(compressed, encoding, (#[trigger] attrs[i]).0)
            is Some && text_ok(encoding, attrs[i].1)
}

/// Writes the attributes of a node in their order: each name behind the
/// attribute tag into the node stream, each value into the data stream.
pub fn write_attrs(
    nodes: &mut Vec<u8>,
    data: &mut ByteBufferWrite,
    compressed: bool,
    encoding: EncodingType,
    m: &IndexMap<String, String>,
) -> (r: Result<(), KbinError>)
    requires
        old(data).wf(),
    ensures
        final(data).wf(),
        r is Ok <==> attrs_ok(compressed, encoding, attribute_entries(*m)),
        r is Ok ==> final(nodes)@ == old(nodes)@ + attr_names_bytes(
            compressed,
            encoding,
            attribute_entries(*m),
        ) && state_of(final(data)) == put_attrs(
            state_of(old(data)),
            encoding,
            attribute_entries(*m),
        ),
        r matches Err(e) ==> Some(e) == attrs_fault(compressed, encoding, attribute_entries(*m)),
        r is Ok ==> attrs_fault(compressed, encoding, attribute_entries(*m)) is None,
{
    let ghost attrs = attribute_entries(*m);
    let n = attrs_len(m);
    let mut i: usize = 0;
    proof {
        assert(attrs.take(0) =~= Seq::<(Seq<char>, Seq<char>)>::empty());
    }
    while i < n
        invariant
            i <= n,
            n == attrs.len(),
            attrs == attribute_entries(*m),
            data.wf(),
            nodes@ == old(nodes)@ + attr_names_bytes(compressed, encoding, attrs.take(i as int)),
            state_of(data) == put_attrs(state_of(old(data)), encoding, attrs.take(i as int)),
            forall|j: int|
                0 <= j < i ==> spec_identifier(compressed, encoding, (#[trigger] attrs[j]).0)
                    is Some && text_ok(encoding, attrs[j].1),
            attrs_fault(compressed, encoding, attrs.take(i as int)) is None,
        decreases n - i,
    {
        proof {
            assert(attrs.take(i + 1).drop_last() =~= attrs.take(i as int));
            assert(attrs.take(i + 1).last() == attrs[i as int]);
            if attrs_fault(compressed, encoding, attrs.take(i + 1)) is Some {
                lemma_attrs_fault(compressed, encoding, attrs, i + 1);
            }
        }
        match attrs_get_index(m, i) {
            Some((k, value)) => {
                nodes.push(StandardType::Attribute.id());
                match write_identifier(nodes, compressed, encoding, k.as_str()) {
                    Ok(()) => {},
                    Err(e) => {
                        return Err(e);
                    },
                }
                match write_text(data, encoding, value.as_str()) {
                    Ok(()) => {},
                    Err(e) => {
                        return Err(e);
                    },
                }
                assert(nodes@ =~= old(nodes)@ + attr_names_bytes(
                    compressed,
                    encoding,
                    attrs.take(i + 1),
                ));
            },
            None => {},
        }
        i += 1;
    }
    proof {
        assert(attrs.take(i as int) =~= attrs);
    }
    Ok(())
}

/// Every node can be written.
pub open spec fn nodes_ok(compressed: bool, encoding: EncodingType, ns: Seq<NodeView>) -> bool {
    forall|i: int| 0 <= i < ns.len() ==> node_ok(compressed, encoding, #[trigger] ns[i])
}

/// Writes nodes one after the other.
pub fn write_children(
    nodes: &mut Vec<u8>,
    data: &mut ByteBufferWrite,
    compressed: bool,
    encoding: EncodingType,
    children: &Vec<Node>,
) -> (r: Result<(), KbinError>)
    requires
        old(data).wf(),
    ensures
        final(data).wf(),
        r is Ok <==> nodes_ok(compressed, encoding, nodes_view(children@)),
        r is Ok ==> final(nodes)@ == old(nodes)@ + nodes_bytes(
            compressed,
            encoding,
            nodes_view(children@),
        ) && state_of(final(data)) == put_nodes(
            state_of(old(data)),
            encoding,
            nodes_view(children@),
        ),
        r matches Err(e) ==> Some(e) == nodes_fault(compressed, encoding, nodes_view(children@)),
        r is Ok ==> nodes_fault(compressed, encoding, nodes_view(children@)) is None,
    decreases children,
{
    let ghost cs = nodes_view(children@);
    let mut i: usize = 0;
    proof {
        assert(cs.take(0) =~= Seq::<NodeView>::empty());
    }
    while i < children.len()
        invariant
            i <= children@.len(),
            cs == nodes_view(children@),
            data.wf(),
            nodes@ == old(nodes)@ + nodes_bytes(compressed, encoding, cs.take(i as int)),
            state_of(data) == put_nodes(state_of(old(data)), encoding, cs.take(i as int)),
            forall|j: int| 0 <= j < i ==> node_ok(compressed, encoding, #[trigger] cs[j]),
            nodes_fault(compressed, encoding, cs.take(i as int)) is None,
        decreases children@.len() - i,
    {
        proof {
            assert(cs.take(i + 1).drop_last() =~= cs.take(i as int));
            assert(cs.take(i + 1).last() == cs[i as int]);
            if nodes_fault(compressed, encoding, cs.take(i + 1)) is Some {
                lemma_nodes_fault(compressed, encoding, cs, i + 1);
            }
        }
        match write_node(nodes, data, compressed, encoding, &children[i]) {
            Ok(()) => {},
            Err(e) => {
                assert(!node_ok(compressed, encoding, cs[i as int]));
                return Err(e);
            },
        }
        assert(nodes@ =~= old(nodes)@ + nodes_bytes(compressed, encoding, cs.take(i + 1)));
        i += 1;
    }
    proof {
        assert(cs.take(i as int) =~= cs);
    }
    Ok(())
}

/// Writes a node and everything below it: into the node stream its tag and
/// key, the names of its attributes, its children and the closing tag; into
/// the data stream its value, the values of its attributes and the payloads
/// of its children.
#[verifier::rlimit(80)]
#[verifier::spinoff_prover]
pub fn write_node(
    nodes: &mut Vec<u8>,
    data: &mut ByteBufferWrite,
    compressed: bool,
    encoding: EncodingType,
    node: &Node,
) -> (r: Result<(), KbinError>)
    requires
        old(data).wf(),
    ensures
        final(data).wf(),
        r is Ok <==> node_ok(compressed, encoding, node@),
        r is Ok ==> final(nodes)@ == old(nodes)@ + node_bytes(compressed, encoding, node@)
            && state_of(final(data)) == put_node(state_of(old(data)), encoding, node@),
        r matches Err(e) ==> Some(e) == node_fault(compressed, encoding, node@),
        r is Ok ==> node_fault(compressed, encoding, node@) is None,
    decreases node,
{
    match write_head(nodes, data, compressed, encoding, node) {
        Ok(()) => {},
        Err(e) => {
            return Err(e);
        },
    }
    match &node.attributes {
        Some(m) => match write_attrs(nodes, data, compressed, encoding, m) {
            Ok(()) => {},
            Err(e) => {
                return Err(e);
            },
        },
        None => {},
    }
    match &node.children {
        Some(children) => {
            assert(nodes_view(children@) =~= node@.children);
            match write_children(nodes, data, compressed, encoding, children) {
                Ok(()) => {},
                Err(e) => {
                    return Err(e);
                },
            }
        },
        None => {},
    }
    nodes.push(StandardType::NodeEnd.id());
    proof {
        assert(nodes@ =~= old(nodes)@ + node_bytes(compressed, encoding, node@));
    }
    Ok(())
}

/// Writes a tree as a document in the given encoding. Identifiers are
/// packed where every identifier of the tree can be.
pub fn encode_binary(root: &Node, encoding: EncodingType) -> (r: Result<Vec<u8>, KbinError>)
    ensures
        match spec_encode_binary(root@, encoding) {
            Some(b) => r matches Ok(v) && v@ == b,
            None => r matches Err(e) && Some(e) == spec_encode_fault(root@, encoding),
        },
{
    let compressed = can_pack(root);
    let mut nodes: Vec<u8> = Vec::new();
    let mut data = ByteBufferWrite::new();
    match write_node(&mut nodes, &mut data, compressed, encoding, root) {
        Ok(()) => {},
        Err(e) => {
            return Err(e);
        },
    }
    nodes.push(StandardType::FileEnd.id());
    let ghost body = nodes@;
    assert(body =~= node_bytes(compressed, encoding, root@) + seq![
        StandardType::FileEnd.spec_id(),
    ]);
    let pad = (4 - nodes.len() % 4) % 4;
    let mut k: usize = 0;
    while k < pad
        invariant
            k <= pad,
            pad == (4 - body.len() % 4) % 4,
            nodes@ == body + Seq::new(k as nat, |i: int| 0u8),
        decreases pad - k,
    {
        nodes.push(0);
        assert(nodes@ =~= body + Seq::new((k + 1) as nat, |i: int| 0u8));
        k += 1;
    }
    assert(nodes@ == node_section(compressed, encoding, root@));
    if nodes.len() > MAX_LEN {
        return Err(
            KbinError::SizeMismatch {
                node_type: StandardType::NodeStart,
                expected: MAX_LEN,
                found: nodes.len(),
            },
        );
    }
    let mut out: Vec<u8> = Vec::new();
    out.push(SIGNATURE);
    out.push(
        if compressed {
            SIG_COMPRESSED
        } else {
            SIG_UNCOMPRESSED
        },
    );
    out.push(encoding.to_byte());
    out.push(!encoding.to_byte());
    proof {
        lemma_bounds();
    }
    write_be(&mut out, nodes.len() as u64, 4);
    assert(out@ =~= header_bytes(compressed, encoding, nodes@.len()));
    out.extend_from_slice(nodes.as_slice());
    let bytes = data.into_inner();
    out.extend_from_slice(bytes.as_slice());
    Ok(out)
}

} // verus!

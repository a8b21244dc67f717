//! What is written reads back: the laws of the binary form.
use vstd::prelude::*;
use crate::byte_buffer::{
    align4, keeps, lane_len_ok, lane_of, lemma_align4, lemma_keeps_trans, lemma_put, lemma_realign,
    spec_take, Cursors, Lane,
};
use crate::encoding_type::{lemma_encoding_byte, lemma_text_round_trip, EncodingType};
use crate::endian::{
    be_bytes, be_value, lemma_be_bytes_len, lemma_be_value_bytes, lemma_bounds,
};
use crate::error::KbinError;
use crate::format::{
    all_sixbit, at, attr_names_bytes, closed_top, header_bytes, node_bytes, node_ok, node_section,
    nodes_bytes, opened, padding, put_attrs, put_node, put_nodes, raw_identifier_len, reads_back,
    spec_decode_binary, spec_encode_binary, spec_finish, spec_identifier, spec_parse_header,
    spec_read_identifier, spec_read_tag, spec_read_text, spec_read_value, spec_run, spec_tag,
    spec_take_block, strip_nul, text_ok, text_payload, value_ok, value_tag, with_attr, DataState,
    Doc, ReadState, HEADER_LEN, MAX_LEN, SIGNATURE,
};
use crate::collection::{
    spec_as_node, spec_as_nodes, spec_attributes, NodeCollectionView, NodeDefinitionView,
};
use crate::node::{
    distinct_names, entries_set, index_of_name, lemma_entries_set_distinct, lemma_index_of_name,
};
use crate::text_reader::spec_decode_text;
use crate::node_types::{lemma_byte_len, lemma_from_id, StandardType};
use crate::sixbit::lemma_sixbit_round_trip;
use crate::value::{
    lemma_array_round_trip, lemma_fixed_payload_len, lemma_fixed_round_trip, NodeView, ValueView,
};

verus! {

/// A tag reads back as the type and the array flag that it was written for.
pub proof fn lemma_tag_round_trip(t: StandardType, is_array: bool)
    requires
        t != StandardType::NodeEnd,
        t != StandardType::FileEnd,
    ensures
        spec_read_tag(spec_tag(t, is_array)) == Ok::<(StandardType, bool), KbinError>(
            (t, is_array),
        ),
{
    let id = t.spec_id();
    assert(id < 64);
    assert(id & !0x40u8 == id && id & 0x40u8 == 0 && (id | 0x40u8) & !0x40u8 == id && (id | 0x40u8)
        & 0x40u8 != 0) by (bit_vector)
        requires
            id < 64,
    ;
    lemma_from_id(t);
}

/// The two closing tags read back as themselves.
pub proof fn lemma_closing_tags()
    ensures
        spec_read_tag(StandardType::NodeEnd.spec_id()) == Ok::<(StandardType, bool), KbinError>(
            (StandardType::NodeEnd, false),
        ),
        spec_read_tag(StandardType::FileEnd.spec_id()) == Ok::<(StandardType, bool), KbinError>(
            (StandardType::FileEnd, false),
        ),
{
    assert(190u8 & !0x40u8 == 190u8 && 190u8 & 0x40u8 == 0) by (bit_vector);
    assert(191u8 & !0x40u8 == 191u8 && 191u8 & 0x40u8 == 0) by (bit_vector);
    lemma_from_id(StandardType::NodeEnd);
    lemma_from_id(StandardType::FileEnd);
}

/// An identifier reads back as it was written, whatever follows it. As
/// text it must read back from its bytes in the encoding.
pub proof fn lemma_identifier_round_trip(
    compressed: bool,
    encoding: EncodingType,
    s: Seq<char>,
    rest: Seq<u8>,
)
    requires
        spec_identifier(compressed, encoding, s) is Some,
        !compressed ==> encoding.round_trips(s),
    ensures
        spec_read_identifier(
            compressed,
            encoding,
            spec_identifier(compressed, encoding, s).unwrap() + rest,
        ) == Ok::<(Seq<char>, nat), KbinError>(
            (s, spec_identifier(compressed, encoding, s).unwrap().len()),
        ),
        spec_identifier(compressed, encoding, s).unwrap().len() >= 1,
{
    let wire = spec_identifier(compressed, encoding, s).unwrap();
    if compressed {
        lemma_sixbit_round_trip(s, rest);
    } else {
        let b = encoding.spec_encode(s).unwrap();
        let n = b.len();
        let head = ((n - 1) as u8) | 0x40u8;
        let low = (n - 1) as u8;
        assert((low | 0x40u8) & 0x3Fu8 == low) by (bit_vector)
            requires
                low < 64,
        ;
        let input = wire + rest;
        assert(input[0] == head);
        assert(raw_identifier_len(input[0]) == n);
        assert(input.subrange(1, (1 + n) as int) =~= b);
    }
}

impl DataState {
    /// Writing keeps the stream well formed and changes no settled byte.
    pub proof fn lemma_put(self, lane: Lane, chunk: Seq<u8>)
        requires
            self.wf(),
            lane_len_ok(lane, chunk.len()),
        ensures
            self.put(lane, chunk).wf(),
            self.leads_to(self.put(lane, chunk)),
    {
        lemma_put(self.data, self.cursors, lane, chunk);
    }

    pub proof fn lemma_leads_trans(self, mid: DataState, later: DataState)
        requires
            self.leads_to(mid),
            mid.leads_to(later),
        ensures
            self.leads_to(later),
    {
        lemma_keeps_trans(self.data, self.cursors, mid.data, mid.cursors, later.data);
    }

    /// A stream that keeps the settled bytes of a later state keeps those
    /// of an earlier one.
    pub proof fn lemma_keeps_earlier(self, later: DataState, data: Seq<u8>)
        requires
            self.leads_to(later),
            keeps(later.data, later.cursors, data),
        ensures
            keeps(self.data, self.cursors, data),
    {
        lemma_keeps_trans(self.data, self.cursors, later.data, later.cursors, data);
    }

    /// What was written in a lane is read back at the same cursors.
    pub proof fn lemma_take_put(self, lane: Lane, chunk: Seq<u8>, data: Seq<u8>)
        requires
            self.wf(),
            lane_len_ok(lane, chunk.len()),
            keeps(self.put(lane, chunk).data, self.put(lane, chunk).cursors, data),
        ensures
            spec_take(data, self.cursors, lane, chunk.len()) == Some(
                (chunk, self.put(lane, chunk).cursors),
            ),
    {
        lemma_put(self.data, self.cursors, lane, chunk);
    }

    /// A block keeps the stream well formed and is read back.
    pub proof fn lemma_block(self, bytes: Seq<u8>)
        requires
            self.wf(),
            bytes.len() <= MAX_LEN,
        ensures
            self.put_block(bytes).wf(),
            self.leads_to(self.put_block(bytes)),
            forall|data: Seq<u8>|
                keeps(self.put_block(bytes).data, self.put_block(bytes).cursors, data)
                    ==> #[trigger] spec_take_block(data, self.cursors) == Ok::<
                    (Seq<u8>, Cursors),
                    KbinError,
                >((bytes, self.put_block(bytes).cursors)),
    {
        let len = be_bytes(bytes.len(), 4);
        lemma_be_bytes_len(bytes.len(), 4);
        lemma_bounds();
        lemma_be_value_bytes(bytes.len(), 4);
        let w1 = self.put(Lane::Dword, len);
        self.lemma_put(Lane::Dword, len);
        let w2 = w1.put(Lane::Dword, bytes);
        w1.lemma_put(Lane::Dword, bytes);
        self.lemma_leads_trans(w1, w2);
        assert forall|data: Seq<u8>| keeps(w2.data, w2.cursors, data) implies #[trigger] spec_take_block(
            data,
            self.cursors,
        ) == Ok::<(Seq<u8>, Cursors), KbinError>((bytes, w2.cursors)) by {
            w1.lemma_keeps_earlier(w2, data);
            self.lemma_take_put(Lane::Dword, len, data);
            w1.lemma_take_put(Lane::Dword, bytes, data);
        }
    }

    /// A text keeps the stream well formed and, where it reads back from
    /// its bytes in the encoding, is read back from the stream.
    pub proof fn lemma_text(self, encoding: EncodingType, s: Seq<char>)
        requires
            self.wf(),
            text_ok(encoding, s),
        ensures
            self.put_text(encoding, s).wf(),
            self.leads_to(self.put_text(encoding, s)),
            encoding.round_trips(s) ==> forall|data: Seq<u8>|
                keeps(self.put_text(encoding, s).data, self.put_text(encoding, s).cursors, data)
                    ==> #[trigger] spec_read_text(encoding, data, self.cursors) == Ok::<
                    (Seq<char>, Cursors),
                    KbinError,
                >((s, self.put_text(encoding, s).cursors)),
    {
        let payload = text_payload(encoding, s);
        self.lemma_block(payload);
        assert(strip_nul(payload) =~= encoding.spec_encode(s).unwrap());
    }

    /// The payload of a value keeps the stream well formed and is read
    /// back as the value.
    pub proof fn lemma_value(self, encoding: EncodingType, v: ValueView)
        requires
            self.wf(),
            value_ok(encoding, v),
        ensures
            self.put_value(encoding, v).wf(),
            self.leads_to(self.put_value(encoding, v)),
            (v matches ValueView::String(s) ==> encoding.round_trips(s)) ==> forall|data: Seq<u8>|
                keeps(self.put_value(encoding, v).data, self.put_value(encoding, v).cursors, data)
                    ==> #[trigger] spec_read_value(
                    encoding,
                    data,
                    self.cursors,
                    value_tag(Some(v)).0,
                    value_tag(Some(v)).1,
                ) == Ok::<(Option<ValueView>, Cursors), KbinError>(
                    (Some(v), self.put_value(encoding, v).cursors),
                ),
    {
        let w2 = self.put_value(encoding, v);
        match v {
            ValueView::Fixed(t, es) => {
                lemma_fixed_payload_len(v, t);
                lemma_fixed_round_trip(v, t);
                lemma_byte_len(t);
                let b = v.payload().unwrap();
                self.lemma_put(lane_of(b.len()), b);
                assert forall|data: Seq<u8>| keeps(w2.data, w2.cursors, data) implies #[trigger] spec_read_value(
                    encoding,
                    data,
                    self.cursors,
                    t,
                    false,
                ) == Ok::<(Option<ValueView>, Cursors), KbinError>((Some(v), w2.cursors)) by {
                    self.lemma_take_put(lane_of(b.len()), b, data);
                }
            },
            ValueView::Array(t, vs) => {
                lemma_array_round_trip(v);
                let b = v.payload().unwrap();
                self.lemma_block(b);
                let w1 = self.put_block(b);
                lemma_realign(w1.data, w1.cursors);
                self.lemma_leads_trans(w1, w2);
                assert forall|data: Seq<u8>| keeps(w2.data, w2.cursors, data) implies #[trigger] spec_read_value(
                    encoding,
                    data,
                    self.cursors,
                    t,
                    true,
                ) == Ok::<(Option<ValueView>, Cursors), KbinError>((Some(v), w2.cursors)) by {
                    w1.lemma_keeps_earlier(w2, data);
                }
            },
            ValueView::Binary(b) => {
                self.lemma_block(b);
            },
            ValueView::String(s) => {
                self.lemma_text(encoding, s);
            },
            _ => {},
        }
    }
}

/// Bytes that stand at a place stand there in two parts.
pub proof fn lemma_at_split(input: Seq<u8>, pos: int, a: Seq<u8>, b: Seq<u8>)
    requires
        at(input, pos, a + b),
    ensures
        at(input, pos, a),
        at(input, pos + a.len(), b),
{
    let whole = input.subrange(pos, pos + (a + b).len());
    assert(input.subrange(pos, pos + a.len()) =~= whole.subrange(0, a.len() as int));
    assert(whole.subrange(0, a.len() as int) =~= a);
    assert(input.subrange(pos + a.len(), pos + a.len() + b.len()) =~= whole.subrange(
        a.len() as int,
        (a + b).len() as int,
    ));
    assert(whole.subrange(a.len() as int, (a + b).len() as int) =~= b);
}

/// Bytes that stand at a place are the start of what follows that place.
pub proof fn lemma_at_skip(input: Seq<u8>, pos: int, a: Seq<u8>)
    requires
        at(input, pos, a),
    ensures
        input.skip(pos) == a + input.skip(pos + a.len()),
        a.len() >= 1 ==> input[pos] == a[0],
{
    assert(input.skip(pos) =~= input.subrange(pos, pos + a.len()) + input.skip(pos + a.len()));
    if a.len() >= 1 {
        assert(input.subrange(pos, pos + a.len())[0] == input[pos]);
    }
}

/// The stack after a node became the last child of the top node.
pub open spec fn with_child(stack: Seq<NodeView>, n: NodeView) -> Seq<NodeView>
    recommends
        stack.len() >= 1,
{
    stack.drop_last().push(
        NodeView { children: stack.last().children.push(n), ..stack.last() },
    )
}

/// One step of reading: a tag that opens a node.
pub proof fn lemma_step_open(
    doc: Doc,
    stack: Seq<NodeView>,
    st: ReadState,
    t: StandardType,
    is_array: bool,
    name: Seq<char>,
    used: nat,
    value: Option<ValueView>,
    c: Cursors,
)
    requires
        st.npos < doc.nodes.len(),
        spec_read_tag(doc.nodes[st.npos as int]) == Ok::<(StandardType, bool), KbinError>(
            (t, is_array),
        ),
        t != StandardType::NodeEnd,
        t != StandardType::FileEnd,
        t != StandardType::Attribute,
        spec_read_identifier(doc.compressed, doc.encoding, doc.nodes.skip((st.npos + 1) as int)) == Ok::<
            (Seq<char>, nat),
            KbinError,
        >((name, used)),
        spec_read_value(doc.encoding, doc.data, st.cursors, t, is_array) == Ok::<
            (Option<ValueView>, Cursors),
            KbinError,
        >((value, c)),
    ensures
        spec_run(doc, stack, st) == spec_run(
            doc,
            stack.push(opened(name, value)),
            ReadState { npos: st.npos + 1 + used, cursors: c },
        ),
{
    reveal(spec_run);
}

/// One step of reading: an attribute of the top node.
pub proof fn lemma_step_attr(
    doc: Doc,
    stack: Seq<NodeView>,
    st: ReadState,
    name: Seq<char>,
    used: nat,
    value: Seq<char>,
    c: Cursors,
)
    requires
        st.npos < doc.nodes.len(),
        spec_read_tag(doc.nodes[st.npos as int]) == Ok::<(StandardType, bool), KbinError>(
            (StandardType::Attribute, false),
        ),
        stack.len() >= 1,
        stack.last().children.len() == 0,
        spec_read_identifier(doc.compressed, doc.encoding, doc.nodes.skip((st.npos + 1) as int)) == Ok::<
            (Seq<char>, nat),
            KbinError,
        >((name, used)),
        spec_read_text(doc.encoding, doc.data, st.cursors) == Ok::<
            (Seq<char>, Cursors),
            KbinError,
        >((value, c)),
    ensures
        spec_run(doc, stack, st) == spec_run(
            doc,
            with_attr(stack, name, value),
            ReadState { npos: st.npos + 1 + used, cursors: c },
        ),
{
    reveal(spec_run);
}

/// One step of reading: the closing tag of the top node.
pub proof fn lemma_step_close(doc: Doc, stack: Seq<NodeView>, st: ReadState)
    requires
        st.npos < doc.nodes.len(),
        doc.nodes[st.npos as int] == StandardType::NodeEnd.spec_id(),
        stack.len() >= 1,
    ensures
        spec_run(doc, stack, st) == if stack.len() == 1 {
            spec_finish(doc, stack[0], st.npos + 1)
        } else {
            spec_run(doc, closed_top(stack), ReadState { npos: st.npos + 1, ..st })
        },
{
    reveal(spec_run);
    lemma_closing_tags();
}

/// The names of the first attributes are the start of the names of all.
pub proof fn lemma_attr_names_prefix(
    compressed: bool,
    encoding: EncodingType,
    attrs: Seq<(Seq<char>, Seq<char>)>,
    k: int,
)
    requires
        0 <= k <= attrs.len(),
    ensures
        attr_names_bytes(compressed, encoding, attrs.take(k)).len() <= attr_names_bytes(
            compressed,
            encoding,
            attrs,
        ).len(),
        attr_names_bytes(compressed, encoding, attrs).subrange(
            0,
            attr_names_bytes(compressed, encoding, attrs.take(k)).len() as int,
        ) == attr_names_bytes(compressed, encoding, attrs.take(k)),
    decreases attrs.len(),
{
    let all = attr_names_bytes(compressed, encoding, attrs);
    if k == attrs.len() {
        assert(attrs.take(k) =~= attrs);
        assert(all.subrange(0, all.len() as int) =~= all);
    } else {
        let front = attrs.drop_last();
        lemma_attr_names_prefix(compressed, encoding, front, k);
        assert(front.take(k) =~= attrs.take(k));
        let fb = attr_names_bytes(compressed, encoding, front);
        let kb = attr_names_bytes(compressed, encoding, attrs.take(k));
        assert(all.subrange(0, kb.len() as int) =~= fb.subrange(0, kb.len() as int));
    }
}

/// The bytes of the first nodes are the start of the bytes of all.
pub proof fn lemma_nodes_prefix(
    compressed: bool,
    encoding: EncodingType,
    ns: Seq<NodeView>,
    k: int,
)
    requires
        0 <= k <= ns.len(),
    ensures
        nodes_bytes(compressed, encoding, ns.take(k)).len() <= nodes_bytes(
            compressed,
            encoding,
            ns,
        ).len(),
        nodes_bytes(compressed, encoding, ns).subrange(
            0,
            nodes_bytes(compressed, encoding, ns.take(k)).len() as int,
        ) == nodes_bytes(compressed, encoding, ns.take(k)),
    decreases ns.len(),
{
    let all = nodes_bytes(compressed, encoding, ns);
    if k == ns.len() {
        assert(ns.take(k) =~= ns);
        assert(all.subrange(0, all.len() as int) =~= all);
    } else {
        let front = ns.drop_last();
        lemma_nodes_prefix(compressed, encoding, front, k);
        assert(front.take(k) =~= ns.take(k));
        let fb = nodes_bytes(compressed, encoding, front);
        let kb = nodes_bytes(compressed, encoding, ns.take(k));
        assert(all.subrange(0, kb.len() as int) =~= fb.subrange(0, kb.len() as int));
    }
}

/// Every attribute value can be written.
pub open spec fn attr_values_ok(encoding: EncodingType, attrs: Seq<(Seq<char>, Seq<char>)>) -> bool {
    forall|i: int| 0 <= i < attrs.len() ==> text_ok(encoding, (#[trigger] attrs[i]).1)
}

/// Writing the values of attributes keeps the stream well formed and
/// changes no settled byte, from any number of them on.
pub proof fn lemma_put_attrs(
    w: DataState,
    encoding: EncodingType,
    attrs: Seq<(Seq<char>, Seq<char>)>,
    k: int,
)
    requires
        w.wf(),
        attr_values_ok(encoding, attrs),
        0 <= k <= attrs.len(),
    ensures
        put_attrs(w, encoding, attrs).wf(),
        put_attrs(w, encoding, attrs.take(k)).wf(),
        put_attrs(w, encoding, attrs.take(k)).leads_to(put_attrs(w, encoding, attrs)),
    decreases attrs.len(),
{
    if k == attrs.len() {
        assert(attrs.take(k) =~= attrs);
        if attrs.len() > 0 {
            let front = attrs.drop_last();
            assert(attr_values_ok(encoding, front)) by {
                assert forall|i: int| 0 <= i < front.len() implies text_ok(
                    encoding,
                    (#[trigger] front[i]).1,
                ) by {
                    assert(front[i] == attrs[i]);
                }
            }
            lemma_put_attrs(w, encoding, front, front.len() as int);
            assert(front.take(front.len() as int) =~= front);
            assert(text_ok(encoding, attrs.last().1));
            put_attrs(w, encoding, front).lemma_text(encoding, attrs.last().1);
        }
    } else {
        let front = attrs.drop_last();
        assert(attr_values_ok(encoding, front)) by {
            assert forall|i: int| 0 <= i < front.len() implies text_ok(
                encoding,
                (#[trigger] front[i]).1,
            ) by {
                assert(front[i] == attrs[i]);
            }
        }
        lemma_put_attrs(w, encoding, front, k);
        assert(front.take(k) =~= attrs.take(k));
        assert(text_ok(encoding, attrs.last().1));
        let wf = put_attrs(w, encoding, front);
        wf.lemma_text(encoding, attrs.last().1);
        put_attrs(w, encoding, attrs.take(k)).lemma_leads_trans(
            wf,
            put_attrs(w, encoding, attrs),
        );
    }
}

/// The values of a node's attributes can be written where the node can.
pub proof fn lemma_node_ok_attrs(compressed: bool, encoding: EncodingType, n: NodeView)
    requires
        node_ok(compressed, encoding, n),
    ensures
        attr_values_ok(encoding, n.attributes),
{
    assert forall|i: int| 0 <= i < n.attributes.len() implies text_ok(
        encoding,
        (#[trigger] n.attributes[i]).1,
    ) by {}
}

/// Writing a node keeps the stream well formed and changes no settled byte.
pub proof fn lemma_put_node(w: DataState, compressed: bool, encoding: EncodingType, n: NodeView)
    requires
        w.wf(),
        node_ok(compressed, encoding, n),
    ensures
        put_node(w, encoding, n).wf(),
        w.leads_to(put_node(w, encoding, n)),
    decreases n, 1int,
{
    let w1 = match n.value {
        Some(v) => w.put_value(encoding, v),
        None => w,
    };
    match n.value {
        Some(v) => {
            w.lemma_value(encoding, v);
        },
        None => {},
    }
    lemma_node_ok_attrs(compressed, encoding, n);
    lemma_put_attrs(w1, encoding, n.attributes, 0);
    assert(n.attributes.take(0) =~= Seq::<(Seq<char>, Seq<char>)>::empty());
    let w2 = put_attrs(w1, encoding, n.attributes);
    lemma_put_nodes(w2, compressed, encoding, n.children, 0);
    assert(n.children.take(0) =~= Seq::<NodeView>::empty());
    let w3 = put_nodes(w2, encoding, n.children);
    w1.lemma_leads_trans(w2, w3);
    w.lemma_leads_trans(w1, w3);
}

/// Writing nodes keeps the stream well formed and changes no settled byte,
/// from any number of them on.
pub proof fn lemma_put_nodes(
    w: DataState,
    compressed: bool,
    encoding: EncodingType,
    ns: Seq<NodeView>,
    k: int,
)
    requires
        w.wf(),
        forall|i: int| 0 <= i < ns.len() ==> node_ok(compressed, encoding, #[trigger] ns[i]),
        0 <= k <= ns.len(),
    ensures
        put_nodes(w, encoding, ns).wf(),
        put_nodes(w, encoding, ns.take(k)).wf(),
        put_nodes(w, encoding, ns.take(k)).leads_to(put_nodes(w, encoding, ns)),
    decreases ns, 0int,
{
    if ns.len() == 0 {
        assert(ns.take(k) =~= ns);
    } else {
        let front = ns.drop_last();
        assert forall|i: int| 0 <= i < front.len() implies node_ok(
            compressed,
            encoding,
            #[trigger] front[i],
        ) by {
            assert(front[i] == ns[i]);
        }
        let wf = put_nodes(w, encoding, front);
        if k == ns.len() {
            assert(ns.take(k) =~= ns);
            lemma_put_nodes(w, compressed, encoding, front, 0);
            lemma_put_node(wf, compressed, encoding, ns.last());
        } else {
            lemma_put_nodes(w, compressed, encoding, front, k);
            assert(front.take(k) =~= ns.take(k));
            lemma_put_node(wf, compressed, encoding, ns.last());
            put_nodes(w, encoding, ns.take(k)).lemma_leads_trans(
                wf,
                put_nodes(w, encoding, ns),
            );
        }
    }
}

/// Bytes that stand at a place have their start standing there.
pub proof fn lemma_at_prefix(input: Seq<u8>, pos: int, a: Seq<u8>, m: int)
    requires
        at(input, pos, a),
        0 <= m <= a.len(),
    ensures
        at(input, pos, a.subrange(0, m)),
{
    assert(input.subrange(pos, pos + m) =~= input.subrange(pos, pos + a.len()).subrange(0, m));
}

/// Every attribute can be written and read back: its name fits the form of
/// the identifiers, its value is a text that can be written, and both read
/// back from their bytes in the encoding.
pub open spec fn attrs_read_back(
    compressed: bool,
    encoding: EncodingType,
    attrs: Seq<(Seq<char>, Seq<char>)>,
) -> bool {
    &&& distinct_names(attrs)
    &&& forall|i: int|
        0 <= i < attrs.len() ==> spec_identifier(compressed, encoding, (#[trigger] attrs[i]).0)
            is Some && text_ok(encoding, attrs[i].1) && encoding.round_trips(attrs[i].1) && (
        !compressed ==> encoding.round_trips(attrs[i].0))
}

/// The top node of the stack with other attributes.
pub open spec fn top_with_attrs(stack: Seq<NodeView>, attrs: Seq<(Seq<char>, Seq<char>)>) -> Seq<
    NodeView,
> {
    stack.drop_last().push(NodeView { attributes: attrs, ..stack.last() })
}

/// The top node of the stack with other children.
pub open spec fn top_with_children(stack: Seq<NodeView>, ns: Seq<NodeView>) -> Seq<NodeView> {
    stack.drop_last().push(NodeView { children: ns, ..stack.last() })
}

/// Reading the attributes that were written sets them on the top node, in
/// their order.
pub proof fn lemma_run_attrs(
    doc: Doc,
    stack: Seq<NodeView>,
    base: nat,
    w: DataState,
    attrs: Seq<(Seq<char>, Seq<char>)>,
    k: int,
)
    requires
        w.wf(),
        0 <= k <= attrs.len(),
        stack.len() >= 1,
        stack.last().attributes == attrs.take(k),
        stack.last().children.len() == 0,
        attrs_read_back(doc.compressed, doc.encoding, attrs),
        at(doc.nodes, base as int, attr_names_bytes(doc.compressed, doc.encoding, attrs)),
        keeps(
            put_attrs(w, doc.encoding, attrs).data,
            put_attrs(w, doc.encoding, attrs).cursors,
            doc.data,
        ),
    ensures
        spec_run(
            doc,
            stack,
            ReadState {
                npos: base + attr_names_bytes(doc.compressed, doc.encoding, attrs.take(k)).len(),
                cursors: put_attrs(w, doc.encoding, attrs.take(k)).cursors,
            },
        ) == spec_run(
            doc,
            top_with_attrs(stack, attrs),
            ReadState {
                npos: base + attr_names_bytes(doc.compressed, doc.encoding, attrs).len(),
                cursors: put_attrs(w, doc.encoding, attrs).cursors,
            },
        ),
    decreases attrs.len() - k,
{
    let c = doc.compressed;
    let e = doc.encoding;
    if k == attrs.len() {
        assert(attrs.take(k) =~= attrs);
        assert(top_with_attrs(stack, attrs) =~= stack);
    } else {
        let all = attr_names_bytes(c, e, attrs);
        let ak = attr_names_bytes(c, e, attrs.take(k));
        let ak1 = attr_names_bytes(c, e, attrs.take(k + 1));
        let name = attrs[k].0;
        let value = attrs[k].1;
        let id = spec_identifier(c, e, name).unwrap();
        let tag = seq![StandardType::Attribute.spec_id()];
        assert(attrs.take(k + 1).drop_last() =~= attrs.take(k));
        assert(attrs.take(k + 1).last() == attrs[k]);
        assert(ak1 == ak + tag + id);
        lemma_attr_names_prefix(c, e, attrs, k + 1);
        lemma_at_prefix(doc.nodes, base as int, all, ak1.len() as int);
        lemma_at_split(doc.nodes, base as int, ak + tag, id);
        lemma_at_split(doc.nodes, base as int, ak, tag);
        let pos = base + ak.len();
        lemma_at_skip(doc.nodes, pos as int, tag);
        lemma_at_skip(doc.nodes, (pos + 1) as int, id);
        lemma_tag_round_trip(StandardType::Attribute, false);
        lemma_identifier_round_trip(c, e, name, doc.nodes.skip((pos + 1 + id.len()) as int));
        // the value in the data stream
        assert(attr_values_ok(e, attrs)) by {
            assert forall|i: int| 0 <= i < attrs.len() implies text_ok(
                e,
                (#[trigger] attrs[i]).1,
            ) by {}
        }
        lemma_put_attrs(w, e, attrs, k);
        lemma_put_attrs(w, e, attrs, k + 1);
        let wk = put_attrs(w, e, attrs.take(k));
        let wk1 = put_attrs(w, e, attrs.take(k + 1));
        assert(wk1 == wk.put_text(e, value));
        wk1.lemma_keeps_earlier(put_attrs(w, e, attrs), doc.data);
        wk.lemma_text(e, value);
        let st = ReadState { npos: pos, cursors: wk.cursors };
        lemma_step_attr(doc, stack, st, name, id.len(), value, wk1.cursors);
        // the attribute is new to the top node
        lemma_index_of_name(attrs.take(k), name);
        assert(index_of_name(attrs.take(k), name) == k) by {
            let i = index_of_name(attrs.take(k), name);
            if i < k {
                assert(attrs.take(k)[i] == attrs[i]);
                assert(attrs[i].0 != attrs[k].0);
            }
        }
        assert(entries_set(attrs.take(k), name, value) =~= attrs.take(k + 1));
        let next = with_attr(stack, name, value);
        assert(next.last().attributes == attrs.take(k + 1));
        assert(pos + 1 + id.len() == base + ak1.len());
        lemma_run_attrs(doc, next, base, w, attrs, k + 1);
        assert(top_with_attrs(next, attrs) =~= top_with_attrs(stack, attrs));
    }
}

/// Every node can be written and read back.
pub open spec fn nodes_read_back(compressed: bool, encoding: EncodingType, ns: Seq<NodeView>) -> bool {
    forall|i: int|
        0 <= i < ns.len() ==> node_ok(compressed, encoding, #[trigger] ns[i]) && reads_back(
            compressed,
            encoding,
            ns[i],
        )
}

/// Reading the nodes that were written makes them the children of the top
/// node, in their order.
pub proof fn lemma_run_children(
    doc: Doc,
    stack: Seq<NodeView>,
    base: nat,
    w: DataState,
    ns: Seq<NodeView>,
    k: int,
)
    requires
        w.wf(),
        0 <= k <= ns.len(),
        stack.len() >= 1,
        stack.last().children == ns.take(k),
        nodes_read_back(doc.compressed, doc.encoding, ns),
        at(doc.nodes, base as int, nodes_bytes(doc.compressed, doc.encoding, ns)),
        keeps(
            put_nodes(w, doc.encoding, ns).data,
            put_nodes(w, doc.encoding, ns).cursors,
            doc.data,
        ),
    ensures
        spec_run(
            doc,
            stack,
            ReadState {
                npos: base + nodes_bytes(doc.compressed, doc.encoding, ns.take(k)).len(),
                cursors: put_nodes(w, doc.encoding, ns.take(k)).cursors,
            },
        ) == spec_run(
            doc,
            top_with_children(stack, ns),
            ReadState {
                npos: base + nodes_bytes(doc.compressed, doc.encoding, ns).len(),
                cursors: put_nodes(w, doc.encoding, ns).cursors,
            },
        ),
    decreases ns, ns.len() - k,
{
    let c = doc.compressed;
    let e = doc.encoding;
    if k == ns.len() {
        assert(ns.take(k) =~= ns);
        assert(top_with_children(stack, ns) =~= stack);
    } else {
        let all = nodes_bytes(c, e, ns);
        let ck = nodes_bytes(c, e, ns.take(k));
        let ck1 = nodes_bytes(c, e, ns.take(k + 1));
        let child = ns[k];
        let cb = node_bytes(c, e, child);
        assert(ns.take(k + 1).drop_last() =~= ns.take(k));
        assert(ns.take(k + 1).last() == child);
        assert(ck1 == ck + cb);
        lemma_nodes_prefix(c, e, ns, k + 1);
        lemma_at_prefix(doc.nodes, base as int, all, ck1.len() as int);
        lemma_at_split(doc.nodes, base as int, ck, cb);
        lemma_put_nodes(w, c, e, ns, k);
        lemma_put_nodes(w, c, e, ns, k + 1);
        let wk = put_nodes(w, e, ns.take(k));
        let wk1 = put_nodes(w, e, ns.take(k + 1));
        assert(wk1 == put_node(wk, e, child));
        wk1.lemma_keeps_earlier(put_nodes(w, e, ns), doc.data);
        lemma_run_node(doc, stack, base + ck.len(), wk, child);
        let next = with_child(stack, child);
        assert(next.last().children =~= ns.take(k + 1));
        lemma_run_children(doc, next, base, w, ns, k + 1);
        assert(top_with_children(next, ns) =~= top_with_children(stack, ns));
    }
}

/// The parts of a node stand one behind the other in the node stream.
pub proof fn lemma_node_layout(
    input: Seq<u8>,
    npos: int,
    compressed: bool,
    encoding: EncodingType,
    n: NodeView,
)
    requires
        spec_identifier(compressed, encoding, n.key) is Some,
        at(input, npos, node_bytes(compressed, encoding, n)),
    ensures
        ({
            let id = spec_identifier(compressed, encoding, n.key).unwrap();
            let ab = attr_names_bytes(compressed, encoding, n.attributes);
            let cb = nodes_bytes(compressed, encoding, n.children);
            &&& node_bytes(compressed, encoding, n).len() == 1 + id.len() + ab.len() + cb.len() + 1
            &&& npos + 1 + id.len() + ab.len() + cb.len() < input.len()
            &&& input[npos] == spec_tag(value_tag(n.value).0, value_tag(n.value).1)
            &&& input.skip(npos + 1) == id + input.skip(npos + 1 + id.len())
            &&& at(input, npos + 1 + id.len(), ab)
            &&& at(input, npos + 1 + id.len() + ab.len(), cb)
            &&& input[npos + 1 + id.len() + ab.len() + cb.len()] == StandardType::NodeEnd.spec_id()
        }),
{
    let (t, is_array) = value_tag(n.value);
    let tag = seq![spec_tag(t, is_array)];
    let id = spec_identifier(compressed, encoding, n.key).unwrap();
    let ab = attr_names_bytes(compressed, encoding, n.attributes);
    let cb = nodes_bytes(compressed, encoding, n.children);
    let end = seq![StandardType::NodeEnd.spec_id()];
    assert(node_bytes(compressed, encoding, n) == tag + id + ab + cb + end);
    lemma_at_split(input, npos, tag + id + ab + cb, end);
    lemma_at_split(input, npos, tag + id + ab, cb);
    lemma_at_split(input, npos, tag + id, ab);
    lemma_at_split(input, npos, tag, id);
    lemma_at_skip(input, npos, tag);
    lemma_at_skip(input, npos + 1, id);
    lemma_at_skip(input, npos + 1 + id.len() + ab.len() + cb.len(), end);
}

/// The data stream after the value of a node.
pub open spec fn after_value(w: DataState, encoding: EncodingType, n: NodeView) -> DataState {
    match n.value {
        Some(v) => w.put_value(encoding, v),
        None => w,
    }
}

/// The data stream after each part of a node is well formed, and the value
/// of the node is read back from a stream that keeps what was written.
pub proof fn lemma_node_streams(
    w: DataState,
    compressed: bool,
    encoding: EncodingType,
    n: NodeView,
    data: Seq<u8>,
)
    requires
        w.wf(),
        node_ok(compressed, encoding, n),
        reads_back(compressed, encoding, n),
        keeps(put_node(w, encoding, n).data, put_node(w, encoding, n).cursors, data),
    ensures
        ({
            let w1 = after_value(w, encoding, n);
            let w2 = put_attrs(w1, encoding, n.attributes);
            &&& w1.wf()
            &&& w2.wf()
            &&& put_node(w, encoding, n) == put_nodes(w2, encoding, n.children)
            &&& keeps(w2.data, w2.cursors, data)
            &&& spec_read_value(
                encoding,
                data,
                w.cursors,
                value_tag(n.value).0,
                value_tag(n.value).1,
            ) == Ok::<(Option<ValueView>, Cursors), KbinError>((n.value, w1.cursors))
        }),
{
    let w1 = after_value(w, encoding, n);
    let w2 = put_attrs(w1, encoding, n.attributes);
    let w3 = put_nodes(w2, encoding, n.children);
    match n.value {
        Some(v) => {
            w.lemma_value(encoding, v);
        },
        None => {},
    }
    lemma_node_ok_attrs(compressed, encoding, n);
    lemma_put_attrs(w1, encoding, n.attributes, 0);
    assert(n.attributes.take(0) =~= Seq::<(Seq<char>, Seq<char>)>::empty());
    lemma_put_nodes(w2, compressed, encoding, n.children, 0);
    assert(n.children.take(0) =~= Seq::<NodeView>::empty());
    w2.lemma_keeps_earlier(w3, data);
    w1.lemma_keeps_earlier(w2, data);
}

/// The parts of a node that can be written and read back can be, and the
/// tag of the node opens a node.
pub proof fn lemma_parts_read_back(compressed: bool, encoding: EncodingType, n: NodeView)
    requires
        node_ok(compressed, encoding, n),
        reads_back(compressed, encoding, n),
    ensures
        attrs_read_back(compressed, encoding, n.attributes),
        nodes_read_back(compressed, encoding, n.children),
        value_tag(n.value).0 != StandardType::NodeEnd,
        value_tag(n.value).0 != StandardType::FileEnd,
        value_tag(n.value).0 != StandardType::Attribute,
        spec_identifier(compressed, encoding, n.key) is Some,
        !compressed ==> encoding.round_trips(n.key),
{
    assert forall|i: int| 0 <= i < n.attributes.len() implies spec_identifier(
        compressed,
        encoding,
        (#[trigger] n.attributes[i]).0,
    ) is Some && text_ok(encoding, n.attributes[i].1) && encoding.round_trips(n.attributes[i].1)
        && (!compressed ==> encoding.round_trips(n.attributes[i].0)) by {}
    assert forall|i: int| 0 <= i < n.children.len() implies node_ok(
        compressed,
        encoding,
        #[trigger] n.children[i],
    ) && reads_back(compressed, encoding, n.children[i]) by {}
}

/// A node that was opened and given its attributes and children is the node.
pub proof fn lemma_stack_rebuild(stack: Seq<NodeView>, n: NodeView)
    ensures
        top_with_children(
            top_with_attrs(stack.push(opened(n.key, n.value)), n.attributes),
            n.children,
        ) == stack.push(n),
        stack.len() >= 1 ==> closed_top(stack.push(n)) == with_child(stack, n),
        stack.push(opened(n.key, n.value)).last().attributes == n.attributes.take(0),
        top_with_attrs(stack.push(opened(n.key, n.value)), n.attributes).last().children
            == n.children.take(0),
{
    let s1 = stack.push(opened(n.key, n.value));
    let s2 = top_with_attrs(s1, n.attributes);
    let s3 = top_with_children(s2, n.children);
    assert(s3 =~= stack.push(n));
    if stack.len() >= 1 {
        assert(closed_top(stack.push(n)) =~= with_child(stack, n));
    }
    assert(n.attributes.take(0) =~= Seq::<(Seq<char>, Seq<char>)>::empty());
    assert(n.children.take(0) =~= Seq::<NodeView>::empty());
}

/// Reading the start of a node that was written opens the node.
pub proof fn lemma_run_open(doc: Doc, stack: Seq<NodeView>, npos: nat, w: DataState, n: NodeView)
    requires
        w.wf(),
        node_ok(doc.compressed, doc.encoding, n),
        reads_back(doc.compressed, doc.encoding, n),
        at(doc.nodes, npos as int, node_bytes(doc.compressed, doc.encoding, n)),
        keeps(
            put_node(w, doc.encoding, n).data,
            put_node(w, doc.encoding, n).cursors,
            doc.data,
        ),
    ensures
        spec_run(doc, stack, ReadState { npos, cursors: w.cursors }) == spec_run(
            doc,
            stack.push(opened(n.key, n.value)),
            ReadState {
                npos: npos + 1 + spec_identifier(doc.compressed, doc.encoding, n.key).unwrap().len(),
                cursors: after_value(w, doc.encoding, n).cursors,
            },
        ),
{
    let c = doc.compressed;
    let e = doc.encoding;
    let (t, is_array) = value_tag(n.value);
    let id = spec_identifier(c, e, n.key).unwrap();
    lemma_parts_read_back(c, e, n);
    lemma_node_layout(doc.nodes, npos as int, c, e, n);
    lemma_node_streams(w, c, e, n, doc.data);
    lemma_tag_round_trip(t, is_array);
    lemma_identifier_round_trip(c, e, n.key, doc.nodes.skip((npos + 1 + id.len()) as int));
    let st = ReadState { npos, cursors: w.cursors };
    lemma_step_open(
        doc,
        stack,
        st,
        t,
        is_array,
        n.key,
        id.len(),
        n.value,
        after_value(w, e, n).cursors,
    );
}

/// Reading a node that was written gives the node: it becomes the last
/// child of the top node or, where no node is open, the root.
pub proof fn lemma_run_node(doc: Doc, stack: Seq<NodeView>, npos: nat, w: DataState, n: NodeView)
    requires
        w.wf(),
        node_ok(doc.compressed, doc.encoding, n),
        reads_back(doc.compressed, doc.encoding, n),
        at(doc.nodes, npos as int, node_bytes(doc.compressed, doc.encoding, n)),
        keeps(
            put_node(w, doc.encoding, n).data,
            put_node(w, doc.encoding, n).cursors,
            doc.data,
        ),
    ensures
        spec_run(doc, stack, ReadState { npos, cursors: w.cursors }) == if stack.len() == 0 {
            spec_finish(doc, n, npos + node_bytes(doc.compressed, doc.encoding, n).len())
        } else {
            spec_run(
                doc,
                with_child(stack, n),
                ReadState {
                    npos: npos + node_bytes(doc.compressed, doc.encoding, n).len(),
                    cursors: put_node(w, doc.encoding, n).cursors,
                },
            )
        },
    decreases n, 0int,
{
    let c = doc.compressed;
    let e = doc.encoding;
    let id = spec_identifier(c, e, n.key).unwrap();
    let ab = attr_names_bytes(c, e, n.attributes);
    let cb = nodes_bytes(c, e, n.children);
    let pos_a = (npos + 1 + id.len()) as nat;
    let pos_c = (pos_a + ab.len()) as nat;
    let pos_e = (pos_c + cb.len()) as nat;
    let w1 = after_value(w, e, n);
    let w2 = put_attrs(w1, e, n.attributes);
    let w3 = put_nodes(w2, e, n.children);
    let stack1 = stack.push(opened(n.key, n.value));
    let stack2 = top_with_attrs(stack1, n.attributes);
    let stack3 = top_with_children(stack2, n.children);
    let r0 = spec_run(doc, stack, ReadState { npos, cursors: w.cursors });
    let r1 = spec_run(doc, stack1, ReadState { npos: pos_a, cursors: w1.cursors });
    let r2 = spec_run(doc, stack2, ReadState { npos: pos_c, cursors: w2.cursors });
    let r3 = spec_run(doc, stack3, ReadState { npos: pos_e, cursors: w3.cursors });
    lemma_parts_read_back(c, e, n);
    lemma_node_layout(doc.nodes, npos as int, c, e, n);
    lemma_node_streams(w, c, e, n, doc.data);
    lemma_stack_rebuild(stack, n);
    assert(r0 == r1) by {
        lemma_run_open(doc, stack, npos, w, n);
    }
    assert(r1 == r2) by {
        assert(put_attrs(w1, e, n.attributes.take(0)) == w1);
        assert(attr_names_bytes(c, e, n.attributes.take(0)).len() == 0);
        lemma_run_attrs(doc, stack1, pos_a, w1, n.attributes, 0);
    }
    assert(r2 == r3) by {
        assert(put_nodes(w2, e, n.children.take(0)) == w2);
        assert(nodes_bytes(c, e, n.children.take(0)).len() == 0);
        lemma_run_children(doc, stack2, pos_c, w2, n.children, 0);
    }
    lemma_step_close(doc, stack3, ReadState { npos: pos_e, cursors: w3.cursors });
}

/// The header of a document that was written describes its two sections.
pub proof fn lemma_header_round_trip(
    compressed: bool,
    encoding: EncodingType,
    nodes: Seq<u8>,
    data: Seq<u8>,
)
    requires
        nodes.len() <= MAX_LEN,
        nodes.len() % 4 == 0,
    ensures
        spec_parse_header(header_bytes(compressed, encoding, nodes.len()) + nodes + data) == Ok::<
            Doc,
            KbinError,
        >(Doc { nodes, data, compressed, encoding }),
{
    let header = header_bytes(compressed, encoding, nodes.len());
    let input = header + nodes + data;
    lemma_be_bytes_len(nodes.len(), 4);
    lemma_bounds();
    lemma_be_value_bytes(nodes.len(), 4);
    lemma_encoding_byte(encoding);
    lemma_align4(nodes.len());
    assert(header.len() == 8);
    assert(input[0] == SIGNATURE);
    assert(input[1] == header[1]);
    assert(input[2] == encoding.spec_to_byte());
    assert(input[3] == !encoding.spec_to_byte());
    assert(input.subrange(4, 8) =~= be_bytes(nodes.len(), 4));
    assert(input.subrange(HEADER_LEN as int, HEADER_LEN + nodes.len()) =~= nodes);
    assert(input.subrange(HEADER_LEN + nodes.len(), input.len() as int) =~= data);
}

/// The sections of a document that was written.
pub open spec fn written_doc(compressed: bool, encoding: EncodingType, root: NodeView) -> Doc {
    Doc {
        nodes: node_section(compressed, encoding, root),
        data: put_node(DataState::start(), encoding, root).data,
        compressed,
        encoding,
    }
}

/// Reading the sections of a document that was written gives the tree.
pub proof fn lemma_document_run(compressed: bool, encoding: EncodingType, root: NodeView)
    requires
        node_ok(compressed, encoding, root),
        reads_back(compressed, encoding, root),
    ensures
        spec_run(
            written_doc(compressed, encoding, root),
            Seq::empty(),
            ReadState { npos: 0, cursors: Cursors::start() },
        ) == Ok::<NodeView, KbinError>(root),
        node_section(compressed, encoding, root).len() % 4 == 0,
{
    let body = node_bytes(compressed, encoding, root);
    let close = seq![StandardType::FileEnd.spec_id()];
    let doc = written_doc(compressed, encoding, root);
    let start = DataState::start();
    assert(doc.nodes == body + close + padding((body + close).len()));
    assert(doc.nodes.subrange(0, body.len() as int) =~= body);
    assert(doc.nodes[body.len() as int] == StandardType::FileEnd.spec_id());
    lemma_put_node(start, compressed, encoding, root);
    lemma_run_node(doc, Seq::empty(), 0, start, root);
    lemma_closing_tags();
}

/// A document that was written reads back as the tree and the encoding it
/// was written from. This holds of every tree that can be written, has no
/// node with two attributes of one name, and whose texts read back from
/// their bytes in the encoding.
pub proof fn lemma_binary_round_trip(root: NodeView, encoding: EncodingType)
    requires
        spec_encode_binary(root, encoding) is Some,
        reads_back(all_sixbit(root), encoding, root),
    ensures
        spec_decode_binary(spec_encode_binary(root, encoding).unwrap()) == Ok::<
            (NodeView, EncodingType),
            KbinError,
        >((root, encoding)),
{
    let c = all_sixbit(root);
    let doc = written_doc(c, encoding, root);
    let input = spec_encode_binary(root, encoding).unwrap();
    lemma_document_run(c, encoding, root);
    lemma_header_round_trip(c, encoding, doc.nodes, doc.data);
    assert(input == header_bytes(c, encoding, doc.nodes.len()) + doc.nodes + doc.data);
    assert(spec_parse_header(input) == Ok::<Doc, KbinError>(doc));
}

/// No node of the tree has two attributes of one name.
pub open spec fn names_distinct(n: NodeView) -> bool
    decreases n,
{
    &&& distinct_names(n.attributes)
    &&& forall|i: int| 0 <= i < n.children.len() ==> names_distinct(#[trigger] n.children[i])
}

/// In UTF-8, ASCII and ISO-8859-1 every text that can be written reads
/// back, so a tree that can be written reads back where no node has two
/// attributes of one name.
pub proof fn lemma_reads_back(compressed: bool, encoding: EncodingType, n: NodeView)
    requires
        encoding == EncodingType::UTF_8 || encoding == EncodingType::ASCII || encoding
            == EncodingType::ISO_8859_1,
        node_ok(compressed, encoding, n),
        names_distinct(n),
    ensures
        reads_back(compressed, encoding, n),
    decreases n,
{
    if !compressed {
        lemma_text_round_trip(encoding, n.key);
    }
    match n.value {
        Some(ValueView::String(s)) => {
            lemma_text_round_trip(encoding, s);
        },
        _ => {},
    }
    assert forall|i: int| 0 <= i < n.attributes.len() implies encoding.round_trips(
        (#[trigger] n.attributes[i]).1,
    ) && (!compressed ==> encoding.round_trips(n.attributes[i].0)) by {
        assert(text_ok(encoding, n.attributes[i].1));
        lemma_text_round_trip(encoding, n.attributes[i].1);
        if !compressed {
            assert(spec_identifier(compressed, encoding, n.attributes[i].0) is Some);
            lemma_text_round_trip(encoding, n.attributes[i].0);
        }
    }
    assert forall|i: int| 0 <= i < n.children.len() implies reads_back(
        compressed,
        encoding,
        #[trigger] n.children[i],
    ) by {
        lemma_reads_back(compressed, encoding, n.children[i]);
    }
}

/// In UTF-8, ASCII and ISO-8859-1 a document that was written reads back
/// as the tree it was written from, for every tree that can be written and
/// has no node with two attributes of one name.
pub proof fn lemma_unicode_round_trip(root: NodeView, encoding: EncodingType)
    requires
        encoding == EncodingType::UTF_8 || encoding == EncodingType::ASCII || encoding
            == EncodingType::ISO_8859_1,
        spec_encode_binary(root, encoding) is Some,
        names_distinct(root),
    ensures
        spec_decode_binary(spec_encode_binary(root, encoding).unwrap()) == Ok::<
            (NodeView, EncodingType),
            KbinError,
        >((root, encoding)),
{
    lemma_reads_back(all_sixbit(root), encoding, root);
    lemma_binary_round_trip(root, encoding);
}

/// An array of `n` values of type `t` adds to the data stream its length
/// field and its `n * t.size * t.count` bytes, filled up to a multiple of
/// four. After it the three cursors are equal and stand on a multiple of
/// four.
pub proof fn lemma_array_contribution(w: DataState, encoding: EncodingType, v: ValueView)
    requires
        w.wf(),
        v is Array,
        value_ok(encoding, v),
    ensures
        w.put_value(encoding, v).data.len() == w.data.len() + align4(
            (4 + v->Array_1.len() * (v->Array_0.spec_size() * v->Array_0.spec_count())) as nat,
        ),
        w.put_value(encoding, v).cursors.byte == w.put_value(encoding, v).cursors.dword,
        w.put_value(encoding, v).cursors.word == w.put_value(encoding, v).cursors.dword,
        w.put_value(encoding, v).cursors.dword % 4 == 0,
        w.put_value(encoding, v).cursors.dword == w.put_value(encoding, v).data.len(),
{
    lemma_array_round_trip(v);
    let b = v.payload().unwrap();
    let len = be_bytes(b.len(), 4);
    lemma_be_bytes_len(b.len(), 4);
    let w1 = w.put(Lane::Dword, len);
    w.lemma_put(Lane::Dword, len);
    let w2 = w1.put(Lane::Dword, b);
    w1.lemma_put(Lane::Dword, b);
    lemma_align4(4);
    lemma_align4(b.len());
    lemma_align4(4 + b.len());
}

/// The attributes that definitions make have no name twice.
pub proof fn lemma_attributes_distinct(defs: Seq<NodeDefinitionView>)
    requires
        spec_attributes(defs) is Ok,
    ensures
        distinct_names(spec_attributes(defs)->Ok_0),
    decreases defs.len(),
{
    if defs.len() > 0 {
        lemma_attributes_distinct(defs.drop_last());
        lemma_entries_set_distinct(
            spec_attributes(defs.drop_last())->Ok_0,
            defs.last().key()->Ok_0,
            defs.last().text()->Ok_0,
        );
    }
}

/// The tree that a collection stands for has no node with two attributes of
/// one name.
pub proof fn lemma_as_node_distinct(c: NodeCollectionView)
    requires
        spec_as_node(c) is Ok,
    ensures
        names_distinct(spec_as_node(c)->Ok_0),
    decreases c, 1int,
{
    lemma_attributes_distinct(c.attributes);
    lemma_as_nodes_distinct(c.children);
}

pub proof fn lemma_as_nodes_distinct(cs: Seq<NodeCollectionView>)
    requires
        spec_as_nodes(cs) is Ok,
    ensures
        forall|i: int|
            0 <= i < spec_as_nodes(cs)->Ok_0.len() ==> names_distinct(
                #[trigger] spec_as_nodes(cs)->Ok_0[i],
            ),
    decreases cs, 0int,
{
    if cs.len() > 0 {
        lemma_as_nodes_distinct(cs.drop_last());
        lemma_as_node_distinct(cs.last());
        let front = spec_as_nodes(cs.drop_last())->Ok_0;
        let all = spec_as_nodes(cs)->Ok_0;
        assert forall|i: int| 0 <= i < all.len() implies names_distinct(#[trigger] all[i]) by {
            if i < front.len() {
                assert(all[i] == front[i]);
            }
        }
    }
}

/// The tree of a document in XML text has no node with two attributes of
/// one name.
pub proof fn lemma_decode_text_distinct(input: Seq<u8>)
    requires
        spec_decode_text(input) is Ok,
    ensures
        names_distinct(spec_decode_text(input)->Ok_0.0),
{
    let text = match crate::text_reader::spec_transcoded(input) {
        Ok(Some(t)) => vstd::utf8::encode_utf8(t),
        _ => input,
    };
    let run = crate::text_reader::spec_run_text(
        text,
        0,
        crate::text_reader::event_limit(text.len()),
        crate::text_reader::TextState { encoding: EncodingType::UTF_8, stack: Seq::empty() },
    );
    lemma_as_node_distinct(run->Ok_0->Some_0);
}

/// A tree that was read from XML text and written as a document reads back
/// from the document as it was read from the text. This holds where the
/// tree can be written and its texts read back from their bytes in the
/// encoding, which every text does in UTF-8, ASCII and ISO-8859-1.
pub proof fn lemma_cross_form(input: Seq<u8>)
    requires
        spec_decode_text(input) is Ok,
        spec_encode_binary(
            spec_decode_text(input)->Ok_0.0,
            spec_decode_text(input)->Ok_0.1,
        ) is Some,
        ({
            let (tree, encoding) = spec_decode_text(input)->Ok_0;
            ||| encoding == EncodingType::UTF_8
            ||| encoding == EncodingType::ASCII
            ||| encoding == EncodingType::ISO_8859_1
            ||| reads_back(all_sixbit(tree), encoding, tree)
        }),
    ensures
        spec_decode_binary(
            spec_encode_binary(
                spec_decode_text(input)->Ok_0.0,
                spec_decode_text(input)->Ok_0.1,
            ).unwrap(),
        ) == Ok::<(NodeView, EncodingType), KbinError>(spec_decode_text(input)->Ok_0),
{
    let (tree, encoding) = spec_decode_text(input)->Ok_0;
    lemma_decode_text_distinct(input);
    if encoding == EncodingType::UTF_8 || encoding == EncodingType::ASCII || encoding
        == EncodingType::ISO_8859_1 {
        lemma_unicode_round_trip(tree, encoding);
    } else {
        lemma_binary_round_trip(tree, encoding);
    }
}

/// No node that is open has two attributes of one name, nor a node below
/// it.
pub open spec fn stack_distinct(stack: Seq<NodeView>) -> bool {
    forall|i: int| 0 <= i < stack.len() ==> names_distinct(#[trigger] stack[i])
}

/// A node that becomes the last child of a node keeps the names of both
/// distinct.
pub proof fn lemma_child_distinct(parent: NodeView, child: NodeView)
    requires
        names_distinct(parent),
        names_distinct(child),
    ensures
        names_distinct(NodeView { children: parent.children.push(child), ..parent }),
{
    let after = NodeView { children: parent.children.push(child), ..parent };
    assert forall|i: int| 0 <= i < after.children.len() implies names_distinct(
        #[trigger] after.children[i],
    ) by {
        if i < parent.children.len() {
            assert(after.children[i] == parent.children[i]);
        }
    }
}

/// Reading a document never makes a node with two attributes of one name.
pub proof fn lemma_run_distinct(doc: Doc, stack: Seq<NodeView>, st: ReadState)
    requires
        stack_distinct(stack),
        spec_run(doc, stack, st) is Ok,
    ensures
        names_distinct(spec_run(doc, stack, st)->Ok_0),
    decreases doc.nodes.len() - st.npos,
{
    reveal(spec_run);
    let after_tag = (st.npos + 1) as nat;
    let (t, is_array) = spec_read_tag(doc.nodes[st.npos as int])->Ok_0;
    if t == StandardType::NodeEnd {
        if stack.len() == 1 {
            assert(names_distinct(stack[0]));
        } else {
            let top = stack.last();
            let below = stack[stack.len() - 2];
            assert(names_distinct(top) && names_distinct(below));
            lemma_child_distinct(below, top);
            let next = closed_top(stack);
            assert forall|i: int| 0 <= i < next.len() implies names_distinct(
                #[trigger] next[i],
            ) by {
                if i < next.len() - 1 {
                    assert(next[i] == stack[i]);
                }
            }
            lemma_run_distinct(doc, next, ReadState { npos: after_tag, ..st });
        }
    } else {
        let (name, used) = spec_read_identifier(
            doc.compressed,
            doc.encoding,
            doc.nodes.skip(after_tag as int),
        )->Ok_0;
        if t == StandardType::Attribute {
            let (value, c) = spec_read_text(doc.encoding, doc.data, st.cursors)->Ok_0;
            let top = stack.last();
            assert(names_distinct(top));
            lemma_entries_set_distinct(top.attributes, name, value);
            let next = with_attr(stack, name, value);
            assert forall|i: int| 0 <= i < next.len() implies names_distinct(
                #[trigger] next[i],
            ) by {
                if i < next.len() - 1 {
                    assert(next[i] == stack[i]);
                } else {
                    assert(next[i].children == top.children);
                }
            }
            lemma_run_distinct(doc, next, ReadState { npos: after_tag + used, cursors: c });
        } else {
            let (value, c) = spec_read_value(doc.encoding, doc.data, st.cursors, t, is_array)->Ok_0;
            let next = stack.push(opened(name, value));
            assert forall|i: int| 0 <= i < next.len() implies names_distinct(
                #[trigger] next[i],
            ) by {
                if i < stack.len() {
                    assert(next[i] == stack[i]);
                }
            }
            lemma_run_distinct(doc, next, ReadState { npos: after_tag + used, cursors: c });
        }
    }
}

/// The tree of a document has no node with two attributes of one name.
pub proof fn lemma_decode_binary_distinct(input: Seq<u8>)
    requires
        spec_decode_binary(input) is Ok,
    ensures
        names_distinct(spec_decode_binary(input)->Ok_0.0),
{
    let doc = spec_parse_header(input)->Ok_0;
    lemma_run_distinct(doc, Seq::empty(), ReadState { npos: 0, cursors: Cursors::start() });
}

/// After an array was read, the three cursors are equal and stand on a
/// multiple of four.
pub proof fn lemma_array_read_realigns(
    encoding: EncodingType,
    data: Seq<u8>,
    c: Cursors,
    t: StandardType,
)
    requires
        c.wf(),
        spec_read_value(encoding, data, c, t, true) is Ok,
    ensures
        ({
            let after = spec_read_value(encoding, data, c, t, true)->Ok_0.1;
            after.byte == after.dword && after.word == after.dword && after.dword % 4 == 0
        }),
{
    lemma_align4(4);
    let len = spec_take(data, c, Lane::Dword, 4)->Some_0.0;
    lemma_align4(be_value(len));
}

} // verus!

//! The binary form of a document: what a tree is written as, and what bytes
//! are read as.
use vstd::prelude::*;
use crate::byte_buffer::{keeps, lane_of, spec_put, spec_take, stream_wf, Cursors, Lane};
use crate::encoding_type::EncodingType;
use crate::endian::{be_bytes, be_value};
use crate::error::KbinError;
use crate::node::{distinct_names, entries_set};
use crate::node_types::{StandardType, ARRAY_MASK};
use crate::sixbit::{sixbit_encodable, spec_sixbit_decode, spec_sixbit_encode};
use crate::value::{spec_from_bytes, NodeView, ValueView};

verus! {

/// The first byte of every document.
pub const SIGNATURE: u8 = 0xA0;

/// The second byte of a document whose identifiers are packed six bits to
/// the character.
pub const SIG_COMPRESSED: u8 = 0x42;

/// The second byte of a document whose identifiers are written as text.
pub const SIG_UNCOMPRESSED: u8 = 0x45;

/// The bytes of the header.
pub const HEADER_LEN: usize = 8;

/// The greatest length that the four bytes of a length field can hold.
pub const MAX_LEN: usize = 0xFFFF_FFFF;

/// `bytes` stand in `input` at `pos`.
pub open spec fn at(input: Seq<u8>, pos: int, bytes: Seq<u8>) -> bool {
    0 <= pos && pos + bytes.len() <= input.len() && input.subrange(pos, pos + bytes.len()) == bytes
}

/// The tag byte of a type, with the array flag in bit 6.
pub open spec fn spec_tag(t: StandardType, is_array: bool) -> u8 {
    if is_array {
        t.spec_id() | ARRAY_MASK
    } else {
        t.spec_id()
    }
}

/// The type and the array flag of a tag byte.
pub open spec fn spec_read_tag(b: u8) -> Result<(StandardType, bool), KbinError> {
    match StandardType::spec_from_u8(b & !ARRAY_MASK) {
        Some(t) => Ok((t, b & ARRAY_MASK != 0)),
        None => Err(KbinError::UnknownType(b & !ARRAY_MASK)),
    }
}

/// The bytes of an identifier in the node stream. Packed, it has 1 to 255
/// characters of the six-bit alphabet. As text, it takes 1 to 64 bytes in
/// the document's encoding, behind a byte that holds their number less one
/// with bit 6 set.
pub open spec fn spec_identifier(compressed: bool, encoding: EncodingType, s: Seq<char>) -> Option<
    Seq<u8>,
> {
    if compressed {
        if sixbit_encodable(s) {
            Some(spec_sixbit_encode(s))
        } else {
            None
        }
    } else {
        match encoding.spec_encode(s) {
            Some(b) => if 1 <= b.len() <= 64 {
                Some(seq![((b.len() - 1) as u8) | 0x40u8] + b)
            } else {
                None
            },
            None => None,
        }
    }
}

/// Bytes of a text identifier, from its length byte: the low six bits
/// hold the number less one.
pub open spec fn raw_identifier_len(b: u8) -> nat {
    ((b & 0x3F) as nat) + 1
}

/// The identifier at the start of `input`, and the bytes it takes.
pub open spec fn spec_read_identifier(
    compressed: bool,
    encoding: EncodingType,
    input: Seq<u8>,
) -> Result<(Seq<char>, nat), KbinError> {
    if compressed {
        match spec_sixbit_decode(input) {
            Some((s, n)) => Ok((s, n)),
            None => Err(KbinError::EndOfStream),
        }
    } else if input.len() == 0 {
        Err(KbinError::EndOfStream)
    } else {
        let n = raw_identifier_len(input[0]);
        if input.len() < 1 + n {
            Err(KbinError::EndOfStream)
        } else {
            match encoding.spec_decode(input.subrange(1, (1 + n) as int)) {
                Some(s) => Ok((s, 1 + n)),
                None => Err(KbinError::InvalidIdentifier),
            }
        }
    }
}

/// A data stream as it is written: the bytes so far and the cursors.
pub struct DataState {
    pub data: Seq<u8>,
    pub cursors: Cursors,
}

impl DataState {
    pub open spec fn start() -> DataState {
        DataState { data: Seq::empty(), cursors: Cursors::start() }
    }

    pub open spec fn wf(self) -> bool {
        stream_wf(self.data, self.cursors)
    }

    /// The stream after `chunk` was written in a lane.
    pub open spec fn put(self, lane: Lane, chunk: Seq<u8>) -> DataState {
        DataState {
            data: spec_put(self.data, self.cursors, lane, chunk),
            cursors: self.cursors.after(lane, chunk.len()),
        }
    }

    /// The stream after a length-prefixed block: four bytes of length, then
    /// the bytes, both at the long cursor.
    pub open spec fn put_block(self, bytes: Seq<u8>) -> DataState {
        self.put(Lane::Dword, be_bytes(bytes.len(), 4)).put(Lane::Dword, bytes)
    }

    pub open spec fn realign(self) -> DataState {
        DataState { data: self.data, cursors: self.cursors.realigned() }
    }

    /// The stream after a text: a block of its bytes in the document's
    /// encoding and a closing zero byte.
    pub open spec fn put_text(self, encoding: EncodingType, s: Seq<char>) -> DataState {
        self.put_block(text_payload(encoding, s))
    }

    /// The stream after the payload of a value. A fixed-size value goes into
    /// the lane of its size; an array is a block and realigns the cursors;
    /// bytes and text are blocks.
    pub open spec fn put_value(self, encoding: EncodingType, v: ValueView) -> DataState {
        match v {
            ValueView::Fixed(t, _) => self.put(
                lane_of(v.payload().unwrap().len()),
                v.payload().unwrap(),
            ),
            ValueView::Array(_, _) => self.put_block(v.payload().unwrap()).realign(),
            ValueView::Binary(b) => self.put_block(b),
            ValueView::String(s) => self.put_text(encoding, s),
            _ => self,
        }
    }

    /// Every byte that is settled in this stream is settled in `later` and
    /// unchanged there.
    pub open spec fn leads_to(self, later: DataState) -> bool {
        &&& keeps(self.data, self.cursors, later.data)
        &&& forall|p: int| self.cursors.settled(p) ==> later.cursors.settled(p)
    }
}

/// The bytes of a text in the data stream: the text in the document's
/// encoding and a closing zero byte.
pub open spec fn text_payload(encoding: EncodingType, s: Seq<char>) -> Seq<u8> {
    encoding.spec_encode(s).unwrap().push(0u8)
}

/// A text that the data stream can hold: the encoding can write it and the
/// length fits the length field.
pub open spec fn text_ok(encoding: EncodingType, s: Seq<char>) -> bool {
    encoding.spec_encode(s) matches Some(b) && b.len() < MAX_LEN
}

/// A value that a node of a document can have.
pub open spec fn value_ok(encoding: EncodingType, v: ValueView) -> bool {
    match v {
        ValueView::Fixed(_, _) => v.wf(),
        ValueView::Array(_, _) => v.wf() && v.payload().unwrap().len() <= MAX_LEN,
        ValueView::Binary(b) => b.len() <= MAX_LEN,
        ValueView::String(s) => text_ok(encoding, s),
        ValueView::Attribute(_) => false,
        ValueView::Node(_) => false,
    }
}

/// The type and array flag that the tag of a node with this value has.
pub open spec fn value_tag(v: Option<ValueView>) -> (StandardType, bool) {
    match v {
        None => (StandardType::NodeStart, false),
        Some(v) => (v.standard_type(), v is Array),
    }
}

/// The length-prefixed block at the long cursor.
pub open spec fn spec_take_block(data: Seq<u8>, c: Cursors) -> Result<
    (Seq<u8>, Cursors),
    KbinError,
> {
    match spec_take(data, c, Lane::Dword, 4) {
        None => Err(KbinError::EndOfStream),
        Some((len, c1)) => match spec_take(data, c1, Lane::Dword, be_value(len)) {
            None => Err(KbinError::EndOfStream),
            Some((bytes, c2)) => Ok((bytes, c2)),
        },
    }
}

/// The cursors after a length-prefixed block was read, or after the
/// reading of it stopped: behind the block; behind the length where the
/// stream ends before the block does; and where they were where the stream
/// ends before the length does.
pub open spec fn block_cursors(data: Seq<u8>, c: Cursors) -> Cursors {
    match spec_take(data, c, Lane::Dword, 4) {
        None => c,
        Some((len, c1)) => match spec_take(data, c1, Lane::Dword, be_value(len)) {
            None => c1,
            Some((_, c2)) => c2,
        },
    }
}

/// The bytes of a text without the closing zero byte, if there is one.
pub open spec fn strip_nul(b: Seq<u8>) -> Seq<u8> {
    if b.len() > 0 && b.last() == 0 {
        b.drop_last()
    } else {
        b
    }
}

/// The text at the long cursor.
pub open spec fn spec_read_text(encoding: EncodingType, data: Seq<u8>, c: Cursors) -> Result<
    (Seq<char>, Cursors),
    KbinError,
> {
    match spec_take_block(data, c) {
        Err(e) => Err(e),
        Ok((b, c2)) => match encoding.spec_decode(strip_nul(b)) {
            None => Err(KbinError::EncodingError),
            Some(s) => Ok((s, c2)),
        },
    }
}

/// The value of a node whose tag has type `t` and this array flag, read at
/// the cursors; a node without a value has the tag `NodeStart`. An array
/// of a type without fixed size is no value.
pub open spec fn spec_read_value(
    encoding: EncodingType,
    data: Seq<u8>,
    c: Cursors,
    t: StandardType,
    is_array: bool,
) -> Result<(Option<ValueView>, Cursors), KbinError> {
    if is_array {
        if !t.is_fixed() {
            Err(KbinError::InvalidState)
        } else {
            match spec_take_block(data, c) {
                Err(e) => Err(e),
                Ok((b, c2)) => match spec_from_bytes(t, true, b) {
                    Err(e) => Err(e),
                    Ok(v) => Ok((v, c2.realigned())),
                },
            }
        }
    } else if t == StandardType::String {
        match spec_read_text(encoding, data, c) {
            Err(e) => Err(e),
            Ok((s, c2)) => Ok((Some(ValueView::String(s)), c2)),
        }
    } else if t == StandardType::Binary {
        match spec_take_block(data, c) {
            Err(e) => Err(e),
            Ok((b, c2)) => Ok((Some(ValueView::Binary(b)), c2)),
        }
    } else if t.is_fixed() {
        match spec_take(data, c, lane_of(t.spec_byte_len() as nat), t.spec_byte_len() as nat) {
            None => Err(KbinError::EndOfStream),
            Some((b, c2)) => match spec_from_bytes(t, false, b) {
                Err(e) => Err(e),
                Ok(v) => Ok((v, c2)),
            },
        }
    } else {
        Ok((None, c))
    }
}

/// The cursors after the value of a node was read, or after the reading of
/// it stopped at a fault. A block that was read is left behind, also where
/// its bytes are no value of the type, and an array that was read realigns
/// the cursors; a fixed-size value that the stream holds is left behind,
/// also where its bytes are no value of the type.
pub open spec fn value_cursors(data: Seq<u8>, c: Cursors, t: StandardType, is_array: bool) -> Cursors {
    if is_array {
        if !t.is_fixed() {
            c
        } else if spec_take_block(data, c) is Ok {
            block_cursors(data, c).realigned()
        } else {
            block_cursors(data, c)
        }
    } else if t == StandardType::String || t == StandardType::Binary {
        block_cursors(data, c)
    } else if t.is_fixed() {
        match spec_take(data, c, lane_of(t.spec_byte_len() as nat), t.spec_byte_len() as nat) {
            None => c,
            Some((_, c2)) => c2,
        }
    } else {
        c
    }
}

/// The names of the attributes in the node stream: each behind the
/// attribute tag.
pub open spec fn attr_names_bytes(
    compressed: bool,
    encoding: EncodingType,
    attrs: Seq<(Seq<char>, Seq<char>)>,
) -> Seq<u8>
    decreases attrs.len(),
{
    if attrs.len() == 0 {
        Seq::empty()
    } else {
        attr_names_bytes(compressed, encoding, attrs.drop_last()) + seq![
            StandardType::Attribute.spec_id(),
        ] + spec_identifier(compressed, encoding, attrs.last().0).unwrap()
    }
}

/// A node in the node stream: its tag and key, its attribute names, its
/// children and the closing tag.
pub open spec fn node_bytes(compressed: bool, encoding: EncodingType, n: NodeView) -> Seq<u8>
    decreases n,
{
    seq![spec_tag(value_tag(n.value).0, value_tag(n.value).1)] + spec_identifier(
        compressed,
        encoding,
        n.key,
    ).unwrap() + attr_names_bytes(compressed, encoding, n.attributes) + nodes_bytes(
        compressed,
        encoding,
        n.children,
    ) + seq![StandardType::NodeEnd.spec_id()]
}

/// Nodes in the node stream, one after the other.
pub open spec fn nodes_bytes(compressed: bool, encoding: EncodingType, ns: Seq<NodeView>) -> Seq<
    u8,
>
    decreases ns,
{
    if ns.len() == 0 {
        Seq::empty()
    } else {
        nodes_bytes(compressed, encoding, ns.drop_last()) + node_bytes(
            compressed,
            encoding,
            ns.last(),
        )
    }
}

/// The data stream after the values of the attributes.
pub open spec fn put_attrs(
    w: DataState,
    encoding: EncodingType,
    attrs: Seq<(Seq<char>, Seq<char>)>,
) -> DataState
    decreases attrs.len(),
{
    if attrs.len() == 0 {
        w
    } else {
        put_attrs(w, encoding, attrs.drop_last()).put_text(encoding, attrs.last().1)
    }
}

/// The data stream after the payloads of a node: its value, the values of
/// its attributes, then its children's payloads.
pub open spec fn put_node(w: DataState, encoding: EncodingType, n: NodeView) -> DataState
    decreases n,
{
    let w1 = match n.value {
        Some(v) => w.put_value(encoding, v),
        None => w,
    };
    put_nodes(put_attrs(w1, encoding, n.attributes), encoding, n.children)
}

/// The data stream after the payloads of nodes, one after the other.
pub open spec fn put_nodes(w: DataState, encoding: EncodingType, ns: Seq<NodeView>) -> DataState
    decreases ns,
{
    if ns.len() == 0 {
        w
    } else {
        put_node(put_nodes(w, encoding, ns.drop_last()), encoding, ns.last())
    }
}

/// A tree that can be written: every identifier fits its form, every value
/// is one that a node can have, and every attribute value is a text that
/// can be written.
pub open spec fn node_ok(compressed: bool, encoding: EncodingType, n: NodeView) -> bool
    decreases n,
{
    &&& spec_identifier(compressed, encoding, n.key) is Some
    &&& (n.value matches Some(v) ==> value_ok(encoding, v))
    &&& forall|i: int|
        0 <= i < n.attributes.len() ==> spec_identifier(
            compressed,
            encoding,
            (#[trigger] n.attributes[i]).0,
        ) is Some && text_ok(encoding, n.attributes[i].1)
    &&& forall|i: int|
        0 <= i < n.children.len() ==> node_ok(compressed, encoding, #[trigger] n.children[i])
}

/// Why an identifier cannot be written, if it cannot: as text it may hold
/// a character that the encoding lacks, and otherwise it is empty, too long
/// or not of the six-bit alphabet.
pub open spec fn identifier_fault(compressed: bool, encoding: EncodingType, s: Seq<char>) -> Option<
    KbinError,
> {
    if spec_identifier(compressed, encoding, s) is Some {
        None
    } else if !compressed && encoding.spec_encode(s) is None {
        Some(KbinError::EncodingError)
    } else {
        Some(KbinError::InvalidIdentifier)
    }
}

/// Why a text cannot be written, if it cannot: it holds a character that
/// the encoding lacks, or is too long for the length field.
pub open spec fn text_fault(encoding: EncodingType, s: Seq<char>) -> Option<KbinError> {
    match encoding.spec_encode(s) {
        None => Some(KbinError::EncodingError),
        Some(b) => if b.len() >= MAX_LEN {
            Some(
                KbinError::SizeMismatch {
                    node_type: StandardType::String,
                    expected: MAX_LEN,
                    found: b.len() as usize,
                },
            )
        } else {
            None
        },
    }
}

/// Why a value cannot be the value of a node, if it cannot: an attribute
/// text, a subtree and an array with an item that is no fixed-size value of
/// its type are out of place, and a payload may be too long for the length
/// field.
pub open spec fn value_fault(encoding: EncodingType, v: ValueView) -> Option<KbinError> {
    match v {
        ValueView::Fixed(_, _) => if v.wf() {
            None
        } else {
            Some(KbinError::InvalidState)
        },
        ValueView::Array(t, _) => if !v.wf() {
            Some(KbinError::InvalidState)
        } else if v.payload().unwrap().len() > MAX_LEN {
            Some(
                KbinError::SizeMismatch {
                    node_type: t,
                    expected: MAX_LEN,
                    found: v.payload().unwrap().len() as usize,
                },
            )
        } else {
            None
        },
        ValueView::Binary(b) => if b.len() > MAX_LEN {
            Some(
                KbinError::SizeMismatch {
                    node_type: StandardType::Binary,
                    expected: MAX_LEN,
                    found: b.len() as usize,
                },
            )
        } else {
            None
        },
        ValueView::String(s) => text_fault(encoding, s),
        ValueView::Attribute(_) => Some(KbinError::InvalidState),
        ValueView::Node(_) => Some(KbinError::InvalidState),
    }
}

/// The fault of the first attribute that cannot be written: of its name,
/// else of its value.
pub open spec fn attrs_fault(
    compressed: bool,
    encoding: EncodingType,
    attrs: Seq<(Seq<char>, Seq<char>)>,
) -> Option<KbinError>
    decreases attrs.len(),
{
    if attrs.len() == 0 {
        None
    } else {
        match attrs_fault(compressed, encoding, attrs.drop_last()) {
            Some(e) => Some(e),
            None => match identifier_fault(compressed, encoding, attrs.last().0) {
                Some(e) => Some(e),
                None => text_fault(encoding, attrs.last().1),
            },
        }
    }
}

/// The first fault of a node in document order: of its key, its value, its
/// attributes, then its children.
pub open spec fn node_fault(compressed: bool, encoding: EncodingType, n: NodeView) -> Option<
    KbinError,
>
    decreases n,
{
    match identifier_fault(compressed, encoding, n.key) {
        Some(e) => Some(e),
        None => match head_value_fault(encoding, n) {
            Some(e) => Some(e),
            None => match attrs_fault(compressed, encoding, n.attributes) {
                Some(e) => Some(e),
                None => nodes_fault(compressed, encoding, n.children),
            },
        },
    }
}

/// The fault of the value of a node, if it has a value with one.
pub open spec fn head_value_fault(encoding: EncodingType, n: NodeView) -> Option<KbinError> {
    match n.value {
        Some(v) => value_fault(encoding, v),
        None => None,
    }
}

/// The fault of the first node that has one.
pub open spec fn nodes_fault(compressed: bool, encoding: EncodingType, ns: Seq<NodeView>) -> Option<
    KbinError,
>
    decreases ns,
{
    if ns.len() == 0 {
        None
    } else {
        match nodes_fault(compressed, encoding, ns.drop_last()) {
            Some(e) => Some(e),
            None => node_fault(compressed, encoding, ns.last()),
        }
    }
}

/// A fault among the first attributes is the fault of all.
pub proof fn lemma_attrs_fault(
    compressed: bool,
    encoding: EncodingType,
    attrs: Seq<(Seq<char>, Seq<char>)>,
    k: int,
)
    requires
        0 <= k <= attrs.len(),
        attrs_fault(compressed, encoding, attrs.take(k)) is Some,
    ensures
        attrs_fault(compressed, encoding, attrs) == attrs_fault(compressed, encoding, attrs.take(k)),
    decreases attrs.len() - k,
{
    if k == attrs.len() {
        assert(attrs.take(k) =~= attrs);
    } else {
        assert(attrs.take(k + 1).drop_last() =~= attrs.take(k));
        lemma_attrs_fault(compressed, encoding, attrs, k + 1);
    }
}

/// A fault among the first nodes is the fault of all.
pub proof fn lemma_nodes_fault(compressed: bool, encoding: EncodingType, ns: Seq<NodeView>, k: int)
    requires
        0 <= k <= ns.len(),
        nodes_fault(compressed, encoding, ns.take(k)) is Some,
    ensures
        nodes_fault(compressed, encoding, ns) == nodes_fault(compressed, encoding, ns.take(k)),
    decreases ns.len() - k,
{
    if k == ns.len() {
        assert(ns.take(k) =~= ns);
    } else {
        assert(ns.take(k + 1).drop_last() =~= ns.take(k));
        lemma_nodes_fault(compressed, encoding, ns, k + 1);
    }
}

/// Why a tree cannot be written as a document, if it cannot: the first
/// fault of its root, or a node section too long for its length field.
pub open spec fn spec_encode_fault(root: NodeView, encoding: EncodingType) -> Option<KbinError> {
    let compressed = all_sixbit(root);
    match node_fault(compressed, encoding, root) {
        Some(e) => Some(e),
        None => if node_section(compressed, encoding, root).len() > MAX_LEN {
            Some(
                KbinError::SizeMismatch {
                    node_type: StandardType::NodeStart,
                    expected: MAX_LEN,
                    found: node_section(compressed, encoding, root).len() as usize,
                },
            )
        } else {
            None
        },
    }
}

/// Every identifier of the tree can be packed six bits to the character.
pub open spec fn all_sixbit(n: NodeView) -> bool
    decreases n,
{
    &&& sixbit_encodable(n.key)
    &&& forall|i: int| 0 <= i < n.attributes.len() ==> sixbit_encodable((#[trigger] n.attributes[i]).0)
    &&& forall|i: int| 0 <= i < n.children.len() ==> all_sixbit(#[trigger] n.children[i])
}

/// No node has two attributes of one name, and every text of the tree
/// reads back from its bytes in the encoding as it was written; where
/// identifiers are written as text, they do too.
pub open spec fn reads_back(compressed: bool, encoding: EncodingType, n: NodeView) -> bool
    decreases n,
{
    &&& distinct_names(n.attributes)
    &&& (!compressed ==> encoding.round_trips(n.key))
    &&& (n.value matches Some(ValueView::String(s)) ==> encoding.round_trips(s))
    &&& forall|i: int|
        0 <= i < n.attributes.len() ==> encoding.round_trips((#[trigger] n.attributes[i]).1) && (
        !compressed ==> encoding.round_trips(n.attributes[i].0))
    &&& forall|i: int|
        0 <= i < n.children.len() ==> reads_back(
            compressed,
            encoding,
            #[trigger] n.children[i],
        )
}

/// Zero bytes that fill `n` bytes up to a multiple of four.
pub open spec fn padding(n: nat) -> Seq<u8> {
    Seq::new(((4 - n % 4) % 4) as nat, |i: int| 0u8)
}

/// The node section of a document: the root, the closing tag of the
/// document, and zero bytes up to a multiple of four.
pub open spec fn node_section(compressed: bool, encoding: EncodingType, root: NodeView) -> Seq<u8> {
    let body = node_bytes(compressed, encoding, root) + seq![StandardType::FileEnd.spec_id()];
    body + padding(body.len())
}

/// The eight bytes of the header: the signature, the form of the
/// identifiers, the encoding and its complement, and the length of the node
/// section.
pub open spec fn header_bytes(compressed: bool, encoding: EncodingType, node_len: nat) -> Seq<u8> {
    seq![
        SIGNATURE,
        if compressed {
            SIG_COMPRESSED
        } else {
            SIG_UNCOMPRESSED
        },
        encoding.spec_to_byte(),
        !encoding.spec_to_byte(),
    ] + be_bytes(node_len, 4)
}

/// The bytes of a document. Identifiers are packed where every identifier
/// of the tree can be, and written as text otherwise. `None` where the tree
/// cannot be written or its node section is too long for its length field.
pub open spec fn spec_encode_binary(root: NodeView, encoding: EncodingType) -> Option<Seq<u8>> {
    let compressed = all_sixbit(root);
    let nodes = node_section(compressed, encoding, root);
    if node_ok(compressed, encoding, root) && nodes.len() <= MAX_LEN {
        Some(
            header_bytes(compressed, encoding, nodes.len()) + nodes + put_node(
                DataState::start(),
                encoding,
                root,
            ).data,
        )
    } else {
        None
    }
}

/// The two sections of a document and what its header says of them.
pub struct Doc {
    pub nodes: Seq<u8>,
    pub data: Seq<u8>,
    pub compressed: bool,
    pub encoding: EncodingType,
}

/// Where a reader stands: in the node stream and in the data stream.
pub struct ReadState {
    pub npos: nat,
    pub cursors: Cursors,
}

/// The sections that the header of `input` describes.
pub open spec fn spec_parse_header(input: Seq<u8>) -> Result<Doc, KbinError> {
    if input.len() < HEADER_LEN {
        Err(KbinError::EndOfStream)
    } else if input[0] != SIGNATURE {
        Err(KbinError::InvalidHeader)
    } else if input[1] != SIG_COMPRESSED && input[1] != SIG_UNCOMPRESSED {
        Err(KbinError::InvalidHeader)
    } else if EncodingType::spec_from_byte(input[2]) is None || input[3] != !input[2] {
        Err(KbinError::InvalidHeader)
    } else {
        let node_len = be_value(input.subrange(4, 8));
        let data_start = HEADER_LEN + crate::byte_buffer::align4(node_len);
        if data_start > input.len() {
            Err(KbinError::EndOfStream)
        } else {
            Ok(
                Doc {
                    nodes: input.subrange(HEADER_LEN as int, HEADER_LEN + node_len),
                    data: input.subrange(data_start as int, input.len() as int),
                    compressed: input[1] == SIG_COMPRESSED,
                    encoding: EncodingType::spec_from_byte(input[2]).unwrap(),
                },
            )
        }
    }
}

/// A node that was just opened: its key and value, nothing else yet.
pub open spec fn opened(key: Seq<char>, value: Option<ValueView>) -> NodeView {
    NodeView { key, attributes: Seq::empty(), children: Seq::empty(), value }
}

/// The stack after its top node was closed and became the last child of
/// the node below it.
pub open spec fn closed_top(stack: Seq<NodeView>) -> Seq<NodeView>
    recommends
        stack.len() >= 2,
{
    let top = stack.last();
    let below = stack[stack.len() - 2];
    stack.drop_last().drop_last().push(
        NodeView { children: below.children.push(top), ..below },
    )
}

/// The stack after an attribute was set on its top node.
pub open spec fn with_attr(stack: Seq<NodeView>, name: Seq<char>, value: Seq<char>) -> Seq<
    NodeView,
>
    recommends
        stack.len() >= 1,
{
    let top = stack.last();
    stack.drop_last().push(
        NodeView { attributes: entries_set(top.attributes, name, value), ..top },
    )
}

/// What reading the document from a state gives, with the nodes that are
/// open on a stack. A tag that opens a node pushes it, an attribute is set
/// on the top node and must come before its children, the closing tag of a
/// node makes it the last child of the node below, and the closing tag of
/// the root must be followed by the closing tag of the document.
#[verifier::opaque]
pub open spec fn spec_run(doc: Doc, stack: Seq<NodeView>, st: ReadState) -> Result<
    NodeView,
    KbinError,
>
    decreases doc.nodes.len() - st.npos,
{
    if st.npos >= doc.nodes.len() {
        Err(KbinError::EndOfStream)
    } else {
        let after_tag = (st.npos + 1) as nat;
        match spec_read_tag(doc.nodes[st.npos as int]) {
            Err(e) => Err(e),
            Ok((t, is_array)) => if t == StandardType::NodeEnd {
                if stack.len() == 0 {
                    Err(KbinError::InvalidState)
                } else if stack.len() == 1 {
                    spec_finish(doc, stack[0], after_tag)
                } else {
                    spec_run(doc, closed_top(stack), ReadState { npos: after_tag, ..st })
                }
            } else if t == StandardType::FileEnd {
                if stack.len() == 0 {
                    Err(KbinError::InvalidState)
                } else {
                    Err(
                        KbinError::TypeMismatch {
                            expected: StandardType::NodeEnd,
                            found: StandardType::FileEnd,
                        },
                    )
                }
            } else {
                match spec_read_identifier(
                    doc.compressed,
                    doc.encoding,
                    doc.nodes.skip(after_tag as int),
                ) {
                    Err(e) => Err(e),
                    Ok((name, used)) => if t == StandardType::Attribute {
                        if stack.len() == 0 || stack.last().children.len() > 0 {
                            Err(KbinError::InvalidState)
                        } else {
                            match spec_read_text(doc.encoding, doc.data, st.cursors) {
                                Err(e) => Err(e),
                                Ok((value, c)) => spec_run(
                                    doc,
                                    with_attr(stack, name, value),
                                    ReadState { npos: after_tag + used, cursors: c },
                                ),
                            }
                        }
                    } else {
                        match spec_read_value(doc.encoding, doc.data, st.cursors, t, is_array) {
                            Err(e) => Err(e),
                            Ok((value, c)) => spec_run(
                                doc,
                                stack.push(opened(name, value)),
                                ReadState { npos: after_tag + used, cursors: c },
                            ),
                        }
                    },
                }
            },
        }
    }
}

/// What follows the root: the closing tag of the document.
pub open spec fn spec_finish(doc: Doc, root: NodeView, npos: nat) -> Result<NodeView, KbinError> {
    if npos >= doc.nodes.len() {
        Err(KbinError::EndOfStream)
    } else {
        match spec_read_tag(doc.nodes[npos as int]) {
            Err(e) => Err(e),
            Ok((t, _)) => if t == StandardType::FileEnd {
                Ok(root)
            } else {
                Err(KbinError::TypeMismatch { expected: StandardType::FileEnd, found: t })
            },
        }
    }
}

/// The tree and the encoding of a document.
pub open spec fn spec_decode_binary(input: Seq<u8>) -> Result<(NodeView, EncodingType), KbinError> {
    match spec_parse_header(input) {
        Err(e) => Err(e),
        Ok(doc) => match spec_run(
            doc,
            Seq::empty(),
            ReadState { npos: 0, cursors: Cursors::start() },
        ) {
            Err(e) => Err(e),
            Ok(root) => Ok((root, doc.encoding)),
        },
    }
}

} // verus!

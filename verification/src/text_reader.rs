//! Reading a document from XML text.
use vstd::prelude::*;
use vstd::string::StringSliceAdditionalSpecFns;
use vstd::utf8::{decode_utf8, encode_utf8, valid_utf8};
use crate::buffer::{buffer_new, buffer_of, growing_freeze, growing_of, growing_put};
use crate::collection::{
    definitions_view, spec_as_node, NodeCollection, NodeCollectionView, NodeData, NodeDefinition,
    NodeDefinitionView,
};
use crate::node::Node;
use crate::encoding_type::{utf8_decode, EncodingType};
use crate::error::{KbinError, KbinErrorView};
use crate::node_types::StandardType;
use crate::number_text::{parse_bounded, spec_parse_bounded};
use crate::text::str_eq;
use crate::value::{lemma_view_type, NodeView, Value, ValueView};
use crate::value_text::spec_from_text;
use crate::xml_events::{
    pairs_view, parsed_event, plain_event, read_plain_event, upcoming_event, xml_reader, XmlEvent,
    XmlEventView,
};

verus! {

/// What the attributes of a start tag say of the element: its type, the
/// number of values of an array, the number of bytes of binary data, and
/// the attributes that are the element's own.
pub struct StartInfo {
    pub node_type: Option<StandardType>,
    /// Whether the tag has the attribute `__count`.
    pub is_array: bool,
    pub count: usize,
    pub size: Option<usize>,
    pub attributes: Vec<NodeDefinition>,
}

pub struct StartInfoView {
    pub node_type: Option<StandardType>,
    pub is_array: bool,
    pub count: usize,
    pub size: Option<usize>,
    pub attributes: Seq<NodeDefinitionView>,
}

impl View for StartInfo {
    type V = StartInfoView;

    open spec fn view(&self) -> StartInfoView {
        StartInfoView {
            node_type: self.node_type,
            is_array: self.is_array,
            count: self.count,
            size: self.size,
            attributes: definitions_view(self.attributes@),
        }
    }
}

/// An element that is open: what was read of it so far.
pub struct Frame {
    pub collection: NodeCollection,
    pub count: usize,
    pub size: Option<usize>,
    /// The bytes of the element's text, as far as they were read.
    pub text: Vec<u8>,
}

pub struct FrameView {
    pub collection: NodeCollectionView,
    pub count: usize,
    pub size: Option<usize>,
    pub text: Seq<u8>,
}

impl View for Frame {
    type V = FrameView;

    open spec fn view(&self) -> FrameView {
        FrameView {
            collection: self.collection@,
            count: self.count,
            size: self.size,
            text: self.text@,
        }
    }
}

/// The views of the frames.
pub open spec fn frames_view(frames: Seq<Frame>) -> Seq<FrameView> {
    Seq::new(frames.len(), |i: int| frames[i]@)
}

/// The state of a reader: the encoding of the document and the elements
/// that are open.
pub struct TextState {
    pub encoding: EncodingType,
    pub stack: Seq<FrameView>,
}

/// What one event makes of a state.
pub enum Step {
    /// The reader goes on in a new state.
    Next(TextState),
    /// The document is read: the root, or nothing where the text held no
    /// element.
    Done(Option<NodeCollectionView>),
    Fault(KbinErrorView),
}

/// The definition of an attribute: its name and value in the encoding, the
/// value with a closing zero byte.
pub open spec fn spec_parse_attribute(encoding: EncodingType, key: Seq<char>, value: Seq<char>) -> Result<
    NodeDefinitionView,
    KbinErrorView,
> {
    match (encoding.spec_encode(key), encoding.spec_encode(value)) {
        (Some(k), Some(v)) => Ok(
            NodeDefinitionView {
                encoding,
                node_type: StandardType::Attribute,
                is_array: false,
                data: Some((k, v.push(0u8))),
            },
        ),
        _ => Err(KbinErrorView::EncodingError),
    }
}

/// What one attribute of a start tag adds: `__type` names the type,
/// `__count` makes the element an array and names the number of its values,
/// `__size` names the number of bytes of binary data; any other is an
/// attribute of the element.
pub open spec fn spec_attribute_step(
    encoding: EncodingType,
    info: StartInfoView,
    key: Seq<char>,
    value: Seq<char>,
) -> Result<StartInfoView, KbinErrorView> {
    if key == "__type"@ {
        match StandardType::spec_from_name(value) {
            Some(t) => Ok(StartInfoView { node_type: Some(t), ..info }),
            None => Err(KbinErrorView::UnknownTypeName(value)),
        }
    } else if key == "__count"@ {
        match spec_parse_bounded(encode_utf8(value), 0, 0xFFFF_FFFF) {
            Some(n) => Ok(StartInfoView { is_array: true, count: n as usize, ..info }),
            None => Err(
                KbinErrorView::StringParse { node_type: StandardType::Attribute, text: value },
            ),
        }
    } else if key == "__size"@ {
        match spec_parse_bounded(encode_utf8(value), 0, 0xFFFF_FFFF) {
            Some(n) => Ok(StartInfoView { size: Some(n as usize), ..info }),
            None => Err(
                KbinErrorView::StringParse { node_type: StandardType::Attribute, text: value },
            ),
        }
    } else {
        match spec_parse_attribute(encoding, key, value) {
            Ok(d) => Ok(StartInfoView { attributes: info.attributes.push(d), ..info }),
            Err(e) => Err(e),
        }
    }
}

/// What the attributes of a start tag say, taken in their order, or the
/// fault of the first that cannot be taken.
pub open spec fn spec_parse_attributes(
    encoding: EncodingType,
    attrs: Seq<(Seq<char>, Seq<char>)>,
) -> Result<StartInfoView, KbinErrorView>
    decreases attrs.len(),
{
    if attrs.len() == 0 {
        Ok(
            StartInfoView {
                node_type: None,
                is_array: false,
                count: 0,
                size: None,
                attributes: Seq::empty(),
            },
        )
    } else {
        match spec_parse_attributes(encoding, attrs.drop_last()) {
            Err(e) => Err(e),
            Ok(info) => spec_attribute_step(encoding, info, attrs.last().0, attrs.last().1),
        }
    }
}

/// A fault among the first attributes is the fault of all.
pub proof fn lemma_parse_attributes_fault(
    encoding: EncodingType,
    attrs: Seq<(Seq<char>, Seq<char>)>,
    k: int,
)
    requires
        0 <= k <= attrs.len(),
        spec_parse_attributes(encoding, attrs.take(k)) is Err,
    ensures
        spec_parse_attributes(encoding, attrs) == spec_parse_attributes(encoding, attrs.take(k)),
    decreases attrs.len() - k,
{
    if k == attrs.len() {
        assert(attrs.take(k) =~= attrs);
    } else {
        assert(attrs.take(k + 1).drop_last() =~= attrs.take(k));
        lemma_parse_attributes_fault(encoding, attrs, k + 1);
    }
}

/// The frame of an element that a start tag opens. An element without
/// `__type` only opens an element; one with `__count` holds an array. The
/// value of a string starts as the empty text.
pub open spec fn spec_handle_start(
    encoding: EncodingType,
    name: Seq<char>,
    attrs: Seq<(Seq<char>, Seq<char>)>,
) -> Result<FrameView, KbinErrorView> {
    match spec_parse_attributes(encoding, attrs) {
        Err(e) => Err(e),
        Ok(info) => {
            let node_type = match info.node_type {
                Some(t) => t,
                None => StandardType::NodeStart,
            };
            match encoding.spec_encode(name) {
                None => Err(KbinErrorView::EncodingError),
                Some(key) => Ok(
                    FrameView {
                        collection: NodeCollectionView {
                            base: NodeDefinitionView {
                                encoding,
                                node_type,
                                is_array: info.is_array,
                                data: Some(
                                    (
                                        key,
                                        if node_type == StandardType::String {
                                            seq![0u8]
                                        } else {
                                            Seq::empty()
                                        },
                                    ),
                                ),
                            },
                            attributes: info.attributes,
                            children: Seq::empty(),
                        },
                        count: info.count,
                        size: info.size,
                        text: Seq::empty(),
                    },
                ),
            }
        },
    }
}

/// The definition after the text of its element was read. The text of a
/// string, and of an element without a type, which it makes a string, is
/// kept in the encoding with a closing zero byte. Any other text is read as
/// a value of the type, and the payload of the value is kept; binary data
/// must have the number of bytes that `__size` names.
pub open spec fn spec_handle_text(
    def: NodeDefinitionView,
    text: Seq<char>,
    count: usize,
    size: Option<usize>,
) -> Result<NodeDefinitionView, KbinErrorView> {
    match def.data {
        None => Err(KbinErrorView::InvalidState),
        Some((key, _)) => if def.node_type == StandardType::String || def.node_type
            == StandardType::NodeStart {
            match def.encoding.spec_encode(text) {
                None => Err(KbinErrorView::EncodingError),
                Some(b) => Ok(
                    NodeDefinitionView {
                        node_type: StandardType::String,
                        data: Some((key, b.push(0u8))),
                        ..def
                    },
                ),
            }
        } else {
            match spec_from_text(def.node_type, encode_utf8(text), text, def.is_array, count) {
                Err(e) => Err(e),
                Ok(v) => if v is Binary && size is Some && v->Binary_0.len() != size.unwrap() {
                    Err(
                        KbinErrorView::SizeMismatch {
                            node_type: StandardType::Binary,
                            expected: size.unwrap(),
                            found: v->Binary_0.len() as usize,
                        },
                    )
                } else {
                    match v.payload() {
                        None => Err(KbinErrorView::InvalidState),
                        Some(p) => Ok(NodeDefinitionView { data: Some((key, p)), ..def }),
                    }
                },
            }
        },
    }
}

/// A space, a tabulator or a line break.
pub open spec fn is_space(b: u8) -> bool {
    b == 32 || b == 9 || b == 10 || b == 13
}

/// The text without the spaces at its start.
pub open spec fn trim_start(b: Seq<u8>) -> Seq<u8>
    decreases b.len(),
{
    if b.len() > 0 && is_space(b[0]) {
        trim_start(b.drop_first())
    } else {
        b
    }
}

/// The text without the spaces at its end.
pub open spec fn trim_end(b: Seq<u8>) -> Seq<u8>
    decreases b.len(),
{
    if b.len() > 0 && is_space(b.last()) {
        trim_end(b.drop_last())
    } else {
        b
    }
}

/// The text without the spaces at its start and end.
pub open spec fn trim(b: Seq<u8>) -> Seq<u8> {
    trim_end(trim_start(b))
}

/// The collection of an element that is closed: where its text, without
/// the spaces around it, is not empty, the text becomes its value.
pub open spec fn spec_close(frame: FrameView) -> Result<NodeCollectionView, KbinErrorView> {
    let t = trim(frame.text);
    if t.len() == 0 {
        Ok(frame.collection)
    } else if !valid_utf8(t) {
        Err(KbinErrorView::EncodingError)
    } else {
        match spec_handle_text(frame.collection.base, decode_utf8(t), frame.count, frame.size) {
            Err(e) => Err(e),
            Ok(def) => Ok(NodeCollectionView { base: def, ..frame.collection }),
        }
    }
}

/// A finished element becomes the last child of the element that is open,
/// or is the root of the document.
pub open spec fn spec_deliver(state: TextState, c: NodeCollectionView) -> Step {
    if state.stack.len() == 0 {
        Step::Done(Some(c))
    } else {
        let top = state.stack.last();
        Step::Next(
            TextState {
                stack: state.stack.drop_last().push(
                    FrameView {
                        collection: NodeCollectionView {
                            children: top.collection.children.push(c),
                            ..top.collection
                        },
                        ..top
                    },
                ),
                ..state
            },
        )
    }
}

/// What one event makes of a state. A start tag opens an element, a text
/// is added to the text of the open element, an end tag closes it, an
/// empty tag is an element without text, array or binary data, and the
/// declaration names the encoding. Text outside of every element must be
/// spaces. An error of the parser ends the reading.
pub open spec fn spec_step(state: TextState, event: XmlEventView) -> Step {
    match event {
        XmlEventView::Start { name, attrs } => match spec_handle_start(state.encoding, name, attrs) {
            Err(e) => Step::Fault(e),
            Ok(frame) => Step::Next(TextState { stack: state.stack.push(frame), ..state }),
        },
        XmlEventView::Empty { name, attrs } => match spec_handle_start(state.encoding, name, attrs) {
            Err(e) => Step::Fault(e),
            Ok(frame) => if frame.count != 0 || !(frame.size is None || frame.size == Some(
                0usize,
            )) {
                Step::Fault(KbinErrorView::InvalidState)
            } else {
                spec_deliver(state, frame.collection)
            },
        },
        XmlEventView::Text(s) => if state.stack.len() == 0 {
            if trim(encode_utf8(s)).len() == 0 {
                Step::Next(state)
            } else {
                Step::Fault(KbinErrorView::InvalidState)
            }
        } else {
            let top = state.stack.last();
            Step::Next(
                TextState {
                    stack: state.stack.drop_last().push(
                        FrameView { text: top.text + encode_utf8(s), ..top },
                    ),
                    ..state
                },
            )
        },
        XmlEventView::End => if state.stack.len() == 0 {
            Step::Fault(KbinErrorView::InvalidState)
        } else {
            match spec_close(state.stack.last()) {
                Err(e) => Step::Fault(e),
                Ok(c) => spec_deliver(TextState { stack: state.stack.drop_last(), ..state }, c),
            }
        },
        XmlEventView::Decl { encoding } => match encoding {
            None => Step::Next(state),
            Some(label) => match EncodingType::spec_from_label(label) {
                Some(e) => Step::Next(TextState { encoding: e, ..state }),
                None => Step::Fault(KbinErrorView::EncodingError),
            },
        },
        XmlEventView::Eof => Step::Done(None),
        XmlEventView::Other => Step::Next(state),
        XmlEventView::Fault => Step::Fault(KbinErrorView::InvalidState),
    }
}

/// What reading the events of a text from number `i` on gives, from a
/// state, within `fuel` events.
pub open spec fn spec_run_text(input: Seq<u8>, i: nat, fuel: nat, state: TextState) -> Result<
    Option<NodeCollectionView>,
    KbinErrorView,
>
    decreases fuel,
{
    if fuel == 0 {
        Err(KbinErrorView::EndOfStream)
    } else {
        match spec_step(state, plain_event(parsed_event(input, i))) {
            Step::Next(next) => spec_run_text(input, i + 1, (fuel - 1) as nat, next),
            Step::Done(r) => Ok(r),
            Step::Fault(e) => Err(e),
        }
    }
}

/// The text without the spaces at its start and end.
pub fn trim_bytes(b: &[u8]) -> (r: &[u8])
    ensures
        r@ == trim(b@),
{
    let n = b.len();
    let mut lo: usize = 0;
    assert(b@.skip(0) =~= b@);
    while lo < n && (b[lo] == 32 || b[lo] == 9 || b[lo] == 10 || b[lo] == 13)
        invariant
            lo <= n,
            n == b@.len(),
            trim_start(b@) == trim_start(b@.skip(lo as int)),
        decreases n - lo,
    {
        assert(b@.skip(lo as int).drop_first() =~= b@.skip(lo + 1));
        lo += 1;
    }
    assert(trim_start(b@) == b@.skip(lo as int));
    let ghost rest = b@.skip(lo as int);
    let mut hi: usize = n;
    assert(rest.take(n - lo) =~= rest);
    while hi > lo && (b[hi - 1] == 32 || b[hi - 1] == 9 || b[hi - 1] == 10 || b[hi - 1] == 13)
        invariant
            lo <= hi <= n,
            n == b@.len(),
            rest == b@.skip(lo as int),
            trim_end(rest) == trim_end(rest.take(hi - lo)),
        decreases hi,
    {
        assert(rest.take(hi - lo).drop_last() =~= rest.take(hi - lo - 1));
        hi -= 1;
    }
    assert(trim_end(rest) == rest.take(hi - lo));
    let r = vstd::slice::slice_subrange(b, lo, hi);
    assert(r@ =~= rest.take(hi - lo));
    r
}

/// The number of events that a reader takes of a text of `len` bytes: two
/// more than the text has bytes, as far as the machine counts.
pub open spec fn event_limit(len: nat) -> nat {
    if len + 2 <= usize::MAX {
        len + 2
    } else {
        usize::MAX as nat
    }
}

/// What a step of a reader leaves to do.
#[derive(Debug, PartialEq, Eq)]
pub enum StepResult {
    /// The reader takes the next event.
    Next,
    /// The document is read: the root, or nothing where the text held no
    /// element.
    Done(Option<NodeCollection>),
}

/// A reader of a document in XML text.
pub struct TextXmlReader<'a> {
    xml_reader: quick_xml::Reader<&'a [u8]>,
    encoding: EncodingType,
    stack: Vec<Frame>,
    fuel: usize,
    input: Ghost<Seq<u8>>,
    consumed: Ghost<nat>,
}

impl<'a> TextXmlReader<'a> {
    /// The encoding so far and the elements that are open.
    pub closed spec fn state(&self) -> TextState {
        TextState { encoding: self.encoding, stack: frames_view(self.stack@) }
    }

    /// The text that is read.
    pub closed spec fn input(&self) -> Seq<u8> {
        self.input@
    }

    /// The number of events that were taken from the parser.
    pub closed spec fn consumed(&self) -> nat {
        self.consumed@
    }

    /// The number of events that the reader still takes.
    pub closed spec fn fuel(&self) -> nat {
        self.fuel as nat
    }

    /// The parser stands behind the events that were taken.
    pub closed spec fn wf(&self) -> bool {
        forall|i: nat| #[trigger]
            upcoming_event(self.xml_reader, i) == parsed_event(self.input@, self.consumed@ + i)
    }

    /// A reader at the start of a text. Without a declaration the encoding
    /// is UTF-8. The reader takes at most two events more than the text has
    /// bytes.
    pub fn new(input: &'a [u8]) -> (r: Self)
        ensures
            r.wf(),
            r.input() == input@,
            r.consumed() == 0,
            r.fuel() == event_limit(input@.len()),
            r.state() == (TextState { encoding: EncodingType::UTF_8, stack: Seq::empty() }),
    {
        let len = input.len();
        let fuel = if len <= usize::MAX - 2 {
            len + 2
        } else {
            usize::MAX
        };
        let r = TextXmlReader {
            xml_reader: xml_reader(input),
            encoding: EncodingType::UTF_8,
            stack: Vec::new(),
            fuel,
            input: Ghost(input@),
            consumed: Ghost(0),
        };
        assert(frames_view(r.stack@) =~= Seq::<FrameView>::empty());
        r
    }

    pub fn encoding(&self) -> (r: EncodingType)
        ensures
            r == self.state().encoding,
    {
        self.encoding
    }

    /// The definition of an attribute of an element.
    pub fn parse_attribute(encoding: EncodingType, key: &str, value: &str) -> (r: Result<
        NodeDefinition,
        KbinError,
    >)
        ensures
            match spec_parse_attribute(encoding, key@, value@) {
                Ok(d) => r matches Ok(x) && x@ == d,
                Err(e) => r matches Err(f) && f@ == e,
            },
    {
        let k = match encoding.encode_bytes(key) {
            Ok(k) => k,
            Err(e) => {
                return Err(e);
            },
        };
        let v = match encoding.encode_bytes(value) {
            Ok(v) => v,
            Err(e) => {
                return Err(e);
            },
        };
        let mut v = growing_of(v.as_slice());
        // the closing zero byte of a text in the data stream
        growing_put(&mut v, 0);
        Ok(
            NodeDefinition::with_data(
                encoding,
                StandardType::Attribute,
                false,
                NodeData { key: buffer_of(k), value: growing_freeze(v) },
            ),
        )
    }

    /// What the attributes of a start tag say of the element.
    pub fn parse_attributes(encoding: EncodingType, attrs: &[(String, String)]) -> (r: Result<
        StartInfo,
        KbinError,
    >)
        ensures
            match spec_parse_attributes(encoding, pairs_view(attrs@)) {
                Ok(info) => r matches Ok(x) && x@ == info,
                Err(e) => r matches Err(f) && f@ == e,
            },
    {
        let ghost pairs = pairs_view(attrs@);
        let mut info = StartInfo {
            node_type: None,
            is_array: false,
            count: 0,
            size: None,
            attributes: Vec::new(),
        };
        let mut i: usize = 0;
        proof {
            assert(pairs.take(0) =~= Seq::<(Seq<char>, Seq<char>)>::empty());
            assert(info@.attributes =~= Seq::<NodeDefinitionView>::empty());
        }
        while i < attrs.len()
            invariant
                i <= attrs@.len(),
                pairs == pairs_view(attrs@),
                spec_parse_attributes(encoding, pairs.take(i as int)) == Ok::<
                    StartInfoView,
                    KbinErrorView,
                >(info@),
            decreases attrs@.len() - i,
        {
            let key = attrs[i].0.as_str();
            let value = attrs[i].1.as_str();
            let ghost before = info@;
            proof {
                assert(pairs.take(i + 1).drop_last() =~= pairs.take(i as int));
                assert(pairs.take(i + 1).last() == (key@, value@));
                if spec_parse_attributes(encoding, pairs.take(i + 1)) is Err {
                    lemma_parse_attributes_fault(encoding, pairs, i + 1);
                }
            }
            if str_eq(key, "__type") {
                match StandardType::from_name(value) {
                    Ok(t) => {
                        info.node_type = Some(t);
                    },
                    Err(e) => {
                        return Err(e);
                    },
                }
            } else if str_eq(key, "__count") {
                match parse_bounded(value.as_bytes(), 0, 0xFFFF_FFFF) {
                    Some(n) => {
                        info.is_array = true;
                        info.count = n as usize;
                    },
                    None => {
                        return Err(
                            KbinError::StringParse {
                                node_type: StandardType::Attribute,
                                text: value.to_owned(),
                            },
                        );
                    },
                }
            } else if str_eq(key, "__size") {
                match parse_bounded(value.as_bytes(), 0, 0xFFFF_FFFF) {
                    Some(n) => {
                        info.size = Some(n as usize);
                    },
                    None => {
                        return Err(
                            KbinError::StringParse {
                                node_type: StandardType::Attribute,
                                text: value.to_owned(),
                            },
                        );
                    },
                }
            } else {
                match Self::parse_attribute(encoding, key, value) {
                    Ok(d) => {
                        info.attributes.push(d);
                        assert(info@.attributes =~= before.attributes.push(d@));
                    },
                    Err(e) => {
                        return Err(e);
                    },
                }
            }
            assert(info@.attributes =~= spec_attribute_step(
                encoding,
                before,
                key@,
                value@,
            )->Ok_0.attributes);
            i += 1;
        }
        proof {
            assert(pairs.take(i as int) =~= pairs);
        }
        Ok(info)
    }

    /// The frame of the element that a start tag opens.
    pub fn handle_start(encoding: EncodingType, name: &str, attrs: &[(String, String)]) -> (r:
        Result<Frame, KbinError>)
        ensures
            match spec_handle_start(encoding, name@, pairs_view(attrs@)) {
                Ok(frame) => r matches Ok(x) && x@ == frame,
                Err(e) => r matches Err(f) && f@ == e,
            },
    {
        let info = match Self::parse_attributes(encoding, attrs) {
            Ok(info) => info,
            Err(e) => {
                return Err(e);
            },
        };
        let node_type = match info.node_type {
            Some(t) => t,
            None => StandardType::NodeStart,
        };
        let is_array = info.is_array;
        let key = match encoding.encode_bytes(name) {
            Ok(k) => k,
            Err(e) => {
                return Err(e);
            },
        };
        // the value is a stub until the text of the element is read
        let value = match node_type {
            StandardType::String => {
                let mut empty: Vec<u8> = Vec::new();
                empty.push(0);
                assert(empty@ =~= seq![0u8]);
                buffer_of(empty)
            },
            _ => buffer_new(),
        };
        let base = NodeDefinition::with_data(
            encoding,
            node_type,
            is_array,
            NodeData { key: buffer_of(key), value },
        );
        let collection = NodeCollection::with_attributes(base, info.attributes);
        let ghost count = info.count;
        Ok(Frame { collection, count: info.count, size: info.size, text: Vec::new() })
    }

    /// Takes the text of an element into its definition.
    pub fn handle_text(
        text: &str,
        definition: &mut NodeDefinition,
        count: usize,
        size: Option<usize>,
    ) -> (r: Result<(), KbinError>)
        ensures
            match spec_handle_text(old(definition)@, text@, count, size) {
                Ok(d) => r is Ok && final(definition)@ == d,
                Err(e) => r matches Err(f) && f@ == e && final(definition)@ == old(definition)@,
            },
    {
        if definition.data.is_none() {
            return Err(KbinError::InvalidState);
        }
        let data = match definition.node_type {
            StandardType::String | StandardType::NodeStart => {
                let data = match definition.encoding.encode_bytes(text) {
                    Ok(d) => d,
                    Err(e) => {
                        return Err(e);
                    },
                };
                let mut data = growing_of(data.as_slice());
                // the closing zero byte of a text in the data stream
                growing_put(&mut data, 0);
                growing_freeze(data)
            },
            _ => {
                let value = match Value::from_string(
                    definition.node_type,
                    text,
                    definition.is_array,
                    count,
                ) {
                    Ok(v) => v,
                    Err(e) => {
                        return Err(e);
                    },
                };
                match &value {
                    Value::Binary(data) => {
                        // the number of bytes must be the one that `__size` names
                        match size {
                            Some(n) => {
                                if data.len() != n {
                                    return Err(
                                        KbinError::SizeMismatch {
                                            node_type: StandardType::Binary,
                                            expected: n,
                                            found: data.len(),
                                        },
                                    );
                                }
                            },
                            None => {},
                        }
                    },
                    _ => {},
                }
                match value.to_bytes() {
                    Ok(b) => buffer_of(b),
                    Err(e) => {
                        return Err(e);
                    },
                }
            },
        };
        match definition.node_type {
            StandardType::NodeStart => {
                definition.node_type = StandardType::String;
            },
            _ => {},
        }
        match definition.data.take() {
            Some(d) => {
                definition.data = Some(NodeData { key: d.key, value: data });
            },
            None => {},
        }
        Ok(())
    }
}

/// The state that a step leaves where it does not go on: the element that
/// was being closed has left the stack, and all else is as it was.
pub open spec fn halted(state: TextState, closing: bool) -> TextState {
    if closing && state.stack.len() > 0 {
        TextState { stack: state.stack.drop_last(), ..state }
    } else {
        state
    }
}

/// The result of a step as the model has it.
pub open spec fn same_step(r: Result<StepResult, KbinError>, state: TextState, step: Step) -> bool {
    match step {
        Step::Next(next) => r matches Ok(StepResult::Next) && state == next,
        Step::Done(Some(c)) => r matches Ok(StepResult::Done(Some(x))) && x@ == c,
        Step::Done(None) => r matches Ok(StepResult::Done(None)),
        Step::Fault(e) => r matches Err(f) && f@ == e,
    }
}

impl<'a> TextXmlReader<'a> {
    /// Hands a finished element to the element that is open, or out as the
    /// root.
    fn deliver(&mut self, c: NodeCollection) -> (r: Result<StepResult, KbinError>)
        requires
            old(self).wf(),
        ensures
            final(self).wf(),
            final(self).input() == old(self).input(),
            final(self).consumed() == old(self).consumed(),
            final(self).fuel() == old(self).fuel(),
            same_step(r, final(self).state(), spec_deliver(old(self).state(), c@)),
            !(r matches Ok(StepResult::Next)) ==> final(self).state() == old(self).state(),
    {
        let ghost views = frames_view(self.stack@);
        match self.stack.pop() {
            None => {
                assert(frames_view(old(self).stack@).len() == 0);
                assert(frames_view(self.stack@) =~= views);
                Ok(StepResult::Done(Some(c)))
            },
            Some(mut parent) => {
                let ghost top = parent@;
                assert(top == frames_view(old(self).stack@).last());
                parent.collection.push_child(c);
                self.stack.push(parent);
                assert(frames_view(self.stack@) =~= frames_view(old(self).stack@).drop_last().push(
                    FrameView {
                        collection: NodeCollectionView {
                            children: top.collection.children.push(c@),
                            ..top.collection
                        },
                        ..top
                    },
                ));
                Ok(StepResult::Next)
            },
        }
    }

    /// Closes the element that is open: its text becomes its value.
    fn close(frame: Frame) -> (r: Result<NodeCollection, KbinError>)
        ensures
            match spec_close(frame@) {
                Ok(c) => r matches Ok(x) && x@ == c,
                Err(e) => r matches Err(f) && f@ == e,
            },
    {
        let Frame { mut collection, count, size, text } = frame;
        let t = trim_bytes(text.as_slice());
        if t.len() == 0 {
            return Ok(collection);
        }
        let text = match utf8_decode(t) {
            Some(s) => s,
            None => {
                return Err(KbinError::EncodingError);
            },
        };
        let ghost before = collection@;
        let mut base = collection.base;
        match Self::handle_text(text.as_str(), &mut base, count, size) {
            Ok(()) => {},
            Err(e) => {
                return Err(e);
            },
        }
        let r = NodeCollection { base, attributes: collection.attributes, children: collection.children };
        assert(r@.attributes =~= before.attributes);
        assert(r@.children =~= before.children);
        Ok(r)
    }

    /// Takes one event.
    pub fn step(&mut self, event: XmlEvent) -> (r: Result<StepResult, KbinError>)
        requires
            old(self).wf(),
        ensures
            final(self).wf(),
            final(self).input() == old(self).input(),
            final(self).consumed() == old(self).consumed(),
            final(self).fuel() == old(self).fuel(),
            same_step(r, final(self).state(), spec_step(old(self).state(), event@)),
            !(r matches Ok(StepResult::Next)) ==> final(self).state() == halted(
                old(self).state(),
                event@ is End,
            ),
    {
        let ghost views = frames_view(self.stack@);
        match event {
            XmlEvent::Start { name, attrs } => {
                let frame = match Self::handle_start(self.encoding, name.as_str(), attrs.as_slice()) {
                    Ok(f) => f,
                    Err(e) => {
                        return Err(e);
                    },
                };
                self.stack.push(frame);
                assert(frames_view(self.stack@) =~= views.push(frame@));
                Ok(StepResult::Next)
            },
            XmlEvent::Empty { name, attrs } => {
                let frame = match Self::handle_start(self.encoding, name.as_str(), attrs.as_slice()) {
                    Ok(f) => f,
                    Err(e) => {
                        return Err(e);
                    },
                };
                if frame.count != 0 {
                    return Err(KbinError::InvalidState);
                }
                match frame.size {
                    None => {},
                    Some(n) => {
                        if n != 0 {
                            return Err(KbinError::InvalidState);
                        }
                    },
                }
                self.deliver(frame.collection)
            },
            XmlEvent::Text(s) => {
                let bytes = s.as_str().as_bytes();
                match self.stack.pop() {
                    None => {
                        assert(views.len() == 0);
                        if trim_bytes(bytes).len() == 0 {
                            assert(frames_view(self.stack@) =~= views);
                            Ok(StepResult::Next)
                        } else {
                            Err(KbinError::InvalidState)
                        }
                    },
                    Some(mut top) => {
                        let ghost before = top@;
                        assert(before == views.last());
                        top.text.extend_from_slice(bytes);
                        let ghost after = top@;
                        assert(after.text == before.text + bytes@);
                        assert(after == (FrameView { text: before.text + bytes@, ..before }));
                        self.stack.push(top);
                        assert(self.stack@.last()@ == after);
                        assert(frames_view(self.stack@) =~= views.drop_last().push(
                            FrameView { text: before.text + bytes@, ..before },
                        ));
                        Ok(StepResult::Next)
                    },
                }
            },
            XmlEvent::End => {
                let frame = match self.stack.pop() {
                    Some(f) => f,
                    None => {
                        assert(views.len() == 0);
                        return Err(KbinError::InvalidState);
                    },
                };
                assert(frame@ == views.last());
                assert(frames_view(self.stack@) =~= views.drop_last());
                let c = match Self::close(frame) {
                    Ok(c) => c,
                    Err(e) => {
                        return Err(e);
                    },
                };
                self.deliver(c)
            },
            XmlEvent::Decl { encoding } => match encoding {
                None => Ok(StepResult::Next),
                Some(label) => match EncodingType::from_label(label.as_str()) {
                    Ok(e) => {
                        self.encoding = e;
                        Ok(StepResult::Next)
                    },
                    Err(e) => Err(e),
                },
            },
            XmlEvent::Eof => Ok(StepResult::Done(None)),
            XmlEvent::Other => Ok(StepResult::Next),
            XmlEvent::Fault => Err(KbinError::InvalidState),
        }
    }

    /// The text of the element that is open, without the spaces around it,
    /// where the element is of a floating-point type and has such a text:
    /// with the type, whether the element is an array, and the number of
    /// values that it names. Such a text is for the caller to read.
    pub fn open_float_text(&self) -> (r: Option<(StandardType, String, bool, usize)>)
        ensures
            match spec_open_float_text(self.state()) {
                Some((t, s, a, c)) => r matches Some((x, y, z, w)) && x == t && y@ == s && z == a
                    && w == c,
                None => r is None,
            },
    {
        let frame = match self.top() {
            Some(f) => f,
            None => {
                return None;
            },
        };
        let base = frame.collection.base();
        if !base.node_type().is_float() {
            return None;
        }
        let text = trim_bytes(frame.text.as_slice());
        if text.len() == 0 {
            return None;
        }
        match utf8_decode(text) {
            Some(s) => Some((base.node_type(), s, base.is_array(), frame.count)),
            None => None,
        }
    }

    /// The element that is open, if one is.
    pub fn top(&self) -> (r: Option<&Frame>)
        ensures
            match r {
                Some(f) => self.state().stack.len() > 0 && f@ == self.state().stack.last(),
                None => self.state().stack.len() == 0,
            },
    {
        let n = self.stack.len();
        if n == 0 {
            assert(frames_view(self.stack@).len() == 0);
            None
        } else {
            assert(frames_view(self.stack@).last() == self.stack@[n - 1]@);
            Some(&self.stack[n - 1])
        }
    }

    /// Takes the next event from the parser, unless the reader has taken
    /// as many as it takes.
    pub fn next_event(&mut self) -> (r: Option<XmlEvent>)
        requires
            old(self).wf(),
        ensures
            final(self).wf(),
            final(self).input() == old(self).input(),
            final(self).state() == old(self).state(),
            match r {
                Some(e) => old(self).fuel() > 0 && e@ == plain_event(
                    parsed_event(old(self).input(), old(self).consumed()),
                ) && final(self).consumed() == old(self).consumed() + 1 && final(self).fuel()
                    == old(self).fuel() - 1,
                None => old(self).fuel() == 0 && final(self).consumed() == old(self).consumed()
                    && final(self).fuel() == 0,
            },
    {
        if self.fuel == 0 {
            return None;
        }
        let ghost consumed = self.consumed();
        let event = read_plain_event(&mut self.xml_reader);
        self.fuel = self.fuel - 1;
        self.consumed = Ghost((consumed + 1) as nat);
        Some(event)
    }

    /// Closes the element that is open with a value that the caller read
    /// from its text, in place of the text. The value must be of the type
    /// that the element names, and an array exactly where the element is
    /// one.
    pub fn close_with(&mut self, value: Value) -> (r: Result<StepResult, KbinError>)
        requires
            old(self).wf(),
        ensures
            final(self).wf(),
            final(self).input() == old(self).input(),
            final(self).consumed() == old(self).consumed(),
            final(self).fuel() == old(self).fuel(),
            same_step(r, final(self).state(), spec_close_with(old(self).state(), value@)),
            !(r matches Ok(StepResult::Next)) ==> final(self).state() == halted(
                old(self).state(),
                true,
            ),
    {
        let ghost views = frames_view(self.stack@);
        let frame = match self.stack.pop() {
            Some(f) => f,
            None => {
                assert(views.len() == 0);
                return Err(KbinError::InvalidState);
            },
        };
        assert(frame@ == views.last());
        assert(frames_view(self.stack@) =~= views.drop_last());
        let Frame { collection, count, size, text } = frame;
        let ghost before = collection@;
        let NodeCollection { base, attributes, children } = collection;
        let node_type = base.node_type;
        let is_array = base.is_array;
        let encoding = base.encoding;
        let key = match base.data {
            Some(d) => d.key,
            None => {
                return Err(KbinError::InvalidState);
            },
        };
        proof {
            lemma_view_type(&value);
        }
        let value_is_array = match &value {
            Value::Array(_, _) => true,
            _ => false,
        };
        if value.standard_type() != node_type || value_is_array != is_array {
            return Err(
                KbinError::TypeMismatch { expected: node_type, found: value.standard_type() },
            );
        }
        let payload = match value.to_bytes() {
            Ok(p) => p,
            Err(e) => {
                return Err(e);
            },
        };
        let base = NodeDefinition::with_data(
            encoding,
            node_type,
            is_array,
            NodeData { key, value: buffer_of(payload) },
        );
        let c = NodeCollection { base, attributes, children };
        assert(c@.attributes =~= before.attributes);
        assert(c@.children =~= before.children);
        self.deliver(c)
    }

    /// Reads the document: the collection of its root, or nothing where
    /// the text holds no element.
    pub fn as_node_collection(&mut self) -> (r: Result<Option<NodeCollection>, KbinError>)
        requires
            old(self).wf(),
        ensures
            match spec_run_text(
                old(self).input(),
                old(self).consumed(),
                old(self).fuel(),
                old(self).state(),
            ) {
                Ok(Some(c)) => r matches Ok(Some(x)) && x@ == c,
                Ok(None) => r matches Ok(None),
                Err(e) => r matches Err(f) && f@ == e,
            },
    {
        let ghost goal = spec_run_text(self.input(), self.consumed(), self.fuel(), self.state());
        loop
            invariant
                self.wf(),
                spec_run_text(self.input(), self.consumed(), self.fuel(), self.state()) == goal,
                goal == spec_run_text(
                    old(self).input(),
                    old(self).consumed(),
                    old(self).fuel(),
                    old(self).state(),
                ),
            decreases self.fuel(),
        {
            let event = match self.next_event() {
                Some(e) => e,
                None => {
                    return Err(KbinError::EndOfStream);
                },
            };
            match self.step(event) {
                Ok(StepResult::Next) => {},
                Ok(StepResult::Done(r)) => {
                    return Ok(r);
                },
                Err(e) => {
                    return Err(e);
                },
            }
        }
    }
}

/// The text of the open element where it is of a floating-point type and
/// has a text, with its type, whether it is an array, and its count.
pub open spec fn spec_open_float_text(state: TextState) -> Option<
    (StandardType, Seq<char>, bool, usize),
> {
    if state.stack.len() == 0 {
        None
    } else {
        let top = state.stack.last();
        let base = top.collection.base;
        let t = trim(top.text);
        if !base.node_type.spec_is_float() || t.len() == 0 || !valid_utf8(t) {
            None
        } else {
            Some((base.node_type, decode_utf8(t), base.is_array, top.count))
        }
    }
}

/// What closing the open element with a value makes of a state.
pub open spec fn spec_close_with(state: TextState, v: ValueView) -> Step {
    if state.stack.len() == 0 {
        Step::Fault(KbinErrorView::InvalidState)
    } else {
        let top = state.stack.last();
        let base = top.collection.base;
        match base.data {
            None => Step::Fault(KbinErrorView::InvalidState),
            Some((key, _)) => if v.standard_type() != base.node_type || (v is Array)
                != base.is_array {
                Step::Fault(
                    KbinErrorView::TypeMismatch {
                        expected: base.node_type,
                        found: v.standard_type(),
                    },
                )
            } else {
                match v.payload() {
                    None => Step::Fault(KbinErrorView::InvalidState),
                    Some(p) => spec_deliver(
                        TextState { stack: state.stack.drop_last(), ..state },
                        NodeCollectionView {
                            base: NodeDefinitionView { data: Some((key, p)), ..base },
                            ..top.collection
                        },
                    ),
                }
            },
        }
    }
}

/// The tree and the encoding of a text that the parser can read: what its
/// events make, within two events more than the text has bytes. A text
/// without an element ends too early.
pub open spec fn spec_decode_events(input: Seq<u8>) -> Result<
    (NodeView, EncodingType),
    KbinErrorView,
> {
    match spec_run_text(
        input,
        0,
        event_limit(input.len()),
        TextState { encoding: EncodingType::UTF_8, stack: Seq::empty() },
    ) {
        Err(e) => Err(e),
        Ok(None) => Err(KbinErrorView::EndOfStream),
        Ok(Some(c)) => match spec_as_node(c) {
            Ok(n) => Ok((n, c.base.encoding)),
            Err(e) => Err(e),
        },
    }
}

/// The encoding in which a document in XML text is written, where that is
/// neither UTF-8 nor ASCII: the one that its declaration names, which is
/// the first thing in it.
pub open spec fn legacy_declared(input: Seq<u8>) -> Option<EncodingType> {
    match plain_event(parsed_event(input, 0)) {
        XmlEventView::Decl { encoding: Some(label) } => match EncodingType::spec_from_label(label) {
            Some(e) => if e == EncodingType::UTF_8 || e == EncodingType::ASCII {
                None
            } else {
                Some(e)
            },
            None => None,
        },
        _ => None,
    }
}

/// The text of a document that is written in another encoding than UTF-8
/// and ASCII; nothing for a document in one of these two; an encoding
/// error where the bytes are no text in the encoding that is declared.
pub open spec fn spec_transcoded(input: Seq<u8>) -> Result<Option<Seq<char>>, KbinErrorView> {
    match legacy_declared(input) {
        None => Ok(None),
        Some(e) => match e.spec_decode(input) {
            Some(t) => Ok(Some(t)),
            None => Err(KbinErrorView::EncodingError),
        },
    }
}

/// The tree and the encoding of a document in XML text. A document in
/// UTF-8 or ASCII is read as it is, and so is one without a declaration;
/// one in another encoding is read from its text in UTF-8.
pub open spec fn spec_decode_text(input: Seq<u8>) -> Result<(NodeView, EncodingType), KbinErrorView> {
    match spec_transcoded(input) {
        Err(e) => Err(e),
        Ok(None) => spec_decode_events(input),
        Ok(Some(t)) => spec_decode_events(encode_utf8(t)),
    }
}

/// The text of a document that is written in another encoding than UTF-8
/// and ASCII, for the parser to read in place of the document.
pub fn transcoded(input: &[u8]) -> (r: Result<Option<String>, KbinError>)
    ensures
        match spec_transcoded(input@) {
            Ok(Some(t)) => r matches Ok(Some(s)) && s@ == t,
            Ok(None) => r matches Ok(None),
            Err(e) => r matches Err(f) && f@ == e,
        },
{
    let mut probe = xml_reader(input);
    let label = match read_plain_event(&mut probe) {
        XmlEvent::Decl { encoding: Some(label) } => label,
        _ => {
            return Ok(None);
        },
    };
    let encoding = match EncodingType::from_label(label.as_str()) {
        Ok(e) => e,
        Err(_) => {
            return Ok(None);
        },
    };
    match encoding {
        EncodingType::UTF_8 => Ok(None),
        EncodingType::ASCII => Ok(None),
        _ => match encoding.decode_bytes(input) {
            Ok(text) => Ok(Some(text)),
            Err(e) => Err(e),
        },
    }
}

/// Reads a text that the parser can read: its tree and its encoding.
fn decode_events(input: &[u8]) -> (r: Result<(Node, EncodingType), KbinError>)
    ensures
        match spec_decode_events(input@) {
            Ok((n, e)) => r matches Ok((x, y)) && x@ == n && x.is_lean() && y == e,
            Err(e) => r matches Err(f) && f@ == e,
        },
{
    let mut reader = TextXmlReader::new(input);
    match reader.as_node_collection() {
        Err(e) => Err(e),
        Ok(None) => Err(KbinError::EndOfStream),
        Ok(Some(c)) => match c.as_node() {
            Ok(n) => Ok((n, c.base().encoding())),
            Err(e) => Err(e),
        },
    }
}

/// Reads a document in XML text: its tree and its encoding.
pub fn decode_text(input: &[u8]) -> (r: Result<(Node, EncodingType), KbinError>)
    ensures
        match spec_decode_text(input@) {
            Ok((n, e)) => r matches Ok((x, y)) && x@ == n && x.is_lean() && y == e,
            Err(e) => r matches Err(f) && f@ == e,
        },
{
    match transcoded(input) {
        Err(e) => Err(e),
        Ok(None) => decode_events(input),
        Ok(Some(text)) => decode_events(text.as_str().as_bytes()),
    }
}

} // verus!

//! The events of the XML parser as plain values.
use vstd::prelude::*;
use quick_xml::escape::resolve_predefined_entity;
use quick_xml::events::Event;
use quick_xml::XmlVersion;

verus! {

/// `quick_xml::Reader`: a pull parser over XML text.
#[verifier::external_type_specification]
#[verifier::external_body]
#[verifier::reject_recursive_types(R)]
pub struct ExXmlReader<R>(quick_xml::Reader<R>);

/// `quick_xml::events::Event`: one event of the parser.
#[verifier::external_type_specification]
#[verifier::external_body]
pub struct ExXmlEvent<'a>(Event<'a>);

/// One attribute of a tag as the parser gives it.
#[derive(Debug, PartialEq, Eq)]
pub enum RawAttribute {
    /// The parser refuses what stands in the tag here.
    Refused,
    /// An attribute with its name, its value as written, and its value with
    /// the references resolved, unless one of them does not resolve.
    Read { name: String, raw: String, value: Option<String> },
}

pub enum RawAttributeView {
    Refused,
    Read { name: Seq<char>, raw: Seq<char>, value: Option<Seq<char>> },
}

impl View for RawAttribute {
    type V = RawAttributeView;

    open spec fn view(&self) -> RawAttributeView {
        match self {
            RawAttribute::Refused => RawAttributeView::Refused,
            RawAttribute::Read { name, raw, value } => RawAttributeView::Read {
                name: name@,
                raw: raw@,
                value: match value {
                    Some(v) => Some(v@),
                    None => None,
                },
            },
        }
    }
}

/// The encoding of an XML declaration as the parser gives it.
#[derive(Debug, PartialEq, Eq)]
pub enum DeclEncoding {
    /// The declaration names no encoding.
    Absent,
    Named(String),
    /// The parser refuses the attribute.
    Refused,
}

pub enum DeclEncodingView {
    Absent,
    Named(Seq<char>),
    Refused,
}

impl View for DeclEncoding {
    type V = DeclEncodingView;

    open spec fn view(&self) -> DeclEncodingView {
        match self {
            DeclEncoding::Absent => DeclEncodingView::Absent,
            DeclEncoding::Named(s) => DeclEncodingView::Named(s@),
            DeclEncoding::Refused => DeclEncodingView::Refused,
        }
    }
}

/// What kind of event the parser gave.
#[derive(Clone, Copy, Debug, PartialEq, Eq, Structural)]
pub enum EventKind {
    /// A start tag.
    Start,
    /// The tag of an empty element.
    Empty,
    /// Character data between tags.
    Text,
    /// A CDATA section.
    CData,
    /// A reference such as `&amp;` or `&#49;`.
    Reference,
    /// An end tag.
    End,
    /// The XML declaration.
    Decl,
    /// The end of the document.
    Eof,
    /// A comment, a processing instruction or a document type.
    Other,
}

/// The event number `i` that the parser gives for a text, counted from the
/// start; `None` where the parser reports an error there.
pub uninterp spec fn parsed_event(input: Seq<u8>, i: nat) -> Option<Event<'static>>;

/// The event number `i` that a reader gives next.
pub uninterp spec fn upcoming_event(reader: quick_xml::Reader<&[u8]>, i: nat) -> Option<Event<'static>>;

/// The kind of an event.
pub uninterp spec fn event_kind(e: Event<'static>) -> EventKind;

/// The name of the element of a start or empty tag.
pub uninterp spec fn event_name(e: Event<'static>) -> Seq<char>;

/// What the parser gives for the attributes of a start or empty tag, in
/// their order.
pub uninterp spec fn event_attributes(e: Event<'static>) -> Seq<RawAttributeView>;

/// The characters of a text event.
pub uninterp spec fn event_text(e: Event<'static>) -> Seq<char>;

/// The character of a reference by number.
pub uninterp spec fn event_char(e: Event<'static>) -> Option<char>;

/// The text of a reference by one of the predefined names.
pub uninterp spec fn event_entity(e: Event<'static>) -> Option<Seq<char>>;

/// What the parser gives for the encoding of an XML declaration.
pub uninterp spec fn event_encoding(e: Event<'static>) -> DeclEncodingView;

/// `quick_xml::Reader::from_reader` on a byte slice: a parser at the start
/// of the text.
#[verifier::external_body]
pub(crate) fn xml_reader<'a>(input: &'a [u8]) -> (r: quick_xml::Reader<&'a [u8]>)
    ensures
        forall|i: nat| #[trigger] upcoming_event(r, i) == parsed_event(input@, i),
{
    quick_xml::Reader::from_reader(input)
}

/// `quick_xml::Reader::read_event` on a byte slice, with the event made
/// independent of the text by `Event::into_owned`: the next event, or
/// `None` where the parser reports an error. The reader moves on by one
/// event.
#[verifier::external_body]
pub(crate) fn next_event(reader: &mut quick_xml::Reader<&[u8]>) -> (r: Option<Event<'static>>)
    ensures
        r == upcoming_event(*old(reader), 0),
        forall|i: nat| #[trigger]
            upcoming_event(*final(reader), i) == upcoming_event(*old(reader), i + 1),
{
    reader.read_event().ok().map(|e| e.into_owned())
}

/// Tells the variants of `quick_xml::events::Event` apart.
#[verifier::external_body]
pub(crate) fn kind_of(e: &Event<'static>) -> (r: EventKind)
    ensures
        r == event_kind(*e),
{
    match e {
        Event::Start(_) => EventKind::Start,
        Event::Empty(_) => EventKind::Empty,
        Event::Text(_) => EventKind::Text,
        Event::CData(_) => EventKind::CData,
        Event::GeneralRef(_) => EventKind::Reference,
        Event::End(_) => EventKind::End,
        Event::Decl(_) => EventKind::Decl,
        Event::Eof => EventKind::Eof,
        _ => EventKind::Other,
    }
}

/// `quick_xml::events::BytesStart::name` on a start or empty tag: the name
/// of the element. Other events have the empty name.
#[verifier::external_body]
pub(crate) fn name_of(e: &Event<'static>) -> (r: String)
    ensures
        r@ == event_name(*e),
{
    match e {
        Event::Start(b) => b.name().0.to_string(),
        Event::Empty(b) => b.name().0.to_string(),
        _ => String::new(),
    }
}

/// `quick_xml::events::BytesStart::attributes` on a start or empty tag,
/// with `Attribute::normalized_value` for XML 1.0 on each attribute: what
/// the parser gives for each place of the tag, in their order. The value
/// with the references resolved also has a space for each tabulator and
/// line break. Other events have no attributes.
#[verifier::external_body]
pub(crate) fn attributes_of(e: &Event<'static>) -> (r: Vec<RawAttribute>)
    ensures
        r@.len() == event_attributes(*e).len(),
        forall|i: int| 0 <= i < r@.len() ==> (#[trigger] r@[i])@ == event_attributes(*e)[i],
{
    match e {
        Event::Start(b) | Event::Empty(b) => b.attributes().map(
            |a| match a {
                Ok(a) => RawAttribute::Read {
                    name: a.key.0.to_string(),
                    raw: a.value.to_string(),
                    value: a.normalized_value(XmlVersion::Implicit1_0).ok().map(|v| v.into_owned()),
                },
                Err(_) => RawAttribute::Refused,
            },
        ).collect(),
        _ => Vec::new(),
    }
}

/// The content of `quick_xml::events::BytesText`: the characters of a text
/// event. Other events have none.
#[verifier::external_body]
pub(crate) fn text_of(e: &Event<'static>) -> (r: String)
    ensures
        r@ == event_text(*e),
{
    match e {
        Event::Text(t) => t.to_string(),
        _ => String::new(),
    }
}

/// `quick_xml::events::BytesRef::resolve_char_ref`: the character of a
/// reference by number, and nothing for a reference by name, for a number
/// that is no character, and for other events.
#[verifier::external_body]
pub(crate) fn char_of(e: &Event<'static>) -> (r: Option<char>)
    ensures
        r == event_char(*e),
{
    match e {
        Event::GeneralRef(r) => r.resolve_char_ref().ok().flatten(),
        _ => None,
    }
}

/// `quick_xml::escape::resolve_predefined_entity` on the name of a
/// reference: the text of `lt`, `gt`, `amp`, `apos` and `quot`, and nothing
/// for any other name and for other events.
#[verifier::external_body]
pub(crate) fn entity_of(e: &Event<'static>) -> (r: Option<String>)
    ensures
        match event_entity(*e) {
            Some(s) => r matches Some(x) && x@ == s,
            None => r is None,
        },
{
    match e {
        Event::GeneralRef(r) => resolve_predefined_entity(r).map(|s| s.to_string()),
        _ => None,
    }
}

/// `quick_xml::events::BytesDecl::encoding`: the encoding that an XML
/// declaration names, or that it names none, or that the parser refuses
/// the attribute. Other events name none.
#[verifier::external_body]
pub(crate) fn encoding_of(e: &Event<'static>) -> (r: DeclEncoding)
    ensures
        r@ == event_encoding(*e),
{
    match e {
        Event::Decl(d) => match d.encoding() {
            None => DeclEncoding::Absent,
            Some(Ok(c)) => DeclEncoding::Named(c.into_owned()),
            Some(Err(_)) => DeclEncoding::Refused,
        },
        _ => DeclEncoding::Absent,
    }
}

/// An event of the parser as plain values.
#[derive(Debug, PartialEq, Eq)]
pub enum XmlEvent {
    Start { name: String, attrs: Vec<(String, String)> },
    Empty { name: String, attrs: Vec<(String, String)> },
    Text(String),
    End,
    Decl { encoding: Option<String> },
    Eof,
    /// An event without a meaning for the tree.
    Other,
    /// A reference that names nothing, or an error of the parser.
    Fault,
}

pub enum XmlEventView {
    Start { name: Seq<char>, attrs: Seq<(Seq<char>, Seq<char>)> },
    Empty { name: Seq<char>, attrs: Seq<(Seq<char>, Seq<char>)> },
    Text(Seq<char>),
    End,
    Decl { encoding: Option<Seq<char>> },
    Eof,
    Other,
    Fault,
}

/// The pairs of texts as sequences of characters.
pub open spec fn pairs_view(attrs: Seq<(String, String)>) -> Seq<(Seq<char>, Seq<char>)> {
    Seq::new(attrs.len(), |i: int| (attrs[i].0@, attrs[i].1@))
}

impl View for XmlEvent {
    type V = XmlEventView;

    open spec fn view(&self) -> XmlEventView {
        match self {
            XmlEvent::Start { name, attrs } => XmlEventView::Start {
                name: name@,
                attrs: pairs_view(attrs@),
            },
            XmlEvent::Empty { name, attrs } => XmlEventView::Empty {
                name: name@,
                attrs: pairs_view(attrs@),
            },
            XmlEvent::Text(s) => XmlEventView::Text(s@),
            XmlEvent::End => XmlEventView::End,
            XmlEvent::Decl { encoding } => XmlEventView::Decl {
                encoding: match encoding {
                    Some(s) => Some(s@),
                    None => None,
                },
            },
            XmlEvent::Eof => XmlEventView::Eof,
            XmlEvent::Other => XmlEventView::Other,
            XmlEvent::Fault => XmlEventView::Fault,
        }
    }
}

/// The attributes of a tag that the reader takes: what the parser refuses
/// is passed over, and a value with a reference that does not resolve is
/// taken as written.
pub open spec fn accepted_attributes(raw: Seq<RawAttributeView>) -> Seq<(Seq<char>, Seq<char>)>
    decreases raw.len(),
{
    if raw.len() == 0 {
        Seq::empty()
    } else {
        let front = accepted_attributes(raw.drop_last());
        match raw.last() {
            RawAttributeView::Refused => front,
            RawAttributeView::Read { name, raw, value } => front.push(
                (
                    name,
                    match value {
                        Some(v) => v,
                        None => raw,
                    },
                ),
            ),
        }
    }
}

/// The attributes of a tag that the reader takes.
pub fn accept_attributes(raw: &[RawAttribute]) -> (r: Vec<(String, String)>)
    ensures
        pairs_view(r@) == accepted_attributes(raw_view(raw@)),
{
    let ghost all = raw_view(raw@);
    let mut out: Vec<(String, String)> = Vec::new();
    let mut i: usize = 0;
    assert(all.take(0) =~= Seq::<RawAttributeView>::empty());
    assert(pairs_view(out@) =~= accepted_attributes(all.take(0)));
    while i < raw.len()
        invariant
            i <= raw@.len(),
            all == raw_view(raw@),
            pairs_view(out@) == accepted_attributes(all.take(i as int)),
        decreases raw@.len() - i,
    {
        proof {
            assert(all.take(i + 1).drop_last() =~= all.take(i as int));
            assert(all.take(i + 1).last() == raw@[i as int]@);
        }
        let ghost before = pairs_view(out@);
        match &raw[i] {
            RawAttribute::Read { name, raw: written, value } => {
                let v = match value {
                    Some(v) => v.clone(),
                    None => written.clone(),
                };
                let name = name.clone();
                out.push((name, v));
                assert(pairs_view(out@) =~= before.push((name@, v@)));
            },
            RawAttribute::Refused => {},
        }
        i += 1;
    }
    assert(all.take(raw@.len() as int) =~= all);
    out
}

/// The views of what the parser gives for the attributes.
pub open spec fn raw_view(raw: Seq<RawAttribute>) -> Seq<RawAttributeView> {
    Seq::new(raw.len(), |i: int| raw[i]@)
}

/// An event of the parser as plain values. A reference is the text that
/// it stands for: the character of a number, else the text of a predefined
/// name, else a fault. A CDATA section has no meaning for the tree. A
/// declaration whose encoding the parser refuses is a fault, and so is an
/// error of the parser.
pub open spec fn plain_event(e: Option<Event<'static>>) -> XmlEventView {
    match e {
        None => XmlEventView::Fault,
        Some(e) => match event_kind(e) {
            EventKind::Start => XmlEventView::Start {
                name: event_name(e),
                attrs: accepted_attributes(event_attributes(e)),
            },
            EventKind::Empty => XmlEventView::Empty {
                name: event_name(e),
                attrs: accepted_attributes(event_attributes(e)),
            },
            EventKind::Text => XmlEventView::Text(event_text(e)),
            EventKind::CData => XmlEventView::Other,
            EventKind::Reference => match event_char(e) {
                Some(c) => XmlEventView::Text(seq![c]),
                None => match event_entity(e) {
                    Some(s) => XmlEventView::Text(s),
                    None => XmlEventView::Fault,
                },
            },
            EventKind::End => XmlEventView::End,
            EventKind::Decl => match event_encoding(e) {
                DeclEncodingView::Absent => XmlEventView::Decl { encoding: None },
                DeclEncodingView::Named(s) => XmlEventView::Decl { encoding: Some(s) },
                DeclEncodingView::Refused => XmlEventView::Fault,
            },
            EventKind::Eof => XmlEventView::Eof,
            EventKind::Other => XmlEventView::Other,
        },
    }
}

/// Reads the next event of a parser as plain values.
pub fn read_plain_event(reader: &mut quick_xml::Reader<&[u8]>) -> (r: XmlEvent)
    ensures
        r@ == plain_event(upcoming_event(*old(reader), 0)),
        forall|i: nat| #[trigger]
            upcoming_event(*final(reader), i) == upcoming_event(*old(reader), i + 1),
{
    let e = match next_event(reader) {
        Some(e) => e,
        None => {
            return XmlEvent::Fault;
        },
    };
    match kind_of(&e) {
        EventKind::Start => {
            let raw = attributes_of(&e);
            assert(raw_view(raw@) =~= event_attributes(e));
            XmlEvent::Start { name: name_of(&e), attrs: accept_attributes(raw.as_slice()) }
        },
        EventKind::Empty => {
            let raw = attributes_of(&e);
            assert(raw_view(raw@) =~= event_attributes(e));
            XmlEvent::Empty { name: name_of(&e), attrs: accept_attributes(raw.as_slice()) }
        },
        EventKind::Text => XmlEvent::Text(text_of(&e)),
        EventKind::CData => XmlEvent::Other,
        EventKind::Reference => match char_of(&e) {
            Some(c) => {
                let mut s = String::new();
                crate::text::string_push(&mut s, c);
                assert(s@ =~= seq![c]);
                XmlEvent::Text(s)
            },
            None => match entity_of(&e) {
                Some(s) => XmlEvent::Text(s),
                None => XmlEvent::Fault,
            },
        },
        EventKind::End => XmlEvent::End,
        EventKind::Decl => match encoding_of(&e) {
            DeclEncoding::Absent => XmlEvent::Decl { encoding: None },
            DeclEncoding::Named(s) => XmlEvent::Decl { encoding: Some(s) },
            DeclEncoding::Refused => XmlEvent::Fault,
        },
        EventKind::Eof => XmlEvent::Eof,
        EventKind::Other => XmlEvent::Other,
    }
}

} // verus!

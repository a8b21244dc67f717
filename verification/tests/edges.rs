use bytes::Bytes;
use kbinxml::collection::{NodeData, NodeDefinition};
use kbinxml::encoding_type::EncodingType;
use kbinxml::error::KbinError;
use kbinxml::node::Node;
use kbinxml::node_types::StandardType;
use kbinxml::reader::BinaryReader;
use kbinxml::text_reader::{decode_text, transcoded, StepResult, TextXmlReader};
use kbinxml::text_writer::encode_text;
use kbinxml::value::Value;
use kbinxml::xml_events::{accept_attributes, RawAttribute, XmlEvent};

fn read(name: &str, raw: &str, value: Option<&str>) -> RawAttribute {
    RawAttribute::Read {
        name: name.to_string(),
        raw: raw.to_string(),
        value: value.map(|v| v.to_string()),
    }
}

#[test]
fn documents_in_other_encodings_read_back() {
    for (encoding, text) in [
        (EncodingType::ISO_8859_1, "caf\u{e9}"),
        (EncodingType::SHIFT_JIS, "\u{3053}\u{3093}\u{306b}\u{3061}\u{306f}"),
        (EncodingType::EUC_JP, "\u{65e5}\u{672c}\u{8a9e}"),
        (EncodingType::UTF_8, "\u{65e5}\u{672c}\u{8a9e} \u{e9}"),
        (EncodingType::ASCII, "plain"),
    ] {
        let tree = Node::with(
            "r",
            &[("k", text)],
            vec![Node::with_value("s", Value::String(text.to_string()))],
        );
        let bytes = encode_text(&tree, encoding).unwrap();
        if encoding != EncodingType::UTF_8 && encoding != EncodingType::ASCII {
            assert!(String::from_utf8(bytes.clone()).is_err());
        }
        assert_eq!(decode_text(&bytes), Ok((tree, encoding)));
    }
}

#[test]
fn the_text_of_a_document_by_its_declaration() {
    assert_eq!(transcoded(b"<a/>"), Ok(None));
    assert_eq!(transcoded(b""), Ok(None));
    assert_eq!(transcoded(b"<?xml version=\"1.0\"?><a>\xE9</a>"), Ok(None));
    assert_eq!(transcoded(b"<?xml version=\"1.0\" encoding=\"UTF-8\"?><a/>"), Ok(None));
    assert_eq!(transcoded(b"<?xml version=\"1.0\" encoding=\"ASCII\"?><a>\xE9</a>"), Ok(None));
    assert_eq!(transcoded(b"<?xml version=\"1.0\" encoding=\"KOI8-R\"?><a/>"), Ok(None));
    assert_eq!(
        transcoded(b"<?xml version=\"1.0\" encoding=\"ISO-8859-1\"?><a>\xE9</a>"),
        Ok(Some("<?xml version=\"1.0\" encoding=\"ISO-8859-1\"?><a>\u{e9}</a>".to_string()))
    );
    assert_eq!(
        transcoded(b"<?xml version=\"1.0\" encoding=\"SHIFT_JIS\"?><a>\x82\xA0</a>"),
        Ok(Some("<?xml version=\"1.0\" encoding=\"SHIFT_JIS\"?><a>\u{3042}</a>".to_string()))
    );
    assert_eq!(
        transcoded(b"<?xml version=\"1.0\" encoding=\"EUC-JP\"?><a>\xA4\xA2</a>"),
        Ok(Some("<?xml version=\"1.0\" encoding=\"EUC-JP\"?><a>\u{3042}</a>".to_string()))
    );
    assert_eq!(
        transcoded(b"<?xml version=\"1.0\" encoding=\"SHIFT_JIS\"?><a>\x81</a>"),
        Err(KbinError::EncodingError)
    );
    assert_eq!(
        decode_text(b"<?xml version=\"1.0\" encoding=\"SHIFT_JIS\"?><a>\x81</a>"),
        Err(KbinError::EncodingError)
    );
    assert_eq!(
        decode_text(b"<?xml version=\"1.0\" encoding=\"ISO-8859-1\"?><a k=\"\xFC\">\xE9</a>"),
        Ok((
            Node::with_attrs_value("a", &[("k", "\u{fc}")], Value::String("\u{e9}".to_string())),
            EncodingType::ISO_8859_1
        ))
    );
}

#[test]
fn a_cdata_section_is_passed_over() {
    let mut reader = TextXmlReader::new(b"<a><![CDATA[x]]>y</a>");
    assert_eq!(reader.next_event(), Some(XmlEvent::Start { name: "a".to_string(), attrs: vec![] }));
    assert_eq!(reader.next_event(), Some(XmlEvent::Other));
    assert_eq!(reader.next_event(), Some(XmlEvent::Text("y".to_string())));
    assert_eq!(
        decode_text(b"<a __type=\"u8\"><![CDATA[1]]>5</a>"),
        Ok((Node::with_value("a", Value::U8(5)), EncodingType::UTF_8))
    );
    assert_eq!(decode_text(b"<a><![CDATA[x]]></a>"), Ok((Node::new("a"), EncodingType::UTF_8)));
}

#[test]
fn a_declaration_that_the_parser_refuses_is_a_fault() {
    let mut reader = TextXmlReader::new(b"<?xml version=\"1.0\" encoding=UTF-8?><a/>");
    assert_eq!(reader.next_event(), Some(XmlEvent::Fault));
    assert_eq!(
        decode_text(b"<?xml version=\"1.0\" encoding=UTF-8?><a/>"),
        Err(KbinError::InvalidState)
    );
    let mut reader = TextXmlReader::new(b"<?xml version=\"1.0\"?><a/>");
    assert_eq!(reader.next_event(), Some(XmlEvent::Decl { encoding: None }));
    let mut reader = TextXmlReader::new(b"<?xml version=\"1.0\" encoding=\"x\"?><a/>");
    assert_eq!(reader.next_event(), Some(XmlEvent::Decl { encoding: Some("x".to_string()) }));
}

#[test]
fn attributes_as_the_parser_gives_them() {
    assert_eq!(
        accept_attributes(&[
            read("a", "&x;", None),
            RawAttribute::Refused,
            read("b", "&lt;", Some("<")),
            read("c", "", Some("")),
        ]),
        vec![
            ("a".to_string(), "&x;".to_string()),
            ("b".to_string(), "<".to_string()),
            ("c".to_string(), "".to_string()),
        ]
    );
    assert_eq!(accept_attributes(&[]), vec![]);
    assert_eq!(accept_attributes(&[RawAttribute::Refused]), vec![]);
    assert_eq!(
        decode_text(b"<a b=\"x&nope;y\" c=\"1\t2\" d=\"&lt;&#65;\"/>"),
        Ok((
            Node::with_attrs("a", &[("b", "x&nope;y"), ("c", "1 2"), ("d", "<A")]),
            EncodingType::UTF_8
        ))
    );
    assert_eq!(
        decode_text(b"<a b=\"1\" b=\"2\" c=\"3\"/>"),
        Ok((Node::with_attrs("a", &[("b", "1"), ("c", "3")]), EncodingType::UTF_8))
    );
}

#[test]
fn a_text_that_is_refused_leaves_the_definition() {
    let make = |encoding, node_type| {
        NodeDefinition::with_data(
            encoding,
            node_type,
            false,
            NodeData { key: Bytes::from(b"a".to_vec()), value: Bytes::from(vec![7]) },
        )
    };
    let mut d = make(EncodingType::UTF_8, StandardType::U8);
    assert_eq!(
        TextXmlReader::handle_text("300", &mut d, 0, None),
        Err(KbinError::StringParse { node_type: StandardType::U8, text: "300".to_string() })
    );
    assert_eq!(d, make(EncodingType::UTF_8, StandardType::U8));
    let mut d = make(EncodingType::ASCII, StandardType::NodeStart);
    assert_eq!(TextXmlReader::handle_text("\u{e9}", &mut d, 0, None), Err(KbinError::EncodingError));
    assert_eq!(d, make(EncodingType::ASCII, StandardType::NodeStart));
    let mut d = make(EncodingType::UTF_8, StandardType::Binary);
    assert_eq!(
        TextXmlReader::handle_text("00ff", &mut d, 0, Some(3)),
        Err(KbinError::SizeMismatch { node_type: StandardType::Binary, expected: 3, found: 2 })
    );
    assert_eq!(d, make(EncodingType::UTF_8, StandardType::Binary));
    let mut d = NodeDefinition::new(EncodingType::UTF_8, StandardType::NodeStart, false);
    assert_eq!(TextXmlReader::handle_text("x", &mut d, 0, None), Err(KbinError::InvalidState));
    assert_eq!(d, NodeDefinition::new(EncodingType::UTF_8, StandardType::NodeStart, false));
    let mut d = make(EncodingType::UTF_8, StandardType::NodeStart);
    assert_eq!(TextXmlReader::handle_text("x", &mut d, 0, None), Ok(()));
    assert_eq!(
        d,
        NodeDefinition::with_data(
            EncodingType::UTF_8,
            StandardType::String,
            false,
            NodeData { key: Bytes::from(b"a".to_vec()), value: Bytes::from(b"x\0".to_vec()) },
        )
    );
}

#[test]
fn writing_a_value_without_payload_appends_nothing() {
    for v in [
        Value::String("x".to_string()),
        Value::Attribute("x".to_string()),
        Value::Node(Box::new(Node::new("n"))),
    ] {
        let mut out = vec![9u8];
        assert_eq!(v.to_bytes_into(&mut out), Err(KbinError::InvalidState));
        assert_eq!(out, vec![9u8]);
    }
    let mixed = Value::Array(
        StandardType::U16,
        vec![Value::U16(0x0102), Value::String("x".to_string()), Value::U16(3)],
    );
    let mut out = vec![9u8];
    assert_eq!(mixed.to_bytes_into(&mut out), Err(KbinError::InvalidState));
    assert_eq!(out, vec![9u8, 1, 2]);
    let mut out = vec![9u8];
    assert_eq!(Value::Binary(vec![4, 5]).to_bytes_into(&mut out), Ok(()));
    assert_eq!(out, vec![9u8, 4, 5]);
}

#[test]
fn a_node_holds_what_it_was_given() {
    let n = Node::new("a");
    assert!(n.attributes().is_none() && n.children().is_none());
    let n = Node::with_attrs("a", &[]);
    assert!(n.attributes().unwrap().is_empty() && n.children().is_none());
    let n = Node::with_value("a", Value::U8(1));
    assert!(n.attributes().is_none() && n.children().is_none());
    let n = Node::with_nodes("a", vec![]);
    assert!(n.attributes().is_none() && n.children().unwrap().is_empty());
    let n = Node::with("a", &[("k", "v")], vec![Node::new("b")]);
    assert_eq!(n.attributes().unwrap().len(), 1);
    assert_eq!(n.children().unwrap(), &vec![Node::new("b")]);
    let mut n = Node::with_attrs_value("a", &[], Value::U8(1));
    assert!(n.attributes().is_some() && n.children().is_none());
    assert!(n.children_mut().is_none());
    n.append_child(Node::new("c"));
    assert_eq!(n.children().unwrap(), &vec![Node::new("c")]);
    let mut n = Node::new("a");
    n.set_key("b".to_string());
    assert_eq!(n.set_value(Some(Value::U8(1))), None);
    assert!(n.attributes().is_none() && n.children().is_none());
    assert_eq!(n.set_attr("k", "v"), None);
    assert!(n.attributes().is_some() && n.children().is_none());
    let copy = Node::with_nodes("a", vec![]).clone();
    assert!(copy.attributes().is_none() && copy.children().is_some());
}

#[test]
fn floating_point_values_from_bit_patterns() {
    let one = u64::from(1.5f32.to_bits());
    let two = u64::from((-2.0f32).to_bits());
    let wide = 0.25f64.to_bits();
    assert_eq!(
        Value::from_float_bits(StandardType::Float, &[one], false, 0),
        Ok(Value::Float(1.5f32.to_bits()))
    );
    assert_eq!(
        Value::from_float_bits(StandardType::Float2, &[one, two], false, 0),
        Ok(Value::Float2([1.5f32.to_bits(), (-2.0f32).to_bits()]))
    );
    assert_eq!(
        Value::from_float_bits(StandardType::Double, &[wide, u64::MAX], true, 2),
        Ok(Value::Array(StandardType::Double, vec![Value::Double(wide), Value::Double(u64::MAX)]))
    );
    assert_eq!(
        Value::from_float_bits(StandardType::Float2, &[one, two, two, one], true, 2),
        Ok(Value::Array(
            StandardType::Float2,
            vec![
                Value::Float2([1.5f32.to_bits(), (-2.0f32).to_bits()]),
                Value::Float2([(-2.0f32).to_bits(), 1.5f32.to_bits()])
            ]
        ))
    );
    assert_eq!(Value::from_float_bits(StandardType::U32, &[1], false, 0), Err(KbinError::InvalidState));
    assert_eq!(
        Value::from_float_bits(StandardType::Float, &[1 << 32], false, 0),
        Err(KbinError::InvalidState)
    );
    assert_eq!(
        Value::from_float_bits(StandardType::Float, &[one], true, 0),
        Err(KbinError::InvalidState)
    );
    assert_eq!(
        Value::from_float_bits(StandardType::Float3, &[one, two], false, 0),
        Err(KbinError::SizeMismatch { node_type: StandardType::Float3, expected: 3, found: 2 })
    );
    assert_eq!(
        Value::from_float_bits(StandardType::Float2, &[one, two, one], true, 2),
        Err(KbinError::SizeMismatch { node_type: StandardType::Float2, expected: 2, found: 1 })
    );
    assert_eq!(
        Value::from_float_bits(StandardType::Float, &[one, two], true, 3),
        Err(KbinError::SizeMismatch { node_type: StandardType::Float, expected: 3, found: 2 })
    );
    assert_eq!(Value::Double(wide).float_bits(), Some(vec![wide]));
    assert_eq!(Value::Float2([7, 8]).float_bits(), Some(vec![7, 8]));
    assert_eq!(
        Value::Array(StandardType::Float, vec![Value::Float(1), Value::Float(u32::MAX)]).float_bits(),
        Some(vec![1, u64::from(u32::MAX)])
    );
    assert_eq!(Value::Array(StandardType::Double, vec![]).float_bits(), Some(vec![]));
    assert_eq!(Value::U32(1).float_bits(), None);
    assert_eq!(Value::String("1.5".to_string()).float_bits(), None);
}

#[test]
fn the_open_text_of_a_floating_point_element() {
    let mut reader = TextXmlReader::new(b"<r><f __type=\"3float\" __count=\"2\"> 1 2 </f><n __type=\"u8\">1</n><e __type=\"float\"> </e></r>");
    assert_eq!(reader.open_float_text(), None);
    for _ in 0..3 {
        let event = reader.next_event().unwrap();
        assert_eq!(reader.step(event), Ok(StepResult::Next));
    }
    assert_eq!(
        reader.open_float_text(),
        Some((StandardType::Float3, "1 2".to_string(), true, 2))
    );
    assert_eq!(
        reader.close_with(Value::Array(StandardType::Float3, vec![Value::Float3([1, 2, 3])])),
        Ok(StepResult::Next)
    );
    assert_eq!(reader.next_event(), Some(XmlEvent::End));
    for _ in 0..2 {
        let event = reader.next_event().unwrap();
        assert_eq!(reader.step(event), Ok(StepResult::Next));
    }
    assert_eq!(reader.open_float_text(), None);
    for _ in 0..3 {
        let event = reader.next_event().unwrap();
        assert_eq!(reader.step(event), Ok(StepResult::Next));
    }
    assert_eq!(reader.open_float_text(), None);
}

#[test]
fn a_block_that_ends_too_early_leaves_the_cursor_behind_its_length() {
    let document = [
        0xA0, 0x42, 0x80, 0x7F, 0x00, 0x00, 0x00, 0x04, // header
        0xBF, 0x00, 0x00, 0x00, // node section
        0x00, 0x00, 0x00, 0x08, 0x01, 0x02, 0x03, 0x04, // data section
    ];
    let mut reader = BinaryReader::new(&document).unwrap();
    assert_eq!(reader.read_bytes(), Err(KbinError::EndOfStream));
    assert_eq!(reader.read_value(StandardType::U32, false), Ok(Some(Value::U32(0x0102_0304))));
    assert_eq!(reader.read_value(StandardType::U8, false), Err(KbinError::EndOfStream));

    let mut reader = BinaryReader::new(&document[..14]).unwrap();
    assert_eq!(reader.read_string(), Err(KbinError::EndOfStream));
    assert_eq!(reader.read_value(StandardType::U16, false), Ok(Some(Value::U16(0))));

    let mut reader = BinaryReader::new(&document).unwrap();
    assert_eq!(
        reader.read_value(StandardType::Boolean, false),
        Ok(Some(Value::Boolean(false)))
    );
    assert_eq!(reader.read_value(StandardType::U8_2, true), Err(KbinError::EndOfStream));
    assert_eq!(reader.read_value(StandardType::U8, false), Ok(Some(Value::U8(0))));
}

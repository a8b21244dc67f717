use bytes::Bytes;
use kbinxml::collection::{NodeCollection, NodeData, NodeDefinition};
use kbinxml::encoding_type::EncodingType;
use kbinxml::error::KbinError;
use kbinxml::node::Node;
use kbinxml::node_types::StandardType;
use kbinxml::reader::decode_binary;
use kbinxml::text_reader::{decode_text, trim_bytes, StepResult, TextXmlReader};
use kbinxml::text_writer::{collect_textless, encode_text_with};
use kbinxml::value::Value;
use kbinxml::writer::encode_binary;
use kbinxml::xml_events::XmlEvent;

fn pair(k: &str, v: &str) -> (String, String) {
    (k.to_string(), v.to_string())
}

#[test]
fn from_string_reads_every_integer_type() {
    assert_eq!(Value::from_string(StandardType::S8, "-128", false, 0), Ok(Value::S8(-128)));
    assert_eq!(Value::from_string(StandardType::U8, "255", false, 0), Ok(Value::U8(255)));
    assert_eq!(Value::from_string(StandardType::S16, "-32768", false, 0), Ok(Value::S16(i16::MIN)));
    assert_eq!(Value::from_string(StandardType::U16, "65535", false, 0), Ok(Value::U16(u16::MAX)));
    assert_eq!(Value::from_string(StandardType::S32, "-1", false, 0), Ok(Value::S32(-1)));
    assert_eq!(Value::from_string(StandardType::U32, "+7", false, 0), Ok(Value::U32(7)));
    assert_eq!(
        Value::from_string(StandardType::S64, "-9223372036854775808", false, 0),
        Ok(Value::S64(i64::MIN))
    );
    assert_eq!(
        Value::from_string(StandardType::U64, "18446744073709551615", false, 0),
        Ok(Value::U64(u64::MAX))
    );
    assert_eq!(Value::from_string(StandardType::Time, "0012", false, 0), Ok(Value::Time(12)));
}

#[test]
fn from_string_refuses_what_is_no_number_of_the_type() {
    for text in ["", "-", "+", "1 ", " 1", "1.0", "0x10", "256", "-1", "١"] {
        assert_eq!(
            Value::from_string(StandardType::U8, text, false, 0),
            Err(KbinError::StringParse { node_type: StandardType::U8, text: text.to_string() }),
            "{:?}",
            text
        );
    }
    assert_eq!(
        Value::from_string(StandardType::S8, "128", false, 0),
        Err(KbinError::StringParse { node_type: StandardType::S8, text: "128".to_string() })
    );
    assert_eq!(
        Value::from_string(StandardType::U64, "18446744073709551616", false, 0),
        Err(KbinError::StringParse {
            node_type: StandardType::U64,
            text: "18446744073709551616".to_string()
        })
    );
    assert_eq!(
        Value::from_string(StandardType::U64, "99999999999999999999999999999999999999999", false, 0),
        Err(KbinError::StringParse {
            node_type: StandardType::U64,
            text: "99999999999999999999999999999999999999999".to_string()
        })
    );
}

#[test]
fn from_string_reads_vectors_addresses_and_booleans() {
    assert_eq!(Value::from_string(StandardType::S16_3, "1 -2 3", false, 0), Ok(Value::S16_3([1, -2, 3])));
    assert_eq!(Value::from_string(StandardType::U8_4, "1 2 3 4", false, 0), Ok(Value::U8_4([1, 2, 3, 4])));
    assert_eq!(Value::from_string(StandardType::Ip4, "127.0.0.1", false, 0), Ok(Value::Ip4([127, 0, 0, 1])));
    assert_eq!(Value::from_string(StandardType::Boolean, "1", false, 0), Ok(Value::Boolean(true)));
    assert_eq!(Value::from_string(StandardType::Boolean, "0", false, 0), Ok(Value::Boolean(false)));
    assert_eq!(
        Value::from_string(StandardType::Boolean2, "0 1", false, 0),
        Ok(Value::Boolean2([false, true]))
    );
    assert_eq!(
        Value::from_string(StandardType::S16_3, "1 2", false, 0),
        Err(KbinError::SizeMismatch { node_type: StandardType::S16_3, expected: 3, found: 2 })
    );
    assert_eq!(
        Value::from_string(StandardType::S16_3, "1  2", false, 0),
        Err(KbinError::StringParse { node_type: StandardType::S16_3, text: "1  2".to_string() })
    );
    assert_eq!(
        Value::from_string(StandardType::Ip4, "1.2.3", false, 0),
        Err(KbinError::SizeMismatch { node_type: StandardType::Ip4, expected: 4, found: 3 })
    );
    assert_eq!(
        Value::from_string(StandardType::Ip4, "1.2.3.256", false, 0),
        Err(KbinError::StringParse { node_type: StandardType::Ip4, text: "1.2.3.256".to_string() })
    );
    assert_eq!(Value::from_string(StandardType::Boolean, "2", false, 0), Err(KbinError::InvalidBoolean(2)));
    assert_eq!(
        Value::from_string(StandardType::Boolean, "true", false, 0),
        Err(KbinError::StringParse { node_type: StandardType::Boolean, text: "true".to_string() })
    );
    assert_eq!(
        Value::from_string(StandardType::Boolean, "01", false, 0),
        Err(KbinError::InvalidBoolean(1))
    );
}

#[test]
fn from_string_reads_text_binary_and_arrays() {
    assert_eq!(
        Value::from_string(StandardType::String, "a b", false, 0),
        Ok(Value::String("a b".to_string()))
    );
    assert_eq!(
        Value::from_string(StandardType::Attribute, "x", false, 0),
        Ok(Value::Attribute("x".to_string()))
    );
    assert_eq!(
        Value::from_string(StandardType::Binary, "00ff 7F\n10", false, 0),
        Ok(Value::Binary(vec![0x00, 0xFF, 0x7F, 0x10]))
    );
    assert_eq!(Value::from_string(StandardType::Binary, "", false, 0), Ok(Value::Binary(vec![])));
    assert_eq!(Value::from_string(StandardType::Binary, "abc", false, 0), Err(KbinError::HexError));
    assert_eq!(Value::from_string(StandardType::Binary, "zz", false, 0), Err(KbinError::HexError));
    assert_eq!(
        Value::from_string(StandardType::U16, "1 2 3", true, 3),
        Ok(Value::Array(StandardType::U16, vec![Value::U16(1), Value::U16(2), Value::U16(3)]))
    );
    assert_eq!(
        Value::from_string(StandardType::U8, "9", true, 1),
        Ok(Value::Array(StandardType::U8, vec![Value::U8(9)]))
    );
    assert_eq!(
        Value::from_string(StandardType::S8_2, "1 2 3 4", true, 2),
        Ok(Value::Array(StandardType::S8_2, vec![Value::S8_2([1, 2]), Value::S8_2([3, 4])]))
    );
    assert_eq!(
        Value::from_string(StandardType::Ip4, "1.2.3.4 5.6.7.8", true, 2),
        Ok(Value::Array(StandardType::Ip4, vec![Value::Ip4([1, 2, 3, 4]), Value::Ip4([5, 6, 7, 8])]))
    );
    assert_eq!(
        Value::from_string(StandardType::U16, "1 2 3", true, 2),
        Err(KbinError::SizeMismatch { node_type: StandardType::U16, expected: 2, found: 3 })
    );
    assert_eq!(
        Value::from_string(StandardType::S8_2, "1 2 3", true, 1),
        Err(KbinError::SizeMismatch { node_type: StandardType::S8_2, expected: 1, found: 1 })
    );
    assert_eq!(Value::from_string(StandardType::U16, "1", true, 0), Err(KbinError::InvalidState));
    assert_eq!(Value::from_string(StandardType::String, "a", true, 1), Err(KbinError::InvalidState));
    assert_eq!(Value::from_string(StandardType::NodeStart, "a", false, 0), Err(KbinError::InvalidState));
    assert_eq!(Value::from_string(StandardType::NodeEnd, "a", false, 0), Err(KbinError::InvalidState));
    assert_eq!(
        Value::from_string(StandardType::U16, "1 x 3", true, 3),
        Err(KbinError::StringParse { node_type: StandardType::U16, text: "1 x 3".to_string() })
    );
}

#[test]
fn floating_point_text_is_left_to_the_caller() {
    assert_eq!(
        Value::from_string(StandardType::Float, "1.5", false, 0),
        Err(KbinError::StringParse { node_type: StandardType::Float, text: "1.5".to_string() })
    );
    assert_eq!(
        Value::from_string(StandardType::Double3, "1 2 3", false, 0),
        Err(KbinError::StringParse { node_type: StandardType::Double3, text: "1 2 3".to_string() })
    );
    assert_eq!(Value::Float(0x3FC0_0000).to_string(), None);
    assert_eq!(Value::Double2([0, 0]).to_string(), None);
    assert_eq!(Value::Array(StandardType::Float, vec![Value::Float(0)]).to_string(), None);
    assert_eq!(Value::array_as_string(&[Value::U8(1), Value::Float(0)]), None);
}

#[test]
fn to_string_gives_the_canonical_text() {
    assert_eq!(Value::S8(-128).to_string(), Some("-128".to_string()));
    assert_eq!(Value::U8(0).to_string(), Some("0".to_string()));
    assert_eq!(Value::S64(i64::MIN).to_string(), Some("-9223372036854775808".to_string()));
    assert_eq!(Value::U64(u64::MAX).to_string(), Some("18446744073709551615".to_string()));
    assert_eq!(Value::Time(1234).to_string(), Some("1234".to_string()));
    assert_eq!(Value::Ip4([127, 0, 0, 1]).to_string(), Some("127.0.0.1".to_string()));
    assert_eq!(Value::Boolean(true).to_string(), Some("1".to_string()));
    assert_eq!(Value::Boolean(false).to_string(), Some("0".to_string()));
    assert_eq!(Value::Boolean3([true, false, true]).to_string(), Some("1 0 1".to_string()));
    assert_eq!(Value::S32_3([1, -2, 3]).to_string(), Some("1 -2 3".to_string()));
    assert_eq!(Value::Vu16([1, 2, 3, 4, 5, 6, 7, 65535]).to_string(), Some("1 2 3 4 5 6 7 65535".to_string()));
    assert_eq!(Value::Binary(vec![0x00, 0xAB, 0xFF]).to_string(), Some("00abff".to_string()));
    assert_eq!(Value::Binary(vec![]).to_string(), Some("".to_string()));
    assert_eq!(Value::String("a b".to_string()).to_string(), Some("a b".to_string()));
    assert_eq!(Value::Attribute("q".to_string()).to_string(), Some("q".to_string()));
    assert_eq!(Value::Node(Box::new(Node::new("n"))).to_string(), Some("".to_string()));
    assert_eq!(
        Value::Array(StandardType::S8_2, vec![Value::S8_2([1, 2]), Value::S8_2([-3, 4])]).to_string(),
        Some("1 2 -3 4".to_string())
    );
    assert_eq!(Value::Array(StandardType::U8, vec![]).to_string(), Some("".to_string()));
    assert_eq!(
        Value::array_as_string(&[Value::U16(1), Value::U16(2), Value::U16(3)]),
        Some("1 2 3".to_string())
    );
    assert_eq!(Value::array_as_string(&[]), Some("".to_string()));
}

#[test]
fn text_of_a_value_reads_back() {
    let values = vec![
        (StandardType::S8, Value::S8(-7)),
        (StandardType::U32_4, Value::U32_4([0, 1, u32::MAX, 77])),
        (StandardType::Vs8, Value::Vs8([-1; 16])),
        (StandardType::Vb, Value::Vb([true; 16])),
        (StandardType::Ip4, Value::Ip4([10, 0, 0, 255])),
        (StandardType::Binary, Value::Binary(vec![1, 2, 0xFE])),
        (StandardType::String, Value::String("text".to_string())),
    ];
    for (t, v) in values {
        let text = v.to_string().unwrap();
        assert_eq!(Value::from_string(t, &text, false, 0), Ok(v));
    }
    let array = Value::Array(StandardType::S16_2, vec![Value::S16_2([1, -1]), Value::S16_2([2, -2])]);
    let text = array.to_string().unwrap();
    assert_eq!(Value::from_string(StandardType::S16_2, &text, true, 2), Ok(array));
}

#[test]
fn trim_takes_spaces_from_both_ends() {
    assert_eq!(trim_bytes(b"  a b\t\r\n"), b"a b");
    assert_eq!(trim_bytes(b" \n "), b"");
    assert_eq!(trim_bytes(b""), b"");
    assert_eq!(trim_bytes(b"x"), b"x");
}

#[test]
fn decode_text_scalar() {
    let (tree, encoding) = decode_text(b"<n __type=\"s32\">-1</n>").unwrap();
    assert_eq!(tree, Node::with_value("n", Value::S32(-1)));
    assert_eq!(encoding, EncodingType::UTF_8);
    let bytes = encode_binary(&tree, encoding).unwrap();
    assert_eq!(decode_binary(&bytes).unwrap(), (tree, encoding));
}

#[test]
fn decode_text_attribute_order() {
    let (tree, _) = decode_text(b"<x a=\"1\" b=\"2\"/>").unwrap();
    let names: Vec<(&str, &str)> = tree
        .attributes()
        .unwrap()
        .iter()
        .map(|(k, v)| (k.as_str(), v.as_str()))
        .collect();
    assert_eq!(names, vec![("a", "1"), ("b", "2")]);
    let bytes = encode_binary(&tree, EncodingType::UTF_8).unwrap();
    let (back, _) = decode_binary(&bytes).unwrap();
    let names: Vec<&str> = back.attributes().unwrap().keys().map(|k| k.as_str()).collect();
    assert_eq!(names, vec!["a", "b"]);
}

#[test]
fn decode_text_array() {
    let (tree, _) = decode_text(b"<arr __type=\"u16\" __count=\"3\">1 2 3</arr>").unwrap();
    assert_eq!(
        tree,
        Node::with_value(
            "arr",
            Value::Array(StandardType::U16, vec![Value::U16(1), Value::U16(2), Value::U16(3)])
        )
    );
    let bytes = encode_binary(&tree, EncodingType::UTF_8).unwrap();
    let node_len = u32::from_be_bytes([bytes[4], bytes[5], bytes[6], bytes[7]]) as usize;
    assert_eq!(
        &bytes[8 + node_len..],
        &[0x00, 0x00, 0x00, 0x06, 0x00, 0x01, 0x00, 0x02, 0x00, 0x03, 0x00, 0x00]
    );
}

#[test]
fn decode_text_ip4() {
    let (tree, _) = decode_text(b"<ip __type=\"ip4\">127.0.0.1</ip>").unwrap();
    assert_eq!(tree, Node::with_value("ip", Value::Ip4([127, 0, 0, 1])));
    let bytes = encode_binary(&tree, EncodingType::UTF_8).unwrap();
    let node_len = u32::from_be_bytes([bytes[4], bytes[5], bytes[6], bytes[7]]) as usize;
    assert_eq!(&bytes[8 + node_len..], &[0x7F, 0x00, 0x00, 0x01]);
}

#[test]
fn decode_text_mixed_tree() {
    let xml = b"<root><a __type=\"str\">hi</a><b __type=\"bool\">1</b></root>";
    let (tree, _) = decode_text(xml).unwrap();
    assert_eq!(
        tree,
        Node::with_nodes(
            "root",
            vec![
                Node::with_value("a", Value::String("hi".to_string())),
                Node::with_value("b", Value::Boolean(true)),
            ]
        )
    );
    let bytes = encode_binary(&tree, EncodingType::UTF_8).unwrap();
    let node_len = u32::from_be_bytes([bytes[4], bytes[5], bytes[6], bytes[7]]) as usize;
    assert_eq!(
        &bytes[8 + node_len..],
        &[0x00, 0x00, 0x00, 0x03, b'h', b'i', 0x00, 0x00, 0x01, 0x00, 0x00, 0x00]
    );
    assert_eq!(decode_binary(&bytes).unwrap().0, tree);
}

#[test]
fn decode_text_with_declaration_spaces_and_references() {
    let xml = b"<?xml version=\"1.0\" encoding=\"SHIFT_JIS\"?>\n<root k=\"a&amp;b\">\n  <!-- note -->\n  <s>x &lt; y &#49;</s>\n  <t __type=\"s8\"> -5 </t>\n  <e/>\n</root>\n";
    let (tree, encoding) = decode_text(xml).unwrap();
    assert_eq!(encoding, EncodingType::SHIFT_JIS);
    assert_eq!(
        tree,
        Node::with(
            "root",
            &[("k", "a&b")],
            vec![
                Node::with_value("s", Value::String("x < y 1".to_string())),
                Node::with_value("t", Value::S8(-5)),
                Node::new("e"),
            ]
        )
    );
}

#[test]
fn decode_text_binary_size() {
    let (tree, _) = decode_text(b"<b __type=\"bin\" __size=\"2\">00ff</b>").unwrap();
    assert_eq!(tree, Node::with_value("b", Value::Binary(vec![0, 255])));
    assert_eq!(
        decode_text(b"<b __type=\"bin\" __size=\"3\">00ff</b>"),
        Err(KbinError::SizeMismatch { node_type: StandardType::Binary, expected: 3, found: 2 })
    );
}

#[test]
fn decode_text_faults() {
    assert_eq!(decode_text(b""), Err(KbinError::EndOfStream));
    assert_eq!(decode_text(b"  \n"), Err(KbinError::EndOfStream));
    assert_eq!(decode_text(b"text"), Err(KbinError::InvalidState));
    assert_eq!(decode_text(b"<a>"), Err(KbinError::EndOfStream));
    assert_eq!(decode_text(b"<a></b>"), Err(KbinError::InvalidState));
    assert_eq!(
        decode_text(b"<a __type=\"nope\">1</a>"),
        Err(KbinError::UnknownTypeName("nope".to_string()))
    );
    assert_eq!(
        decode_text(b"<a __type=\"u8\" __count=\"x\">1</a>"),
        Err(KbinError::StringParse { node_type: StandardType::Attribute, text: "x".to_string() })
    );
    assert_eq!(
        decode_text(b"<a __type=\"u8\">300</a>"),
        Err(KbinError::StringParse { node_type: StandardType::U8, text: "300".to_string() })
    );
    assert_eq!(decode_text(b"<a __type=\"bool\">7</a>"), Err(KbinError::InvalidBoolean(7)));
    assert_eq!(decode_text(b"<a __type=\"bin\">0g</a>"), Err(KbinError::HexError));
    assert_eq!(decode_text(b"<a __count=\"2\"/>"), Err(KbinError::InvalidState));
    assert_eq!(
        decode_text(b"<?xml version=\"1.0\" encoding=\"KOI8-R\"?><a/>"),
        Err(KbinError::EncodingError)
    );
    assert_eq!(
        decode_text("<?xml version=\"1.0\" encoding=\"ASCII\"?><a>é</a>".as_bytes()),
        Err(KbinError::EncodingError)
    );
    assert_eq!(decode_text(b"<a>&nope;</a>"), Err(KbinError::InvalidState));
    assert_eq!(decode_text(b"<a>\xFF</a>"), Err(KbinError::InvalidState));
}

#[test]
fn an_element_without_type_becomes_a_string_with_its_text() {
    let (tree, _) = decode_text(b"<a>hello</a>").unwrap();
    assert_eq!(tree, Node::with_value("a", Value::String("hello".to_string())));
    let (tree, _) = decode_text(b"<a __type=\"str\"></a>").unwrap();
    assert_eq!(tree, Node::with_value("a", Value::String("".to_string())));
    let (tree, _) = decode_text(b"<a></a>").unwrap();
    assert_eq!(tree, Node::new("a"));
}

#[test]
fn steps_of_the_reader_on_given_events() {
    let mut reader = TextXmlReader::new(b"");
    assert_eq!(reader.step(XmlEvent::Decl { encoding: Some("EUC-JP".to_string()) }), Ok(StepResult::Next));
    assert_eq!(reader.encoding(), EncodingType::EUC_JP);
    assert_eq!(reader.step(XmlEvent::Other), Ok(StepResult::Next));
    assert_eq!(reader.step(XmlEvent::Text(" \n".to_string())), Ok(StepResult::Next));
    assert_eq!(
        reader.step(XmlEvent::Start { name: "r".to_string(), attrs: vec![pair("k", "v")] }),
        Ok(StepResult::Next)
    );
    assert_eq!(
        reader.step(XmlEvent::Start {
            name: "c".to_string(),
            attrs: vec![pair("__type", "2u8")]
        }),
        Ok(StepResult::Next)
    );
    assert_eq!(reader.step(XmlEvent::Text("1".to_string())), Ok(StepResult::Next));
    assert_eq!(reader.step(XmlEvent::Text(" 2 ".to_string())), Ok(StepResult::Next));
    assert_eq!(reader.step(XmlEvent::End), Ok(StepResult::Next));
    let done = reader.step(XmlEvent::End).unwrap();
    let expect_child = NodeCollection::new(NodeDefinition::with_data(
        EncodingType::EUC_JP,
        StandardType::U8_2,
        false,
        NodeData { key: Bytes::from(b"c".to_vec()), value: Bytes::from(vec![1, 2]) },
    ));
    let mut expect = NodeCollection::with_attributes(
        NodeDefinition::with_data(
            EncodingType::EUC_JP,
            StandardType::NodeStart,
            false,
            NodeData { key: Bytes::from(b"r".to_vec()), value: Bytes::new() },
        ),
        vec![NodeDefinition::with_data(
            EncodingType::EUC_JP,
            StandardType::Attribute,
            false,
            NodeData { key: Bytes::from(b"k".to_vec()), value: Bytes::from(b"v\0".to_vec()) },
        )],
    );
    expect.push_child(expect_child);
    assert_eq!(done, StepResult::Done(Some(expect)));
    assert_eq!(reader.step(XmlEvent::Eof), Ok(StepResult::Done(None)));
    assert_eq!(reader.step(XmlEvent::End), Err(KbinError::InvalidState));
    assert_eq!(reader.step(XmlEvent::Fault), Err(KbinError::InvalidState));
    assert_eq!(reader.step(XmlEvent::Text("x".to_string())), Err(KbinError::InvalidState));
}

#[test]
fn collection_as_node() {
    let def = NodeDefinition::with_data(
        EncodingType::ISO_8859_1,
        StandardType::String,
        false,
        NodeData { key: Bytes::from(vec![0xE9]), value: Bytes::from(vec![0xE8, 0]) },
    );
    assert_eq!(def.key(), Ok("é".to_string()));
    assert_eq!(def.value(), Ok(Some(Value::String("è".to_string()))));
    let c = NodeCollection::new(def);
    assert_eq!(c.as_node(), Ok(Node::with_value("é", Value::String("è".to_string()))));
    let none = NodeDefinition::new(EncodingType::UTF_8, StandardType::NodeStart, false);
    assert_eq!(none.key(), Err(KbinError::InvalidState));
    assert_eq!(NodeCollection::new(none).as_node(), Err(KbinError::InvalidState));
    let short = NodeDefinition::with_data(
        EncodingType::UTF_8,
        StandardType::U16,
        false,
        NodeData { key: Bytes::from(b"k".to_vec()), value: Bytes::from(vec![1]) },
    );
    assert_eq!(
        short.value(),
        Err(KbinError::SizeMismatch { node_type: StandardType::U16, expected: 2, found: 1 })
    );
}

#[test]
fn floating_point_texts_come_from_the_caller() {
    let tree = Node::with_nodes(
        "r",
        vec![
            Node::with_value("f", Value::Float(1.5f32.to_bits())),
            Node::with_value("n", Value::U8(1)),
            Node::with_value("d", Value::Double2([0.25f64.to_bits(), (-2.0f64).to_bits()])),
        ],
    );
    let mut values = Vec::new();
    collect_textless(&tree, &mut values);
    assert_eq!(
        values,
        vec![
            &Value::Float(1.5f32.to_bits()),
            &Value::Double2([0.25f64.to_bits(), (-2.0f64).to_bits()])
        ]
    );
    let texts = vec!["1.500000".to_string(), "0.250000 -2.000000".to_string()];
    let text = encode_text_with(&tree, EncodingType::UTF_8, &texts).unwrap();
    assert_eq!(
        String::from_utf8(text).unwrap(),
        "<?xml version=\"1.0\" encoding=\"UTF-8\"?><r><f __type=\"float\">1.500000</f>\
         <n __type=\"u8\">1</n><d __type=\"2double\">0.250000 -2.000000</d></r>"
    );
    let fault = Err(KbinError::StringParse { node_type: StandardType::Float, text: String::new() });
    assert_eq!(encode_text_with(&tree, EncodingType::UTF_8, &texts[..1]), fault);
    let mut long = texts.clone();
    long.push("x".to_string());
    assert_eq!(encode_text_with(&tree, EncodingType::UTF_8, &long), fault);
}

#[test]
fn an_element_is_closed_with_a_value_of_the_caller() {
    let mut reader = TextXmlReader::new(b"<r><f __type=\"float\">1.5</f></r>");
    assert!(reader.top().is_none());
    assert_eq!(reader.next_event(), Some(XmlEvent::Start { name: "r".to_string(), attrs: vec![] }));
    assert_eq!(
        reader.step(XmlEvent::Start { name: "r".to_string(), attrs: vec![] }),
        Ok(StepResult::Next)
    );
    let start = reader.next_event().unwrap();
    assert_eq!(reader.step(start), Ok(StepResult::Next));
    let text = reader.next_event().unwrap();
    assert_eq!(text, XmlEvent::Text("1.5".to_string()));
    assert_eq!(reader.step(text), Ok(StepResult::Next));
    assert_eq!(reader.next_event(), Some(XmlEvent::End));
    let top = reader.top().unwrap();
    assert_eq!(top.collection.base().node_type(), StandardType::Float);
    assert_eq!(top.text, b"1.5");
    assert_eq!(
        reader.close_with(Value::U8(1)),
        Err(KbinError::TypeMismatch { expected: StandardType::Float, found: StandardType::U8 })
    );

    let mut reader = TextXmlReader::new(b"<r><f __type=\"float\">1.5</f></r>");
    for _ in 0..3 {
        let event = reader.next_event().unwrap();
        assert_eq!(reader.step(event), Ok(StepResult::Next));
    }
    assert_eq!(reader.next_event(), Some(XmlEvent::End));
    assert_eq!(reader.close_with(Value::Float(1.5f32.to_bits())), Ok(StepResult::Next));
    assert_eq!(reader.next_event(), Some(XmlEvent::End));
    match reader.step(XmlEvent::End) {
        Ok(StepResult::Done(Some(root))) => assert_eq!(
            root.as_node(),
            Ok(Node::with_nodes("r", vec![Node::with_value("f", Value::Float(1.5f32.to_bits()))]))
        ),
        other => panic!("{:?}", other),
    }
    assert_eq!(reader.next_event(), Some(XmlEvent::Eof));
    assert_eq!(reader.close_with(Value::U8(1)), Err(KbinError::InvalidState));
}

#[test]
fn the_reader_takes_no_more_events_than_it_is_given() {
    let mut reader = TextXmlReader::new(b"");
    assert_eq!(reader.next_event(), Some(XmlEvent::Eof));
    assert_eq!(reader.next_event(), Some(XmlEvent::Eof));
    assert_eq!(reader.next_event(), None);
    assert_eq!(reader.as_node_collection(), Err(KbinError::EndOfStream));
}

#[test]
fn the_count_attribute_makes_an_array() {
    let empty = Node::with_value("arr", Value::Array(StandardType::U8, vec![]));
    let text = kbinxml::encode_text(&empty, EncodingType::UTF_8).unwrap();
    assert_eq!(
        String::from_utf8(text.clone()).unwrap(),
        "<?xml version=\"1.0\" encoding=\"UTF-8\"?><arr __type=\"u8\" __count=\"0\"></arr>"
    );
    assert_eq!(decode_text(&text), Ok((empty, EncodingType::UTF_8)));
    assert_eq!(
        decode_text(b"<arr __type=\"u8\" __count=\"0\"/>"),
        Ok((Node::with_value("arr", Value::Array(StandardType::U8, vec![])), EncodingType::UTF_8))
    );
    assert_eq!(
        decode_text(b"<arr __type=\"u8\" __count=\"1\">5</arr>"),
        Ok((
            Node::with_value("arr", Value::Array(StandardType::U8, vec![Value::U8(5)])),
            EncodingType::UTF_8
        ))
    );
    assert_eq!(decode_text(b"<arr __type=\"u8\" __count=\"0\">5</arr>"), Err(KbinError::InvalidState));
    assert_eq!(
        decode_text(b"<b __type=\"bin\" __size=\"0\"></b>"),
        Ok((Node::with_value("b", Value::Binary(vec![])), EncodingType::UTF_8))
    );
}

use kbinxml::encoding_type::EncodingType;
use kbinxml::error::KbinError;
use kbinxml::node::Node;
use kbinxml::node_types::StandardType;
use kbinxml::reader::{decode_binary, BinaryReader};
use kbinxml::value::Value;
use kbinxml::writer::encode_binary;

fn data_section(bytes: &[u8]) -> Vec<u8> {
    let node_len = u32::from_be_bytes([bytes[4], bytes[5], bytes[6], bytes[7]]) as usize;
    bytes[8 + node_len..].to_vec()
}

fn node_section(bytes: &[u8]) -> Vec<u8> {
    let node_len = u32::from_be_bytes([bytes[4], bytes[5], bytes[6], bytes[7]]) as usize;
    bytes[8..8 + node_len].to_vec()
}

#[test]
fn scalar_round_trip() {
    let tree = Node::with_value("n", Value::S32(-1));
    let bytes = encode_binary(&tree, EncodingType::UTF_8).unwrap();
    assert_eq!(
        bytes,
        vec![
            0xA0, 0x42, 0x80, 0x7F, 0x00, 0x00, 0x00, 0x08, // header
            0x02, 0x01, 0xC4, 0xBE, 0xBF, 0x00, 0x00, 0x00, // node section
            0xFF, 0xFF, 0xFF, 0xFF, // data section
        ]
    );
    let (back, encoding) = decode_binary(&bytes).unwrap();
    assert_eq!(back, tree);
    assert_eq!(encoding, EncodingType::UTF_8);
}

#[test]
fn attribute_ordering() {
    let tree = Node::with_attrs("x", &[("a", "1"), ("b", "2")]);
    let bytes = encode_binary(&tree, EncodingType::UTF_8).unwrap();
    assert_eq!(
        node_section(&bytes),
        vec![0x01, 0x01, 0xEC, 0x2E, 0x01, 0x90, 0x2E, 0x01, 0x94, 0xBE, 0xBF, 0x00]
    );
    assert_eq!(
        data_section(&bytes),
        vec![0, 0, 0, 2, b'1', 0, 0, 0, 0, 0, 0, 2, b'2', 0, 0, 0]
    );
    let (back, _) = decode_binary(&bytes).unwrap();
    let names: Vec<(&str, &str)> = back
        .attributes()
        .unwrap()
        .iter()
        .map(|(k, v)| (k.as_str(), v.as_str()))
        .collect();
    assert_eq!(names, vec![("a", "1"), ("b", "2")]);
    assert_eq!(encode_binary(&back, EncodingType::UTF_8).unwrap(), bytes);

    let swapped = Node::with_attrs("x", &[("b", "2"), ("a", "1")]);
    let other = encode_binary(&swapped, EncodingType::UTF_8).unwrap();
    assert_ne!(other, bytes);
    let (back, _) = decode_binary(&other).unwrap();
    let names: Vec<&str> = back.attributes().unwrap().keys().map(|k| k.as_str()).collect();
    assert_eq!(names, vec!["b", "a"]);
}

#[test]
fn packed_short_values() {
    let tree = Node::with_nodes(
        "p",
        vec![
            Node::with_value("a", Value::U8(10)),
            Node::with_value("b", Value::U8(20)),
            Node::with_value("c", Value::U8(30)),
        ],
    );
    let bytes = encode_binary(&tree, EncodingType::UTF_8).unwrap();
    assert_eq!(data_section(&bytes), vec![0x0A, 0x14, 0x1E, 0x00]);
    assert_eq!(decode_binary(&bytes).unwrap().0, tree);
}

#[test]
fn array_length() {
    let tree = Node::with_value(
        "arr",
        Value::Array(StandardType::U16, vec![Value::U16(1), Value::U16(2), Value::U16(3)]),
    );
    let bytes = encode_binary(&tree, EncodingType::UTF_8).unwrap();
    assert_eq!(
        data_section(&bytes),
        vec![0x00, 0x00, 0x00, 0x06, 0x00, 0x01, 0x00, 0x02, 0x00, 0x03, 0x00, 0x00]
    );
    assert_eq!(node_section(&bytes)[0], 5 | 0x40);
    assert_eq!(decode_binary(&bytes).unwrap().0, tree);
}

#[test]
fn ip4_payload() {
    let tree = Node::with_value("ip", Value::Ip4([127, 0, 0, 1]));
    let bytes = encode_binary(&tree, EncodingType::UTF_8).unwrap();
    assert_eq!(data_section(&bytes), vec![0x7F, 0x00, 0x00, 0x01]);
    assert_eq!(decode_binary(&bytes).unwrap().0, tree);
}

#[test]
fn mixed_tree() {
    let tree = Node::with_nodes(
        "root",
        vec![
            Node::with_value("a", Value::String("hi".to_string())),
            Node::with_value("b", Value::Boolean(true)),
        ],
    );
    let bytes = encode_binary(&tree, EncodingType::UTF_8).unwrap();
    assert_eq!(
        node_section(&bytes),
        vec![
            0x01, 0x04, 0xD7, 0x2C, 0xB7, // NodeStart "root"
            0x0A, 0x01, 0x90, 0xBE, // str "a", NodeEnd
            0x34, 0x01, 0x94, 0xBE, // bool "b", NodeEnd
            0xBE, 0xBF, 0x00, // NodeEnd, FileEnd, padding
        ]
    );
    assert_eq!(
        data_section(&bytes),
        vec![0x00, 0x00, 0x00, 0x03, b'h', b'i', 0x00, 0x00, 0x01, 0x00, 0x00, 0x00]
    );
    let (back, _) = decode_binary(&bytes).unwrap();
    assert_eq!(back, tree);
    let children = back.children().unwrap();
    assert_eq!(children[0].value(), Some(&Value::String("hi".to_string())));
    assert_eq!(children[1].value(), Some(&Value::Boolean(true)));
}

#[test]
fn short_cursors_share_no_window() {
    // u8, u16, u32, u8, u16: the byte and the word lane open one window each,
    // the long value goes behind both, and the later short values return to
    // the open windows.
    let tree = Node::with_nodes(
        "p",
        vec![
            Node::with_value("a", Value::U8(0x11)),
            Node::with_value("b", Value::U16(0x2233)),
            Node::with_value("c", Value::U32(0x44556677)),
            Node::with_value("d", Value::U8(0x88)),
            Node::with_value("e", Value::U16(0x99AA)),
        ],
    );
    let bytes = encode_binary(&tree, EncodingType::UTF_8).unwrap();
    assert_eq!(
        data_section(&bytes),
        vec![0x11, 0x88, 0x00, 0x00, 0x22, 0x33, 0x99, 0xAA, 0x44, 0x55, 0x66, 0x77]
    );
    assert_eq!(decode_binary(&bytes).unwrap().0, tree);
}

#[test]
fn array_realigns_the_short_cursors() {
    let tree = Node::with_nodes(
        "p",
        vec![
            Node::with_value("a", Value::U8(1)),
            Node::with_value("b", Value::Array(StandardType::U8, vec![Value::U8(7)])),
            Node::with_value("c", Value::U8(2)),
        ],
    );
    let bytes = encode_binary(&tree, EncodingType::UTF_8).unwrap();
    assert_eq!(
        data_section(&bytes),
        vec![1, 0, 0, 0, 0, 0, 0, 1, 7, 0, 0, 0, 2, 0, 0, 0]
    );
    assert_eq!(decode_binary(&bytes).unwrap().0, tree);
}

#[test]
fn identifiers_fall_back_to_text_for_the_whole_document() {
    let tree = Node::with_nodes("root", vec![Node::with_value("a-b", Value::U8(1))]);
    let bytes = encode_binary(&tree, EncodingType::UTF_8).unwrap();
    assert_eq!(bytes[1], 0x45);
    assert_eq!(
        node_section(&bytes),
        vec![
            0x01, 0x43, b'r', b'o', b'o', b't', 0x03, 0x42, b'a', b'-', b'b', 0xBE, 0xBE, 0xBF,
            0x00, 0x00
        ]
    );
    assert_eq!(decode_binary(&bytes).unwrap().0, tree);
}

#[test]
fn every_encoding_has_its_header_byte() {
    for (encoding, byte) in [
        (EncodingType::SHIFT_JIS, 0x00u8),
        (EncodingType::ASCII, 0x20),
        (EncodingType::ISO_8859_1, 0x40),
        (EncodingType::EUC_JP, 0x60),
        (EncodingType::UTF_8, 0x80),
    ] {
        let tree = Node::with_value("n", Value::String("abc".to_string()));
        let bytes = encode_binary(&tree, encoding).unwrap();
        assert_eq!(bytes[2], byte);
        assert_eq!(bytes[3], !byte);
        assert_eq!(decode_binary(&bytes).unwrap(), (tree, encoding));
    }
}

#[test]
fn text_goes_through_the_document_encoding() {
    let tree = Node::with_value("n", Value::String("é".to_string()));
    let latin = encode_binary(&tree, EncodingType::ISO_8859_1).unwrap();
    assert_eq!(data_section(&latin), vec![0, 0, 0, 2, 0xE9, 0, 0, 0]);
    assert_eq!(decode_binary(&latin).unwrap().0, tree);
    let utf8 = encode_binary(&tree, EncodingType::UTF_8).unwrap();
    assert_eq!(data_section(&utf8), vec![0, 0, 0, 3, 0xC3, 0xA9, 0, 0]);
    assert_eq!(encode_binary(&tree, EncodingType::ASCII), Err(KbinError::EncodingError));

    let kana = Node::with_value("n", Value::String("あ".to_string()));
    let sjis = encode_binary(&kana, EncodingType::SHIFT_JIS).unwrap();
    assert_eq!(data_section(&sjis), vec![0, 0, 0, 3, 0x82, 0xA0, 0, 0]);
    assert_eq!(decode_binary(&sjis).unwrap().0, kana);
    let euc = encode_binary(&kana, EncodingType::EUC_JP).unwrap();
    assert_eq!(data_section(&euc), vec![0, 0, 0, 3, 0xA4, 0xA2, 0, 0]);
    assert_eq!(decode_binary(&euc).unwrap().0, kana);
}

#[test]
fn header_faults() {
    let good = encode_binary(&Node::new("n"), EncodingType::UTF_8).unwrap();
    assert!(decode_binary(&good).is_ok());
    assert_eq!(decode_binary(&good[..7]), Err(KbinError::EndOfStream));
    let mut bad = good.clone();
    bad[0] = 0xA1;
    assert_eq!(decode_binary(&bad), Err(KbinError::InvalidHeader));
    let mut bad = good.clone();
    bad[1] = 0x43;
    assert_eq!(decode_binary(&bad), Err(KbinError::InvalidHeader));
    let mut bad = good.clone();
    bad[2] = 0xA0;
    bad[3] = 0x5F;
    assert_eq!(decode_binary(&bad), Err(KbinError::InvalidHeader));
    let mut bad = good.clone();
    bad[3] = 0x7E;
    assert_eq!(decode_binary(&bad), Err(KbinError::InvalidHeader));
    let mut bad = good.clone();
    bad[7] = 0x40;
    assert_eq!(decode_binary(&bad), Err(KbinError::EndOfStream));
}

fn document(nodes: &[u8], data: &[u8]) -> Vec<u8> {
    let mut padded = nodes.to_vec();
    while padded.len() % 4 != 0 {
        padded.push(0);
    }
    let mut out = vec![0xA0, 0x42, 0x80, 0x7F];
    out.extend_from_slice(&(padded.len() as u32).to_be_bytes());
    out.extend_from_slice(&padded);
    out.extend_from_slice(data);
    out
}

#[test]
fn structure_faults() {
    // an unknown tag id
    assert_eq!(decode_binary(&document(&[0x2F, 0x01, 0xC4], &[])), Err(KbinError::UnknownType(0x2F)));
    // the closing tag of a node before any node
    assert_eq!(decode_binary(&document(&[0xBE], &[])), Err(KbinError::InvalidState));
    // the closing tag of the document before any node
    assert_eq!(decode_binary(&document(&[0xBF], &[])), Err(KbinError::InvalidState));
    // an attribute before any node
    assert_eq!(
        decode_binary(&document(&[0x2E, 0x01, 0xC4], &[0, 0, 0, 1, 0, 0, 0, 0])),
        Err(KbinError::InvalidState)
    );
    // the document closes while a node is open
    assert_eq!(
        decode_binary(&document(&[0x01, 0x01, 0xC4, 0xBF], &[])),
        Err(KbinError::TypeMismatch {
            expected: StandardType::NodeEnd,
            found: StandardType::FileEnd
        })
    );
    // a second root
    assert_eq!(
        decode_binary(&document(&[0x01, 0x01, 0xC4, 0xBE, 0x01, 0x01, 0xC4, 0xBE, 0xBF], &[])),
        Err(KbinError::TypeMismatch {
            expected: StandardType::FileEnd,
            found: StandardType::NodeStart
        })
    );
    // an attribute behind a child
    assert_eq!(
        decode_binary(&document(
            &[0x01, 0x01, 0xC4, 0x01, 0x01, 0xC4, 0xBE, 0x2E, 0x01, 0xC4, 0xBE, 0xBF],
            &[0, 0, 0, 1, 0, 0, 0, 0]
        )),
        Err(KbinError::InvalidState)
    );
    // the node stream ends inside a node
    assert_eq!(
        decode_binary(&document(&[0x01, 0x02, 0x92, 0x50], &[])),
        Err(KbinError::EndOfStream)
    );
    // an array of a type without fixed size
    assert_eq!(
        decode_binary(&document(&[0x4A, 0x01, 0xC4, 0xBE, 0xBF], &[0, 0, 0, 0])),
        Err(KbinError::InvalidState)
    );
}

#[test]
fn data_faults() {
    // the data stream ends before the value
    assert_eq!(
        decode_binary(&document(&[0x02, 0x01, 0xC4, 0xBE, 0xBF], &[0xFF, 0xFF])),
        Err(KbinError::EndOfStream)
    );
    // a boolean byte that is neither 0 nor 1
    assert_eq!(
        decode_binary(&document(&[0x34, 0x01, 0xC4, 0xBE, 0xBF], &[2, 0, 0, 0])),
        Err(KbinError::InvalidBoolean(2))
    );
    // an array whose length is no multiple of the size of its items
    assert_eq!(
        decode_binary(&document(&[0x45, 0x01, 0xC4, 0xBE, 0xBF], &[0, 0, 0, 3, 0, 1, 0, 0])),
        Err(KbinError::SizeMismatch { node_type: StandardType::U16, expected: 2, found: 3 })
    );
    // text that is not text in the document's encoding
    assert_eq!(
        decode_binary(&document(&[0x0A, 0x01, 0xC4, 0xBE, 0xBF], &[0, 0, 0, 2, 0xFF, 0, 0, 0])),
        Err(KbinError::EncodingError)
    );
}

#[test]
fn boolean_fault_consumes_only_the_value() {
    let bytes = document(&[0x34, 0x01, 0xC4, 0xBE, 0xBF], &[2, 1, 0, 0]);
    let mut reader = BinaryReader::new(&bytes).unwrap();
    assert_eq!(reader.read_node_type(), Ok((StandardType::Boolean, false)));
    assert_eq!(reader.read_node_identifier(), Ok("n".to_string()));
    assert_eq!(reader.read_value(StandardType::Boolean, false), Err(KbinError::InvalidBoolean(2)));
    // the next byte of the window is still to be read
    assert_eq!(reader.read_value(StandardType::Boolean, false), Ok(Some(Value::Boolean(true))));
}

#[test]
fn writer_faults() {
    assert_eq!(
        encode_binary(&Node::with_value("n", Value::Attribute("x".to_string())), EncodingType::UTF_8),
        Err(KbinError::InvalidState)
    );
    assert_eq!(
        encode_binary(
            &Node::with_value("n", Value::Node(Box::new(Node::new("m")))),
            EncodingType::UTF_8
        ),
        Err(KbinError::InvalidState)
    );
    assert_eq!(
        encode_binary(
            &Node::with_value("n", Value::Array(StandardType::U8, vec![Value::U16(1)])),
            EncodingType::UTF_8
        ),
        Err(KbinError::InvalidState)
    );
    assert_eq!(encode_binary(&Node::new(""), EncodingType::UTF_8), Err(KbinError::InvalidIdentifier));
    let long: String = std::iter::repeat('-').take(65).collect();
    assert_eq!(encode_binary(&Node::new(&long), EncodingType::UTF_8), Err(KbinError::InvalidIdentifier));
    assert_eq!(encode_binary(&Node::new("é-"), EncodingType::ASCII), Err(KbinError::EncodingError));
}

#[test]
fn deep_and_wide_tree_round_trip() {
    let mut leafs = Vec::new();
    for i in 0..40u32 {
        let mut leaf = Node::with_value(&format!("leaf{}", i), Value::S16_3([i as i16, -(i as i16), 7]));
        leaf.set_attr("idx", &i.to_string());
        leafs.push(leaf);
    }
    let mut tree = Node::with("top", &[("k", "v"), ("k2", "")], leafs);
    for depth in 0..30 {
        let mut parent = Node::with_value(&format!("d{}", depth), Value::U64(depth));
        parent.append_child(tree);
        parent.append_child(Node::with_value("bin", Value::Binary(vec![1, 2, 3, 4, 5])));
        parent.append_child(Node::with_value("vb", Value::Vb([true; 16])));
        tree = parent;
    }
    let bytes = encode_binary(&tree, EncodingType::UTF_8).unwrap();
    assert_eq!(decode_binary(&bytes).unwrap().0, tree);
}

#[test]
fn a_text_that_its_encoding_does_not_give_back() {
    // Shift-JIS writes the yen sign as the byte that it reads as a backslash.
    let bytes = EncodingType::SHIFT_JIS.encode_bytes("\u{a5}").unwrap();
    assert_eq!(bytes, vec![0x5C]);
    assert_eq!(EncodingType::SHIFT_JIS.decode_bytes(&bytes), Ok("\\".to_string()));
    let tree = Node::with_value("n", Value::String("\u{a5}".to_string()));
    let document = encode_binary(&tree, EncodingType::SHIFT_JIS).unwrap();
    assert_eq!(
        decode_binary(&document),
        Ok((Node::with_value("n", Value::String("\\".to_string())), EncodingType::SHIFT_JIS))
    );
    assert_eq!(
        decode_binary(&encode_binary(&tree, EncodingType::UTF_8).unwrap()),
        Ok((tree, EncodingType::UTF_8))
    );
}

use kbinxml::byte_buffer::{ByteBufferRead, ByteBufferWrite, Lane};
use kbinxml::encoding_type::EncodingType;
use kbinxml::error::KbinError;
use kbinxml::node::{convert_attributes, Node, OptionIterator};
use kbinxml::node_types::{ElementKind, StandardType, ARRAY_MASK};
use kbinxml::text_writer::{encode_text, push_escaped};
use kbinxml::text_reader::decode_text;
use kbinxml::value::Value;
use kbinxml::walk::WalkEvent;

#[test]
fn builders_and_getters() {
    let n = Node::new("a");
    assert_eq!(n.key(), "a");
    assert!(n.attributes().is_none());
    assert!(n.children().is_none());
    assert!(n.value().is_none());
    let n = Node::with_attrs("a", &[("x", "1"), ("y", "2"), ("x", "3")]);
    let attrs: Vec<(&str, &str)> =
        n.attributes().unwrap().iter().map(|(k, v)| (k.as_str(), v.as_str())).collect();
    assert_eq!(attrs, vec![("x", "3"), ("y", "2")]);
    assert_eq!(n.attr("x"), Some("3"));
    assert_eq!(n.attr("y"), Some("2"));
    assert_eq!(n.attr("z"), None);
    assert_eq!(Node::new("a").attr("x"), None);
    let n = Node::with_value("a", Value::U8(7));
    assert_eq!(n.value(), Some(&Value::U8(7)));
    assert_eq!(n.into_key_and_value(), ("a".to_string(), Some(Value::U8(7))));
    let n = Node::with_nodes("a", vec![Node::new("b"), Node::new("c")]);
    assert_eq!(n.children().unwrap().len(), 2);
    let n = Node::with("a", &[("k", "v")], vec![Node::new("b")]);
    assert_eq!(n.attr("k"), Some("v"));
    assert_eq!(n.children().unwrap()[0].key(), "b");
    let n = Node::with_attrs_value("a", &[("k", "v")], Value::S8(-1));
    assert_eq!(n.attr("k"), Some("v"));
    assert_eq!(n.value(), Some(&Value::S8(-1)));
    let map = convert_attributes(&[("b", "1"), ("a", "2")]);
    assert_eq!(map.keys().collect::<Vec<_>>(), vec!["b", "a"]);
}

#[test]
fn setters() {
    let mut n = Node::new("a");
    n.set_key("b".to_string());
    assert_eq!(n.key(), "b");
    assert_eq!(n.set_attr("k", "1"), None);
    assert_eq!(n.set_attr("j", "2"), None);
    assert_eq!(n.set_attr("k", "3"), Some("1".to_string()));
    let attrs: Vec<(&str, &str)> =
        n.attributes().unwrap().iter().map(|(k, v)| (k.as_str(), v.as_str())).collect();
    assert_eq!(attrs, vec![("k", "3"), ("j", "2")]);
    assert_eq!(n.set_value(Some(Value::U8(1))), None);
    assert_eq!(n.set_value(Some(Value::U8(2))), Some(Value::U8(1)));
    assert_eq!(n.set_value(None), Some(Value::U8(2)));
    assert_eq!(n.value(), None);
    n.append_child(Node::new("x"));
    n.append_child(Node::with_value("y", Value::U8(1)));
    n.append_child(Node::with_value("y", Value::U8(2)));
    assert!(n.has("x") && n.has("y") && !n.has("z"));
    assert_eq!(n.get_child("y"), Some(&Node::with_value("y", Value::U8(1))));
    assert_eq!(n.get_child("z"), None);
    assert_eq!(Node::new("e").get_child("y"), None);
    assert!(!Node::new("e").has("y"));
    n.get_child_mut("y").unwrap().set_key("w".to_string());
    assert_eq!(n.children().unwrap()[1].key(), "w");
    assert_eq!(n.get_child("y"), Some(&Node::with_value("y", Value::U8(2))));
    assert!(n.get_child_mut("q").is_none());
    n.children_mut().unwrap().clear();
    assert_eq!(n.children().unwrap().len(), 0);
    assert!(Node::new("e").children_mut().is_none());
}

#[test]
fn option_iterator() {
    let mut it = OptionIterator::new(Some(vec![1, 2].into_iter()));
    assert_eq!(it.next(), Some(1));
    assert_eq!(it.next(), Some(2));
    assert_eq!(it.next(), None);
    let mut none: OptionIterator<std::vec::IntoIter<u8>> = OptionIterator::new(None);
    assert_eq!(none.next(), None);
    assert_eq!(none.next(), None);
}

#[test]
fn registry_by_id_and_name() {
    assert_eq!(StandardType::from_u8(1), Ok(StandardType::NodeStart));
    assert_eq!(StandardType::from_u8(2), Ok(StandardType::S32));
    assert_eq!(StandardType::from_u8(10), Ok(StandardType::String));
    assert_eq!(StandardType::from_u8(11), Ok(StandardType::Binary));
    assert_eq!(StandardType::from_u8(46), Ok(StandardType::Attribute));
    assert_eq!(StandardType::from_u8(190), Ok(StandardType::NodeEnd));
    assert_eq!(StandardType::from_u8(191), Ok(StandardType::FileEnd));
    assert_eq!(StandardType::from_u8(0), Err(KbinError::UnknownType(0)));
    assert_eq!(StandardType::from_u8(47), Err(KbinError::UnknownType(47)));
    assert_eq!(StandardType::from_u8(57), Err(KbinError::UnknownType(57)));
    assert_eq!(StandardType::from_name("s32"), Ok(StandardType::S32));
    assert_eq!(StandardType::from_name("str"), Ok(StandardType::String));
    assert_eq!(StandardType::from_name("bool"), Ok(StandardType::Boolean));
    assert_eq!(StandardType::from_name("4u16"), Ok(StandardType::U16_4));
    assert_eq!(StandardType::from_name("3float"), Ok(StandardType::Float3));
    assert_eq!(StandardType::from_name("vb"), Ok(StandardType::Vb));
    assert_eq!(
        StandardType::from_name("S32"),
        Err(KbinError::UnknownTypeName("S32".to_string()))
    );
    assert_eq!(StandardType::lookup_name("nope"), None);
    let mut count = 0;
    for id in 0..=255u8 {
        if let Ok(t) = StandardType::from_u8(id) {
            count += 1;
            assert_eq!(t.id(), id);
            assert_eq!(StandardType::from_name(t.name()), Ok(t));
            assert_eq!(t.byte_len(), t.size() * t.count());
            assert_eq!(t.id() & ARRAY_MASK, 0);
            match t.kind() {
                Some(kind) => {
                    assert!([1, 2, 4, 8].contains(&t.size()) && t.count() >= 1);
                    assert_eq!(kind == ElementKind::Bool, t.name().ends_with('b') || t.name() == "bool");
                },
                None => assert_eq!(t.byte_len(), 0),
            }
        }
    }
    assert_eq!(count, 57);
    assert_eq!(StandardType::S32.size(), 4);
    assert_eq!(StandardType::Ip4.byte_len(), 4);
    assert_eq!(StandardType::Vs8.count(), 16);
    assert_eq!(StandardType::Vu16.count(), 8);
    assert!(StandardType::Double3.is_float() && !StandardType::U32.is_float());
}

#[test]
fn encodings() {
    for e in [
        EncodingType::SHIFT_JIS,
        EncodingType::ASCII,
        EncodingType::ISO_8859_1,
        EncodingType::EUC_JP,
        EncodingType::UTF_8,
    ] {
        assert_eq!(EncodingType::from_byte(e.to_byte()), Ok(e));
        assert_eq!(EncodingType::from_label(e.name()), Ok(e));
        assert_eq!(e.decode_bytes(&e.encode_bytes("plain").unwrap()), Ok("plain".to_string()));
    }
    assert_eq!(EncodingType::from_byte(0x10), Err(KbinError::InvalidHeader));
    assert_eq!(EncodingType::from_byte(0xA0), Err(KbinError::InvalidHeader));
    assert_eq!(EncodingType::from_label("utf-8"), Ok(EncodingType::UTF_8));
    assert_eq!(EncodingType::from_label("Shift_JIS"), Ok(EncodingType::SHIFT_JIS));
    assert_eq!(EncodingType::from_label("US-ASCII"), Ok(EncodingType::ASCII));
    assert_eq!(EncodingType::from_label("latin1"), Err(KbinError::EncodingError));
    assert_eq!(EncodingType::UTF_8.encode_bytes("é"), Ok(vec![0xC3, 0xA9]));
    assert_eq!(EncodingType::UTF_8.decode_bytes(&[0xC3]), Err(KbinError::EncodingError));
    assert_eq!(EncodingType::ISO_8859_1.encode_bytes("é"), Ok(vec![0xE9]));
    assert_eq!(EncodingType::ISO_8859_1.encode_bytes("あ"), Err(KbinError::EncodingError));
    assert_eq!(EncodingType::ISO_8859_1.decode_bytes(&[0xE9, 0x41]), Ok("éA".to_string()));
    assert_eq!(EncodingType::ASCII.encode_bytes("é"), Err(KbinError::EncodingError));
    assert_eq!(EncodingType::ASCII.decode_bytes(&[0x80]), Err(KbinError::EncodingError));
    assert_eq!(EncodingType::SHIFT_JIS.encode_bytes("あ"), Ok(vec![0x82, 0xA0]));
    assert_eq!(EncodingType::SHIFT_JIS.decode_bytes(&[0x82, 0xA0]), Ok("あ".to_string()));
    assert_eq!(EncodingType::SHIFT_JIS.decode_bytes(&[0x82]), Err(KbinError::EncodingError));
    assert_eq!(EncodingType::SHIFT_JIS.encode_bytes("😀"), Err(KbinError::EncodingError));
    assert_eq!(EncodingType::EUC_JP.encode_bytes("あ"), Ok(vec![0xA4, 0xA2]));
    assert_eq!(EncodingType::EUC_JP.decode_bytes(&[0xA4, 0xA2]), Ok("あ".to_string()));
    assert_eq!(EncodingType::EUC_JP.decode_bytes(&[0xA4]), Err(KbinError::EncodingError));
    assert_eq!(EncodingType::EUC_JP.encode_bytes("😀"), Err(KbinError::EncodingError));
}

#[test]
fn write_cursors_fill_windows() {
    let mut w = ByteBufferWrite::new();
    w.put(Lane::Byte, &[1]);
    w.put(Lane::Word, &[2, 3]);
    w.put(Lane::Byte, &[4]);
    w.put(Lane::Dword, &[5, 6, 7, 8, 9]);
    w.put(Lane::Word, &[10, 11]);
    w.put(Lane::Byte, &[12]);
    w.put(Lane::Byte, &[13]);
    w.put(Lane::Byte, &[14]);
    w.put(Lane::Word, &[15, 16]);
    w.write_u32(0x01020304);
    w.write_aligned(StandardType::U8, &[17]);
    assert_eq!(
        w.into_inner(),
        vec![
            1, 4, 12, 13, // the first byte window
            2, 3, 10, 11, // the first word window
            5, 6, 7, 8, 9, 0, 0, 0, // a long value with its padding
            14, 17, 0, 0, // the second byte window
            15, 16, 0, 0, // the second word window
            1, 2, 3, 4, // a length
        ]
    );
}

#[test]
fn read_cursors_follow_the_writer() {
    let data = [1, 4, 12, 13, 2, 3, 10, 11, 5, 6, 7, 8, 9, 0, 0, 0, 14, 0, 0, 0, 15, 16, 0, 0];
    let mut r = ByteBufferRead::new(&data);
    assert_eq!(r.take(Lane::Byte, 1), Ok(&[1u8][..]));
    assert_eq!(r.take(Lane::Word, 2), Ok(&[2u8, 3][..]));
    assert_eq!(r.get_aligned(StandardType::S8), Ok(&[4u8][..]));
    assert_eq!(r.get(5), Ok(&[5u8, 6, 7, 8, 9][..]));
    assert_eq!(r.get_aligned(StandardType::U16), Ok(&[10u8, 11][..]));
    assert_eq!(r.take(Lane::Byte, 1), Ok(&[12u8][..]));
    assert_eq!(r.take(Lane::Byte, 1), Ok(&[13u8][..]));
    assert_eq!(r.take(Lane::Byte, 1), Ok(&[14u8][..]));
    assert_eq!(r.take(Lane::Word, 2), Ok(&[15u8, 16][..]));
    assert_eq!(r.take(Lane::Word, 2), Ok(&[0u8, 0][..]));
    assert_eq!(r.take(Lane::Dword, 1), Err(KbinError::EndOfStream));
    assert_eq!(r.read_u32(), Err(KbinError::EndOfStream));
    assert_eq!(r.take(Lane::Byte, 1), Ok(&[0u8][..]));
}

#[test]
fn realign_closes_the_open_windows() {
    let mut w = ByteBufferWrite::new();
    w.put(Lane::Byte, &[1]);
    w.put(Lane::Word, &[2, 3]);
    w.realign_writes();
    w.put(Lane::Byte, &[4]);
    w.put(Lane::Word, &[5, 6]);
    let data = w.into_inner();
    assert_eq!(data, vec![1, 0, 0, 0, 2, 3, 0, 0, 4, 0, 0, 0, 5, 6, 0, 0]);
    let mut r = ByteBufferRead::new(&data);
    assert_eq!(r.take(Lane::Byte, 1), Ok(&[1u8][..]));
    assert_eq!(r.take(Lane::Word, 2), Ok(&[2u8, 3][..]));
    r.realign_reads();
    assert_eq!(r.take(Lane::Byte, 1), Ok(&[4u8][..]));
    assert_eq!(r.take(Lane::Word, 2), Ok(&[5u8, 6][..]));
    assert_eq!(r.read_u32(), Err(KbinError::EndOfStream));
}

#[test]
fn text_of_a_tree() {
    let tree = Node::with(
        "root",
        &[("k", "a<b"), ("q", "\"")],
        vec![
            Node::with_value("s", Value::String("x & y".to_string())),
            Node::with_value("n", Value::S16_2([1, -2])),
            Node::with_value("arr", Value::Array(StandardType::U8, vec![Value::U8(1), Value::U8(2)])),
            Node::with_value("bin", Value::Binary(vec![0xDE, 0xAD])),
            Node::new("e"),
        ],
    );
    let text = encode_text(&tree, EncodingType::UTF_8).unwrap();
    assert_eq!(
        String::from_utf8(text.clone()).unwrap(),
        "<?xml version=\"1.0\" encoding=\"UTF-8\"?><root k=\"a&lt;b\" q=\"&quot;\">\
         <s __type=\"str\">x &amp; y</s>\
         <n __type=\"2s16\">1 -2</n>\
         <arr __type=\"u8\" __count=\"2\">1 2</arr>\
         <bin __type=\"bin\" __size=\"2\">dead</bin>\
         <e/></root>"
    );
    assert_eq!(decode_text(&text), Ok((tree, EncodingType::UTF_8)));
}

#[test]
fn text_in_the_encoding_of_the_document() {
    let tree = Node::with_value("a", Value::String("é".to_string()));
    let latin = encode_text(&tree, EncodingType::ISO_8859_1).unwrap();
    assert!(latin.ends_with(&[b'>', 0xE9, b'<', b'/', b'a', b'>']));
    assert_eq!(encode_text(&tree, EncodingType::ASCII), Err(KbinError::EncodingError));
    assert_eq!(
        encode_text(&Node::with_value("f", Value::Float(0)), EncodingType::UTF_8),
        Err(KbinError::StringParse { node_type: StandardType::Float, text: String::new() })
    );
    let mut s = String::new();
    push_escaped(&mut s, "a&b<c>d\"e'f\rg");
    assert_eq!(s, "a&amp;b&lt;c&gt;d&quot;e&apos;f&#13;g");
}

#[test]
fn copies_are_equal_and_independent() {
    let mut tree = Node::with(
        "r",
        &[("b", "1"), ("a", "2")],
        vec![
            Node::with_value("v", Value::S16_3([1, -2, 3])),
            Node::with_value("f", Value::Double(1.5f64.to_bits())),
            Node::with_value("arr", Value::Array(StandardType::Vb, vec![Value::Vb([true; 16])])),
            Node::with_value("s", Value::String("text".to_string())),
            Node::with_value("n", Value::Node(Box::new(Node::with_value("i", Value::Binary(vec![1]))))),
        ],
    );
    let copy = tree.clone();
    assert_eq!(copy, tree);
    let names: Vec<&str> = copy.attributes().unwrap().keys().map(|k| k.as_str()).collect();
    assert_eq!(names, vec!["b", "a"]);
    tree.set_key("other".to_string());
    assert_eq!(copy.key(), "r");
    for v in [
        Value::S8(-1),
        Value::U64(u64::MAX),
        Value::Boolean4([true, false, false, true]),
        Value::Ip4([1, 2, 3, 4]),
        Value::Time(9),
        Value::Float(7),
        Value::Vs16([-1; 8]),
        Value::Attribute("a".to_string()),
    ] {
        assert_eq!(v.clone(), v);
    }
}

#[test]
fn the_root_of_the_crate_names_the_codec() {
    let tree = kbinxml::Node::with_value("n", kbinxml::Value::U8(1));
    let bytes = kbinxml::encode_binary(&tree, kbinxml::EncodingType::ASCII).unwrap();
    assert_eq!(kbinxml::decode_binary(&bytes), Ok((tree.clone(), kbinxml::EncodingType::ASCII)));
    let text = kbinxml::encode_text(&tree, kbinxml::EncodingType::ASCII).unwrap();
    assert_eq!(kbinxml::decode_text(&text), Ok((tree, kbinxml::EncodingType::ASCII)));
    assert_eq!(kbinxml::StandardType::from_u8(0), Err(kbinxml::KbinError::UnknownType(0)));
}

#[test]
fn walk_gives_the_events_in_document_order() {
    let tree = Node::with(
        "r",
        &[("a", "1"), ("b", "2")],
        vec![Node::with_value("v", Value::U8(7)), Node::with_nodes("c", vec![Node::new("d")])],
    );
    let enter = |name: &str, attrs: &[(&str, &str)]| WalkEvent::Enter {
        name: name.to_string(),
        attrs: attrs.iter().map(|(k, v)| (k.to_string(), v.to_string())).collect(),
    };
    assert_eq!(
        tree.walk(),
        vec![
            (0, enter("r", &[("a", "1"), ("b", "2")])),
            (1, enter("v", &[])),
            (1, WalkEvent::Value(Value::U8(7))),
            (1, WalkEvent::Leave),
            (1, enter("c", &[])),
            (2, enter("d", &[])),
            (2, WalkEvent::Leave),
            (1, WalkEvent::Leave),
            (0, WalkEvent::Leave),
        ]
    );
    let mut out = vec![(9, WalkEvent::Leave)];
    Node::new("x").walk_into(usize::MAX, &mut out);
    assert_eq!(out.len(), 3);
    assert_eq!(out[1].0, usize::MAX);
}

use kbinxml::de::{
    bool_of_byte, dispatch_any, element_at, field_name, reads_as_value, AnyAction, ReadMode,
};
use kbinxml::endian::{get_elem, get_elems, put_elem, put_elems};
use kbinxml::error::KbinError;
use kbinxml::node::Node;
use kbinxml::node_types::StandardType;
use kbinxml::number_text::{parse_bounded, push_decimal, push_int};
use kbinxml::value::Value;
use kbinxml::value_array::ValueArray;

fn mismatch(expected: StandardType, found: StandardType) -> KbinError {
    KbinError::TypeMismatch { expected, found }
}

#[test]
fn scalars_from_bytes_are_big_endian() {
    let f = Value::from_standard_type;
    assert_eq!(f(StandardType::S8, false, &[0x80]), Ok(Some(Value::S8(-128))));
    assert_eq!(f(StandardType::U8, false, &[0x80]), Ok(Some(Value::U8(128))));
    assert_eq!(f(StandardType::S16, false, &[0xFF, 0xFE]), Ok(Some(Value::S16(-2))));
    assert_eq!(f(StandardType::U16, false, &[0x12, 0x34]), Ok(Some(Value::U16(0x1234))));
    assert_eq!(f(StandardType::S32, false, &[0xFF; 4]), Ok(Some(Value::S32(-1))));
    assert_eq!(f(StandardType::U32, false, &[1, 2, 3, 4]), Ok(Some(Value::U32(0x01020304))));
    assert_eq!(
        f(StandardType::S64, false, &[0x80, 0, 0, 0, 0, 0, 0, 0]),
        Ok(Some(Value::S64(i64::MIN)))
    );
    assert_eq!(
        f(StandardType::U64, false, &[1, 2, 3, 4, 5, 6, 7, 8]),
        Ok(Some(Value::U64(0x0102030405060708)))
    );
    assert_eq!(f(StandardType::Time, false, &[0, 0, 1, 0]), Ok(Some(Value::Time(256))));
    assert_eq!(f(StandardType::Ip4, false, &[127, 0, 0, 1]), Ok(Some(Value::Ip4([127, 0, 0, 1]))));
    assert_eq!(
        f(StandardType::Float, false, &[0x3F, 0x80, 0, 0]),
        Ok(Some(Value::Float(1.0f32.to_bits())))
    );
    assert_eq!(
        f(StandardType::Double, false, &[0xC0, 0, 0, 0, 0, 0, 0, 0]),
        Ok(Some(Value::Double((-2.0f64).to_bits())))
    );
    assert_eq!(f(StandardType::Boolean, false, &[1]), Ok(Some(Value::Boolean(true))));
    assert_eq!(f(StandardType::Boolean, false, &[0]), Ok(Some(Value::Boolean(false))));
}

#[test]
fn vectors_from_bytes() {
    let f = Value::from_standard_type;
    assert_eq!(f(StandardType::S8_2, false, &[1, 0xFF]), Ok(Some(Value::S8_2([1, -1]))));
    assert_eq!(
        f(StandardType::U16_3, false, &[0, 1, 0, 2, 0xFF, 0xFF]),
        Ok(Some(Value::U16_3([1, 2, 65535])))
    );
    assert_eq!(
        f(StandardType::S32_4, false, &[0, 0, 0, 1, 0xFF, 0xFF, 0xFF, 0xFF, 0, 0, 0, 3, 0, 0, 0, 4]),
        Ok(Some(Value::S32_4([1, -1, 3, 4])))
    );
    assert_eq!(
        f(StandardType::Float2, false, &[0x3F, 0x80, 0, 0, 0x40, 0, 0, 0]),
        Ok(Some(Value::Float2([1.0f32.to_bits(), 2.0f32.to_bits()])))
    );
    let mut bytes = [0u8; 16];
    bytes[15] = 1;
    let mut flags = [false; 16];
    flags[15] = true;
    assert_eq!(f(StandardType::Vb, false, &bytes), Ok(Some(Value::Vb(flags))));
    assert_eq!(f(StandardType::Vu16, false, &bytes), Ok(Some(Value::Vu16([0, 0, 0, 0, 0, 0, 0, 1]))));
    assert_eq!(
        f(StandardType::Boolean4, false, &[1, 0, 3, 2]),
        Err(KbinError::InvalidBoolean(3))
    );
}

#[test]
fn values_without_payload_and_size_faults() {
    let f = Value::from_standard_type;
    for t in [
        StandardType::NodeStart,
        StandardType::NodeEnd,
        StandardType::FileEnd,
        StandardType::Attribute,
        StandardType::String,
    ] {
        assert_eq!(f(t, false, &[1, 2, 3]), Ok(None));
        assert_eq!(f(t, true, &[]), Err(KbinError::InvalidState));
    }
    assert_eq!(f(StandardType::Binary, false, &[1, 2, 3]), Ok(Some(Value::Binary(vec![1, 2, 3]))));
    assert_eq!(f(StandardType::Binary, true, &[1]), Err(KbinError::InvalidState));
    assert_eq!(
        f(StandardType::S32, false, &[0, 0]),
        Err(KbinError::SizeMismatch { node_type: StandardType::S32, expected: 4, found: 2 })
    );
    assert_eq!(
        f(StandardType::U16, true, &[0, 1, 2]),
        Err(KbinError::SizeMismatch { node_type: StandardType::U16, expected: 2, found: 3 })
    );
    assert_eq!(f(StandardType::Boolean, false, &[2]), Err(KbinError::InvalidBoolean(2)));
    assert_eq!(f(StandardType::Boolean, true, &[0, 1, 0xFF, 4]), Err(KbinError::InvalidBoolean(0xFF)));
    assert_eq!(f(StandardType::U16, true, &[]), Ok(Some(Value::Array(StandardType::U16, vec![]))));
    assert_eq!(
        f(StandardType::S8_2, true, &[1, 2, 3, 4]),
        Ok(Some(Value::Array(StandardType::S8_2, vec![Value::S8_2([1, 2]), Value::S8_2([3, 4])])))
    );
}

#[test]
fn encoded_length_is_size_times_count() {
    let values = vec![
        Value::S8(1),
        Value::U16(1),
        Value::S32(1),
        Value::U64(1),
        Value::Ip4([1, 2, 3, 4]),
        Value::Time(1),
        Value::Float(1),
        Value::Double(1),
        Value::S8_3([1, 2, 3]),
        Value::U16_4([1, 2, 3, 4]),
        Value::S64_2([1, 2]),
        Value::Double4([1, 2, 3, 4]),
        Value::Vs8([0; 16]),
        Value::Vu16([0; 8]),
        Value::Boolean(true),
        Value::Boolean3([true, false, true]),
        Value::Vb([false; 16]),
    ];
    for v in values {
        let t = v.standard_type();
        let bytes = v.to_bytes().unwrap();
        assert_eq!(bytes.len(), t.size() * t.count(), "{:?}", t);
        assert_eq!(bytes.len(), t.byte_len());
        assert_eq!(Value::from_standard_type(t, false, &bytes), Ok(Some(v)));
    }
}

#[test]
fn to_bytes_of_each_kind() {
    assert_eq!(Value::S16(-2).to_bytes(), Ok(vec![0xFF, 0xFE]));
    assert_eq!(Value::U32(0x01020304).to_bytes(), Ok(vec![1, 2, 3, 4]));
    assert_eq!(Value::S64(-1).to_bytes(), Ok(vec![0xFF; 8]));
    assert_eq!(Value::Boolean2([true, false]).to_bytes(), Ok(vec![1, 0]));
    assert_eq!(Value::Binary(vec![9, 8]).to_bytes(), Ok(vec![9, 8]));
    assert_eq!(
        Value::Array(StandardType::U16, vec![Value::U16(1), Value::U16(2)]).to_bytes(),
        Ok(vec![0, 1, 0, 2])
    );
    assert_eq!(Value::String("x".to_string()).to_bytes(), Err(KbinError::InvalidState));
    assert_eq!(Value::Attribute("x".to_string()).to_bytes(), Err(KbinError::InvalidState));
    assert_eq!(Value::Node(Box::new(Node::new("n"))).to_bytes(), Err(KbinError::InvalidState));
    assert_eq!(
        Value::Array(StandardType::String, vec![Value::U8(1), Value::String("x".to_string())]).to_bytes(),
        Err(KbinError::InvalidState)
    );
    let mut out = vec![0xAA];
    assert_eq!(Value::U16(0x0102).to_bytes_into(&mut out), Ok(()));
    assert_eq!(out, vec![0xAA, 1, 2]);
}

#[test]
fn accessors_give_the_value_or_a_mismatch() {
    assert_eq!(Value::S8(-1).as_i8(), Ok(-1));
    assert_eq!(Value::U8(1).as_u8(), Ok(1));
    assert_eq!(Value::S16(-1).as_i16(), Ok(-1));
    assert_eq!(Value::U16(1).as_u16(), Ok(1));
    assert_eq!(Value::S32(-1).as_i32(), Ok(-1));
    assert_eq!(Value::U32(1).as_u32(), Ok(1));
    assert_eq!(Value::S64(-1).as_i64(), Ok(-1));
    assert_eq!(Value::U64(1).as_u64(), Ok(1));
    assert_eq!(Value::U8(1).as_i8(), Err(mismatch(StandardType::S8, StandardType::U8)));
    assert_eq!(Value::S8(1).as_u8(), Err(mismatch(StandardType::U8, StandardType::S8)));
    assert_eq!(Value::S8(1).as_i16(), Err(mismatch(StandardType::S16, StandardType::S8)));
    assert_eq!(Value::S8(1).as_u16(), Err(mismatch(StandardType::U16, StandardType::S8)));
    assert_eq!(Value::S8(1).as_i32(), Err(mismatch(StandardType::S32, StandardType::S8)));
    assert_eq!(Value::S8(1).as_u32(), Err(mismatch(StandardType::U32, StandardType::S8)));
    assert_eq!(Value::S8(1).as_i64(), Err(mismatch(StandardType::S64, StandardType::S8)));
    assert_eq!(
        Value::Array(StandardType::U64, vec![]).as_u64(),
        Err(mismatch(StandardType::U64, StandardType::U64))
    );
    let bin = Value::Binary(vec![1, 2]);
    assert_eq!(bin.as_slice(), Ok(&[1u8, 2][..]));
    assert_eq!(bin.as_binary(), Ok(&[1u8, 2][..]));
    assert_eq!(Value::U8(1).as_slice(), Err(mismatch(StandardType::Binary, StandardType::U8)));
    assert_eq!(Value::U8(1).as_binary(), Err(mismatch(StandardType::Binary, StandardType::U8)));
    assert_eq!(bin.into_binary(), Ok(vec![1, 2]));
    assert_eq!(Value::U8(1).into_binary(), Err(mismatch(StandardType::Binary, StandardType::U8)));
    let text = Value::String("s".to_string());
    assert_eq!(text.as_str(), Ok("s"));
    assert_eq!(Value::U8(1).as_str(), Err(mismatch(StandardType::String, StandardType::U8)));
    assert_eq!(text.as_string(), Ok("s".to_string()));
    assert_eq!(
        Value::Attribute("a".to_string()).as_string(),
        Err(mismatch(StandardType::String, StandardType::Attribute))
    );
    assert_eq!(Value::Attribute("a".to_string()).as_attribute(), Ok("a".to_string()));
    assert_eq!(
        Value::String("s".to_string()).as_attribute(),
        Err(mismatch(StandardType::Attribute, StandardType::String))
    );
    let array = Value::Array(StandardType::U8, vec![Value::U8(1)]);
    assert_eq!(array.as_array(), Ok(&[Value::U8(1)][..]));
    assert_eq!(Value::U8(1).as_array(), Err(KbinError::InvalidState));
    assert_eq!(array.standard_type(), StandardType::U8);
    assert_eq!(Value::Node(Box::new(Node::new("n"))).standard_type(), StandardType::NodeStart);
}

#[test]
fn bytes_of_binary_and_of_byte_arrays() {
    assert_eq!(Value::Binary(vec![1, 2]).try_into_bytes(), Ok(vec![1, 2]));
    assert_eq!(
        Value::Array(StandardType::U8, vec![Value::U8(3), Value::U8(4)]).try_into_bytes(),
        Ok(vec![3, 4])
    );
    assert_eq!(
        Value::Array(StandardType::U16, vec![Value::U16(3)]).try_into_bytes(),
        Err(mismatch(StandardType::U8, StandardType::U16))
    );
    assert_eq!(
        Value::Array(StandardType::U8, vec![Value::U8(3), Value::S8(4)]).try_into_bytes(),
        Err(mismatch(StandardType::U8, StandardType::S8))
    );
    assert_eq!(Value::U8(1).try_into_bytes(), Err(mismatch(StandardType::Binary, StandardType::U8)));
}

#[test]
fn elements_in_big_endian() {
    let mut out = Vec::new();
    put_elem(&mut out, -2, 2);
    put_elem(&mut out, 0x01020304, 4);
    put_elem(&mut out, 255, 1);
    put_elem(&mut out, -1, 8);
    assert_eq!(out, vec![0xFF, 0xFE, 1, 2, 3, 4, 0xFF, 0xFF, 0xFF, 0xFF, 0xFF, 0xFF, 0xFF, 0xFF, 0xFF]);
    assert_eq!(get_elem(&out, 0, 2, true), -2);
    assert_eq!(get_elem(&out, 0, 2, false), 0xFFFE);
    assert_eq!(get_elem(&out, 2, 4, true), 0x01020304);
    assert_eq!(get_elem(&out, 7, 8, true), -1);
    assert_eq!(get_elem(&out, 7, 8, false), u64::MAX as i128);
    let mut out = Vec::new();
    put_elems(&mut out, &[1i16, -1]);
    assert_eq!(out, vec![0, 1, 0xFF, 0xFF]);
    assert_eq!(get_elems::<i16, 2>(&out, 0), Ok([1, -1]));
    assert_eq!(get_elems::<bool, 3>(&[1, 0, 1], false), Ok([true, false, true]));
    assert_eq!(get_elems::<bool, 3>(&[1, 2, 3], false), Err(KbinError::InvalidBoolean(2)));
}

#[test]
fn integers_as_text() {
    assert_eq!(parse_bounded(b"0", 0, 255), Some(0));
    assert_eq!(parse_bounded(b"255", 0, 255), Some(255));
    assert_eq!(parse_bounded(b"256", 0, 255), None);
    assert_eq!(parse_bounded(b"+12", 0, 255), Some(12));
    assert_eq!(parse_bounded(b"-0", 0, 255), None);
    assert_eq!(parse_bounded(b"-0", -128, 127), Some(0));
    assert_eq!(parse_bounded(b"-128", -128, 127), Some(-128));
    assert_eq!(parse_bounded(b"-129", -128, 127), None);
    assert_eq!(parse_bounded(b"0007", -128, 127), Some(7));
    assert_eq!(parse_bounded(b"", -128, 127), None);
    assert_eq!(parse_bounded(b"-", -128, 127), None);
    assert_eq!(parse_bounded(b"+-1", -128, 127), None);
    assert_eq!(parse_bounded(b"1a", -128, 127), None);
    let mut s = String::new();
    push_decimal(&mut s, 0);
    push_decimal(&mut s, 1907);
    push_int(&mut s, -45);
    push_int(&mut s, 6);
    assert_eq!(s, "01907-456");
}

#[test]
fn typed_arrays() {
    let a = ValueArray::S16(vec![1, -1, 2]);
    assert_eq!(a.standard_type(), StandardType::S16);
    assert_eq!(a.to_bytes(), vec![0, 1, 0xFF, 0xFF, 0, 2]);
    assert_eq!(ValueArray::from_standard_type(StandardType::S16, &a.to_bytes()), Ok(Some(a.clone())));
    assert_eq!(a.to_string(), Some("1 -1 2".to_string()));
    assert_eq!(
        a.to_value(),
        Value::Array(StandardType::S16, vec![Value::S16(1), Value::S16(-1), Value::S16(2)])
    );
    let v = ValueArray::U8_3(vec![[1, 2, 3], [4, 5, 6]]);
    assert_eq!(v.standard_type(), StandardType::U8_3);
    assert_eq!(v.to_bytes(), vec![1, 2, 3, 4, 5, 6]);
    assert_eq!(ValueArray::from_standard_type(StandardType::U8_3, &[1, 2, 3, 4, 5, 6]), Ok(Some(v.clone())));
    assert_eq!(v.to_string(), Some("1 2 3 4 5 6".to_string()));
    let ip = ValueArray::Ip4(vec![[1, 2, 3, 4], [5, 6, 7, 8]]);
    assert_eq!(ip.to_string(), Some("1.2.3.4 5.6.7.8".to_string()));
    let b = ValueArray::Boolean(vec![true, false]);
    assert_eq!(b.to_bytes(), vec![1, 0]);
    assert_eq!(b.to_string(), Some("1 0".to_string()));
    assert_eq!(
        ValueArray::from_standard_type(StandardType::Boolean, &[1, 7]),
        Err(KbinError::InvalidBoolean(7))
    );
    assert_eq!(
        ValueArray::from_standard_type(StandardType::U32, &[1, 2, 3]),
        Err(KbinError::SizeMismatch { node_type: StandardType::U32, expected: 4, found: 3 })
    );
    assert_eq!(ValueArray::from_standard_type(StandardType::U32, &[]), Ok(Some(ValueArray::U32(vec![]))));
    for t in [
        StandardType::NodeStart,
        StandardType::NodeEnd,
        StandardType::FileEnd,
        StandardType::Attribute,
        StandardType::Binary,
        StandardType::String,
        StandardType::Time,
    ] {
        assert_eq!(ValueArray::from_standard_type(t, &[1, 2, 3, 4]), Ok(None));
    }
    assert_eq!(ValueArray::Float(vec![0]).to_string(), None);
    assert_eq!(ValueArray::Double2(vec![[1, 2]]).to_bytes().len(), 16);
    let mut out = vec![7];
    ValueArray::Vs16(vec![[1; 8]]).to_bytes_into(&mut out);
    assert_eq!(out.len(), 17);
}

#[test]
fn decisions_of_the_record_reader() {
    assert_eq!(dispatch_any(StandardType::U8, true, ReadMode::Single), AnyAction::Sequence);
    assert_eq!(dispatch_any(StandardType::U8, true, ReadMode::Key), AnyAction::Sequence);
    assert_eq!(dispatch_any(StandardType::U8, true, ReadMode::Array), AnyAction::U8);
    assert_eq!(dispatch_any(StandardType::S64, false, ReadMode::Single), AnyAction::S64);
    assert_eq!(dispatch_any(StandardType::String, false, ReadMode::Single), AnyAction::String);
    assert_eq!(dispatch_any(StandardType::Attribute, false, ReadMode::Single), AnyAction::String);
    assert_eq!(dispatch_any(StandardType::Binary, false, ReadMode::Single), AnyAction::ByteBuffer);
    assert_eq!(dispatch_any(StandardType::Boolean, false, ReadMode::Single), AnyAction::Bool);
    assert_eq!(dispatch_any(StandardType::Ip4, false, ReadMode::Single), AnyAction::Ip4);
    assert_eq!(dispatch_any(StandardType::NodeStart, false, ReadMode::Single), AnyAction::Fields);
    assert_eq!(dispatch_any(StandardType::NodeEnd, false, ReadMode::Single), AnyAction::SkipNodeEnd);
    assert_eq!(dispatch_any(StandardType::Float3, false, ReadMode::Single), AnyAction::Custom);
    assert_eq!(dispatch_any(StandardType::Time, false, ReadMode::Single), AnyAction::Custom);
    assert_eq!(field_name(StandardType::Attribute, "id".to_string()), "attr_id");
    assert_eq!(field_name(StandardType::NodeStart, "id".to_string()), "id");
    assert_eq!(bool_of_byte(0), Ok(false));
    assert_eq!(bool_of_byte(1), Ok(true));
    assert_eq!(bool_of_byte(2), Err(KbinError::InvalidBoolean(2)));
}

#[test]
fn elements_and_plain_nodes_of_the_record_reader() {
    let bytes = [0xFFu8, 0xFE, 0x00, 0x01, 0x80];
    assert_eq!(element_at(StandardType::S16, &bytes, 0), Some(-2));
    assert_eq!(element_at(StandardType::U16, &bytes, 0), Some(0xFFFE));
    assert_eq!(element_at(StandardType::U16_2, &bytes, 2), Some(1));
    assert_eq!(element_at(StandardType::S8, &bytes, 4), Some(-128));
    assert_eq!(element_at(StandardType::Boolean, &bytes, 3), Some(1));
    assert_eq!(element_at(StandardType::Float, &bytes, 1), Some(0xFE00_0180));
    assert_eq!(element_at(StandardType::U16, &bytes, 4), None);
    assert_eq!(element_at(StandardType::U8, &bytes, 5), None);
    assert_eq!(element_at(StandardType::U8, &bytes, usize::MAX), None);
    assert_eq!(element_at(StandardType::String, &bytes, 0), None);
    assert_eq!(element_at(StandardType::U64, &bytes, 0), None);

    assert!(reads_as_value(&Node::with_value("a", Value::U8(1))));
    assert!(reads_as_value(&Node::with_attrs_value("a", &[], Value::U8(1))));
    assert!(!reads_as_value(&Node::with_attrs_value("a", &[("k", "v")], Value::U8(1))));
    assert!(!reads_as_value(&Node::new("a")));
    assert!(!reads_as_value(&Node::with_nodes("a", vec![Node::new("b")])));
    let mut both = Node::with_value("a", Value::U8(1));
    both.append_child(Node::new("b"));
    assert!(!reads_as_value(&both));
}

use kbinxml::error::KbinError;
use kbinxml::sixbit::{pack, sixbit_decode, sixbit_encode, unpack};

#[test]
fn sixbit_encode_single_letter() {
    // 'n' is value 36 + 13 = 49 = 0b110001, packed into the high six bits.
    assert_eq!(sixbit_encode("n"), Ok(vec![1, 0b1100_0100]));
}

#[test]
fn sixbit_round_trip_of_full_alphabet() {
    let alphabet = "0123456789ABCDEFGHIJKLMNOPQRSTUVWXYZabcdefghijklmnopqrstuvwxyz_:";
    let wire = sixbit_encode(alphabet).unwrap();
    assert_eq!(wire.len(), 1 + (64 * 6 + 7) / 8);
    assert_eq!(wire[0], 64);
    let (text, used) = sixbit_decode(&wire).unwrap();
    assert_eq!(text, alphabet);
    assert_eq!(used, wire.len());
}

#[test]
fn sixbit_values_follow_the_alphabet_order() {
    assert_eq!(sixbit_encode("0").unwrap(), vec![1, 0]);
    assert_eq!(sixbit_encode("_").unwrap(), vec![1, 62 << 2]);
    assert_eq!(sixbit_encode(":").unwrap(), vec![1, 63 << 2]);
}

#[test]
fn sixbit_encode_refuses_other_characters() {
    assert_eq!(sixbit_encode("a-b"), Err(KbinError::InvalidIdentifier));
    assert_eq!(sixbit_encode(""), Err(KbinError::InvalidIdentifier));
    assert_eq!(sixbit_encode("é"), Err(KbinError::InvalidIdentifier));
    let long: String = std::iter::repeat('a').take(256).collect();
    assert_eq!(sixbit_encode(&long), Err(KbinError::InvalidIdentifier));
}

#[test]
fn sixbit_decode_reports_truncation() {
    assert_eq!(sixbit_decode(&[]), Err(KbinError::EndOfStream));
    assert_eq!(sixbit_decode(&[4, 0, 0]), Err(KbinError::EndOfStream));
}

#[test]
fn sixbit_decode_ignores_what_follows() {
    let mut wire = sixbit_encode("abc").unwrap();
    let used = wire.len();
    wire.extend_from_slice(&[0xFF, 0xFF]);
    assert_eq!(sixbit_decode(&wire), Ok(("abc".to_string(), used)));
}

#[test]
fn pack_four_values_into_three_bytes() {
    assert_eq!(pack(&[0b111111, 0, 0b111111, 0]), vec![0b1111_1100, 0b0000_1111, 0b1100_0000]);
    assert_eq!(unpack(&[0b1111_1100, 0b0000_1111, 0b1100_0000], 4), vec![0b111111, 0, 0b111111, 0]);
}

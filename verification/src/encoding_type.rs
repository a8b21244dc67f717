//! The text encoding of a document, and text in and out of its bytes.
use vstd::prelude::*;
use vstd::string::*;
use vstd::utf8::{decode_utf8, encode_utf8, is_ascii_chars, valid_utf8};
use crate::error::KbinError;
use crate::text::{str_eq, string_push};

verus! {

/// The text encoding of a document: one choice for all of its identifiers
/// and texts.
#[allow(non_camel_case_types)]
#[derive(Clone, Copy, Debug, PartialEq, Eq, Structural)]
pub enum EncodingType {
    SHIFT_JIS,
    ASCII,
    ISO_8859_1,
    EUC_JP,
    UTF_8,
}

/// The longest text, in bytes, that is converted to or from Shift-JIS and
/// EUC-JP: a thirty-second of the address space. The converter reserves
/// three times the length and one byte more to decode, and to encode up to
/// twice the sum of what it has written, of what is left to read and of
/// eleven bytes, rounded up to a power of two; it stops the program where
/// such a size is above half the address space.
pub const LEGACY_TEXT_LIMIT: usize = usize::MAX / 32;

/// What the Shift-JIS decoder makes of the bytes; `None` where they are
/// malformed.
pub uninterp spec fn shift_jis_decoded(bytes: Seq<u8>) -> Option<Seq<char>>;

/// What the Shift-JIS encoder makes of the text; `None` where a character
/// has no place in the encoding.
pub uninterp spec fn shift_jis_encoded(text: Seq<char>) -> Option<Seq<u8>>;

/// What the EUC-JP decoder makes of the bytes; `None` where they are
/// malformed.
pub uninterp spec fn euc_jp_decoded(bytes: Seq<u8>) -> Option<Seq<char>>;

/// What the EUC-JP encoder makes of the text; `None` where a character has
/// no place in the encoding.
pub uninterp spec fn euc_jp_encoded(text: Seq<char>) -> Option<Seq<u8>>;

/// `String::from_utf8` from std: the text that the bytes spell in UTF-8,
/// and nothing where they are not UTF-8.
#[verifier::external_body]
pub(crate) fn utf8_decode(bytes: &[u8]) -> (r: Option<String>)
    ensures
        r is Some <==> valid_utf8(bytes@),
        r matches Some(s) ==> s@ == decode_utf8(bytes@),
{
    String::from_utf8(bytes.to_vec()).ok()
}

/// `encoding_rs::Encoding::decode_without_bom_handling_and_without_replacement`
/// on `SHIFT_JIS`: the decoded text, and nothing where the bytes are
/// malformed. The length is bounded because the crate sizes its buffer as
/// three times the length and one more, and stops the program where that
/// overflows or is above half the address space.
#[verifier::external_body]
fn shift_jis_decode(bytes: &[u8]) -> (r: Option<String>)
    requires
        bytes@.len() <= LEGACY_TEXT_LIMIT,
    ensures
        r is Some <==> shift_jis_decoded(bytes@) is Some,
        r matches Some(s) ==> Some(s@) == shift_jis_decoded(bytes@),
{
    encoding_rs::SHIFT_JIS.decode_without_bom_handling_and_without_replacement(bytes).map(
        |s| s.into_owned(),
    )
}

/// `encoding_rs::Encoding::encode` on `SHIFT_JIS`: the encoded bytes, and
/// nothing where the crate reports a character that it had to replace. The
/// length is bounded because the crate rounds the size of its buffer up to
/// a power of two, and stops the program where that overflows or is above
/// half the address space.
#[verifier::external_body]
fn shift_jis_encode(text: &str) -> (r: Option<Vec<u8>>)
    requires
        text.spec_bytes().len() <= LEGACY_TEXT_LIMIT,
    ensures
        r is Some <==> shift_jis_encoded(text@) is Some,
        r matches Some(v) ==> Some(v@) == shift_jis_encoded(text@),
{
    let (bytes, _, replaced) = encoding_rs::SHIFT_JIS.encode(text);
    if replaced {
        None
    } else {
        Some(bytes.into_owned())
    }
}

/// `encoding_rs::Encoding::decode_without_bom_handling_and_without_replacement`
/// on `EUC_JP`: the decoded text, and nothing where the bytes are malformed.
/// The length is bounded as for Shift-JIS.
#[verifier::external_body]
fn euc_jp_decode(bytes: &[u8]) -> (r: Option<String>)
    requires
        bytes@.len() <= LEGACY_TEXT_LIMIT,
    ensures
        r is Some <==> euc_jp_decoded(bytes@) is Some,
        r matches Some(s) ==> Some(s@) == euc_jp_decoded(bytes@),
{
    encoding_rs::EUC_JP.decode_without_bom_handling_and_without_replacement(bytes).map(
        |s| s.into_owned(),
    )
}

/// `encoding_rs::Encoding::encode` on `EUC_JP`: the encoded bytes, and
/// nothing where the crate reports a character that it had to replace. The
/// length is bounded as for Shift-JIS.
#[verifier::external_body]
fn euc_jp_encode(text: &str) -> (r: Option<Vec<u8>>)
    requires
        text.spec_bytes().len() <= LEGACY_TEXT_LIMIT,
    ensures
        r is Some <==> euc_jp_encoded(text@) is Some,
        r matches Some(v) ==> Some(v@) == euc_jp_encoded(text@),
{
    let (bytes, _, replaced) = encoding_rs::EUC_JP.encode(text);
    if replaced {
        None
    } else {
        Some(bytes.into_owned())
    }
}

/// Every character is below 256.
pub open spec fn is_latin1(s: Seq<char>) -> bool {
    forall|i: int| 0 <= i < s.len() ==> (#[trigger] s[i]) <= '\u{ff}'
}

/// Every byte is below 128.
pub open spec fn is_ascii_bytes(b: Seq<u8>) -> bool {
    forall|i: int| 0 <= i < b.len() ==> (#[trigger] b[i]) < 128
}

/// One byte for each character, for text whose characters are below 256.
pub open spec fn bytes_of_chars(s: Seq<char>) -> Seq<u8> {
    Seq::new(s.len(), |i: int| s[i] as u8)
}

/// One character for each byte.
pub open spec fn chars_of_bytes(b: Seq<u8>) -> Seq<char> {
    Seq::new(b.len(), |i: int| b[i] as char)
}

impl EncodingType {
    /// The encoding's byte in the header: the code in the high four bits.
    /// The codes are 0 for Shift-JIS, 2 for ASCII, 4 for ISO-8859-1, 6 for
    /// EUC-JP and 8 for UTF-8.
    pub open spec fn spec_to_byte(&self) -> u8 {
        match self {
            EncodingType::SHIFT_JIS => 0x00,
            EncodingType::ASCII => 0x20,
            EncodingType::ISO_8859_1 => 0x40,
            EncodingType::EUC_JP => 0x60,
            EncodingType::UTF_8 => 0x80,
        }
    }

    /// The encoding of a header byte, if it is the byte of one.
    pub open spec fn spec_from_byte(b: u8) -> Option<EncodingType> {
        if b == 0x00 {
            Some(EncodingType::SHIFT_JIS)
        } else if b == 0x20 {
            Some(EncodingType::ASCII)
        } else if b == 0x40 {
            Some(EncodingType::ISO_8859_1)
        } else if b == 0x60 {
            Some(EncodingType::EUC_JP)
        } else if b == 0x80 {
            Some(EncodingType::UTF_8)
        } else {
            None
        }
    }

    /// The bytes of a text in this encoding; `None` where the text holds a
    /// character that the encoding cannot write, or is too long for the
    /// converter of a legacy encoding.
    pub open spec fn spec_encode(&self, text: Seq<char>) -> Option<Seq<u8>> {
        match self {
            EncodingType::UTF_8 => Some(encode_utf8(text)),
            EncodingType::ASCII => if is_ascii_chars(text) {
                Some(bytes_of_chars(text))
            } else {
                None
            },
            EncodingType::ISO_8859_1 => if is_latin1(text) {
                Some(bytes_of_chars(text))
            } else {
                None
            },
            EncodingType::SHIFT_JIS => if encode_utf8(text).len() <= LEGACY_TEXT_LIMIT {
                shift_jis_encoded(text)
            } else {
                None
            },
            EncodingType::EUC_JP => if encode_utf8(text).len() <= LEGACY_TEXT_LIMIT {
                euc_jp_encoded(text)
            } else {
                None
            },
        }
    }

    /// The text that bytes spell in this encoding; `None` where they spell
    /// none, or are too long for the converter of a legacy encoding.
    pub open spec fn spec_decode(&self, bytes: Seq<u8>) -> Option<Seq<char>> {
        match self {
            EncodingType::UTF_8 => if valid_utf8(bytes) {
                Some(decode_utf8(bytes))
            } else {
                None
            },
            EncodingType::ASCII => if is_ascii_bytes(bytes) {
                Some(chars_of_bytes(bytes))
            } else {
                None
            },
            EncodingType::ISO_8859_1 => Some(chars_of_bytes(bytes)),
            EncodingType::SHIFT_JIS => if bytes.len() <= LEGACY_TEXT_LIMIT {
                shift_jis_decoded(bytes)
            } else {
                None
            },
            EncodingType::EUC_JP => if bytes.len() <= LEGACY_TEXT_LIMIT {
                euc_jp_decoded(bytes)
            } else {
                None
            },
        }
    }

    /// A text that reads back from its bytes in this encoding as it was
    /// written. In UTF-8 every text does; in ASCII and ISO-8859-1 every
    /// text that can be written does.
    pub open spec fn round_trips(&self, text: Seq<char>) -> bool {
        self.spec_encode(text) matches Some(b) && self.spec_decode(b) == Some(text)
    }

    #[verifier::when_used_as_spec(spec_to_byte)]
    pub fn to_byte(&self) -> (r: u8)
        ensures
            r == self.spec_to_byte(),
    {
        match self {
            EncodingType::SHIFT_JIS => 0x00,
            EncodingType::ASCII => 0x20,
            EncodingType::ISO_8859_1 => 0x40,
            EncodingType::EUC_JP => 0x60,
            EncodingType::UTF_8 => 0x80,
        }
    }

    /// The encoding of a header byte; any other byte is an invalid header.
    pub fn from_byte(b: u8) -> (r: Result<EncodingType, KbinError>)
        ensures
            match Self::spec_from_byte(b) {
                Some(e) => r == Ok::<EncodingType, KbinError>(e),
                None => r == Err::<EncodingType, KbinError>(KbinError::InvalidHeader),
            },
    {
        match b {
            0x00 => Ok(EncodingType::SHIFT_JIS),
            0x20 => Ok(EncodingType::ASCII),
            0x40 => Ok(EncodingType::ISO_8859_1),
            0x60 => Ok(EncodingType::EUC_JP),
            0x80 => Ok(EncodingType::UTF_8),
            _ => Err(KbinError::InvalidHeader),
        }
    }

    /// The name of the encoding as an XML declaration spells it.
    pub open spec fn spec_name(&self) -> Seq<char> {
        match self {
            EncodingType::SHIFT_JIS => "SHIFT_JIS"@,
            EncodingType::ASCII => "ASCII"@,
            EncodingType::ISO_8859_1 => "ISO-8859-1"@,
            EncodingType::EUC_JP => "EUC-JP"@,
            EncodingType::UTF_8 => "UTF-8"@,
        }
    }

    pub fn name(&self) -> (r: &'static str)
        ensures
            r@ == self.spec_name(),
    {
        match self {
            EncodingType::SHIFT_JIS => "SHIFT_JIS",
            EncodingType::ASCII => "ASCII",
            EncodingType::ISO_8859_1 => "ISO-8859-1",
            EncodingType::EUC_JP => "EUC-JP",
            EncodingType::UTF_8 => "UTF-8",
        }
    }

    /// The encoding that a label of an XML declaration names. A label is
    /// known in capitals, in small letters and, for Shift-JIS and ASCII, in
    /// one more common spelling.
    pub open spec fn spec_from_label(label: Seq<char>) -> Option<EncodingType> {
        if label == "UTF-8"@ || label == "utf-8"@ {
            Some(EncodingType::UTF_8)
        } else if label == "SHIFT_JIS"@ || label == "shift_jis"@ || label == "Shift_JIS"@ {
            Some(EncodingType::SHIFT_JIS)
        } else if label == "EUC-JP"@ || label == "euc-jp"@ {
            Some(EncodingType::EUC_JP)
        } else if label == "ISO-8859-1"@ || label == "iso-8859-1"@ {
            Some(EncodingType::ISO_8859_1)
        } else if label == "ASCII"@ || label == "ascii"@ || label == "US-ASCII"@ {
            Some(EncodingType::ASCII)
        } else {
            None
        }
    }

    /// The encoding that a label names; a label that names none is an
    /// encoding error.
    pub fn from_label(label: &str) -> (r: Result<EncodingType, KbinError>)
        ensures
            match Self::spec_from_label(label@) {
                Some(e) => r == Ok::<EncodingType, KbinError>(e),
                None => r == Err::<EncodingType, KbinError>(KbinError::EncodingError),
            },
    {
        if str_eq(label, "UTF-8") || str_eq(label, "utf-8") {
            Ok(EncodingType::UTF_8)
        } else if str_eq(label, "SHIFT_JIS") || str_eq(label, "shift_jis") || str_eq(
            label,
            "Shift_JIS",
        ) {
            Ok(EncodingType::SHIFT_JIS)
        } else if str_eq(label, "EUC-JP") || str_eq(label, "euc-jp") {
            Ok(EncodingType::EUC_JP)
        } else if str_eq(label, "ISO-8859-1") || str_eq(label, "iso-8859-1") {
            Ok(EncodingType::ISO_8859_1)
        } else if str_eq(label, "ASCII") || str_eq(label, "ascii") || str_eq(label, "US-ASCII") {
            Ok(EncodingType::ASCII)
        } else {
            Err(KbinError::EncodingError)
        }
    }

    /// Writes a text in this encoding.
    pub fn encode_bytes(&self, text: &str) -> (r: Result<Vec<u8>, KbinError>)
        ensures
            match self.spec_encode(text@) {
                Some(b) => r matches Ok(v) && v@ == b,
                None => r == Err::<Vec<u8>, KbinError>(KbinError::EncodingError),
            },
    {
        match self {
            EncodingType::UTF_8 => Ok(text.as_bytes_vec()),
            EncodingType::ASCII => {
                if text.is_ascii() {
                    proof {
                        is_ascii_spec_bytes(text);
                    }
                    let v = text.as_bytes_vec();
                    assert(v@ =~= bytes_of_chars(text@));
                    Ok(v)
                } else {
                    Err(KbinError::EncodingError)
                }
            },
            EncodingType::ISO_8859_1 => match latin1_bytes(text) {
                Some(v) => Ok(v),
                None => Err(KbinError::EncodingError),
            },
            EncodingType::SHIFT_JIS => {
                if text.as_bytes().len() > LEGACY_TEXT_LIMIT {
                    return Err(KbinError::EncodingError);
                }
                match shift_jis_encode(text) {
                    Some(v) => Ok(v),
                    None => Err(KbinError::EncodingError),
                }
            },
            EncodingType::EUC_JP => {
                if text.as_bytes().len() > LEGACY_TEXT_LIMIT {
                    return Err(KbinError::EncodingError);
                }
                match euc_jp_encode(text) {
                    Some(v) => Ok(v),
                    None => Err(KbinError::EncodingError),
                }
            },
        }
    }

    /// Reads the text that bytes spell in this encoding.
    pub fn decode_bytes(&self, bytes: &[u8]) -> (r: Result<String, KbinError>)
        ensures
            match self.spec_decode(bytes@) {
                Some(t) => r matches Ok(s) && s@ == t,
                None => r == Err::<String, KbinError>(KbinError::EncodingError),
            },
    {
        match self {
            EncodingType::UTF_8 => match utf8_decode(bytes) {
                Some(s) => Ok(s),
                None => Err(KbinError::EncodingError),
            },
            EncodingType::ASCII => {
                let mut s = String::new();
                let mut i: usize = 0;
                while i < bytes.len()
                    invariant
                        *self == EncodingType::ASCII,
                        i <= bytes@.len(),
                        s@.len() == i,
                        forall|k: int|
                            0 <= k < i ==> (#[trigger] bytes@[k]) < 128 && s@[k] == bytes@[k] as char,
                    decreases bytes@.len() - i,
                {
                    let b = bytes[i];
                    if b >= 128 {
                        return Err(KbinError::EncodingError);
                    }
                    string_push(&mut s, b as char);
                    i += 1;
                }
                assert(s@ =~= chars_of_bytes(bytes@));
                Ok(s)
            },
            EncodingType::ISO_8859_1 => {
                let mut s = String::new();
                let mut i: usize = 0;
                while i < bytes.len()
                    invariant
                        i <= bytes@.len(),
                        s@.len() == i,
                        forall|k: int| 0 <= k < i ==> #[trigger] s@[k] == bytes@[k] as char,
                    decreases bytes@.len() - i,
                {
                    string_push(&mut s, bytes[i] as char);
                    i += 1;
                }
                assert(s@ =~= chars_of_bytes(bytes@));
                Ok(s)
            },
            EncodingType::SHIFT_JIS => {
                if bytes.len() > LEGACY_TEXT_LIMIT {
                    return Err(KbinError::EncodingError);
                }
                match shift_jis_decode(bytes) {
                    Some(s) => Ok(s),
                    None => Err(KbinError::EncodingError),
                }
            },
            EncodingType::EUC_JP => {
                if bytes.len() > LEGACY_TEXT_LIMIT {
                    return Err(KbinError::EncodingError);
                }
                match euc_jp_decode(bytes) {
                    Some(s) => Ok(s),
                    None => Err(KbinError::EncodingError),
                }
            },
        }
    }
}

/// The bytes of a text whose characters are all below 256, one byte each.
fn latin1_bytes(text: &str) -> (r: Option<Vec<u8>>)
    ensures
        r is Some <==> is_latin1(text@),
        r matches Some(v) ==> v@ == bytes_of_chars(text@),
{
    let mut out: Vec<u8> = Vec::new();
    let chars = text.chars();
    proof {
        axiom_spec_iter(text);
    }
    for c in it: chars
        invariant
            it.seq() == text@,
            out@.len() == it.index(),
            forall|j: int|
                0 <= j < out@.len() ==> (#[trigger] text@[j]) <= '\u{ff}' && out@[j] == text@[j] as u8,
    {
        if c > '\u{ff}' {
            return None;
        }
        out.push(c as u8);
    }
    assert(out@ =~= bytes_of_chars(text@));
    Some(out)
}

proof fn lemma_char_byte(c: char)
    requires
        c <= '\u{ff}',
    ensures
        (c as u8) as char == c,
{
}

/// In UTF-8 every text reads back as it was written; in ASCII and
/// ISO-8859-1 every text that the encoding can write does.
pub proof fn lemma_text_round_trip(encoding: EncodingType, text: Seq<char>)
    requires
        encoding == EncodingType::UTF_8 || encoding == EncodingType::ASCII || encoding
            == EncodingType::ISO_8859_1,
        encoding.spec_encode(text) is Some,
    ensures
        encoding.round_trips(text),
{
    match encoding {
        EncodingType::UTF_8 => {
            vstd::utf8::encode_utf8_valid_utf8(text);
            vstd::utf8::encode_utf8_decode_utf8(text);
        },
        EncodingType::ASCII => {
            let b = bytes_of_chars(text);
            assert forall|i: int| 0 <= i < b.len() implies (#[trigger] b[i]) < 128 && b[i] as char
                == text[i] by {
                assert('\0' <= text[i] <= '\u{7f}');
                lemma_char_byte(text[i]);
            }
            assert(chars_of_bytes(b) =~= text);
        },
        _ => {
            let b = bytes_of_chars(text);
            assert forall|i: int| 0 <= i < b.len() implies (#[trigger] b[i]) as char
                == text[i] by {
                assert(text[i] <= '\u{ff}');
                lemma_char_byte(text[i]);
            }
            assert(chars_of_bytes(b) =~= text);
        },
    }
}

/// The header byte of an encoding names that encoding.
pub proof fn lemma_encoding_byte(encoding: EncodingType)
    ensures
        EncodingType::spec_from_byte(encoding.spec_to_byte()) == Some(encoding),
{
}

} // verus!

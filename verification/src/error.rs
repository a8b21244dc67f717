//! The errors of the codec.
use vstd::prelude::*;
use crate::node_types::StandardType;

verus! {

/// Everything that can go wrong with a document. Each error ends the work on
/// the document at hand.
#[allow(inconsistent_fields)]
#[derive(Clone, Debug, PartialEq, Eq)]
pub enum KbinError {
    /// The magic byte, the compression flag or the encoding bytes are wrong.
    InvalidHeader,
    /// No type has this tag id.
    UnknownType(u8),
    /// No type has this name.
    UnknownTypeName(String),
    /// A tag or a value of one type stands where another was due.
    TypeMismatch { expected: StandardType, found: StandardType },
    /// A value of this type has `expected` bytes or parts, not `found`.
    SizeMismatch { node_type: StandardType, expected: usize, found: usize },
    /// A boolean byte other than 0 and 1.
    InvalidBoolean(u8),
    /// An identifier that cannot be written: empty, too long, or with a
    /// character that its form does not allow.
    InvalidIdentifier,
    /// A packed identifier with a value outside the alphabet. Six bits hold
    /// none, so the reader of this library never reports it.
    InvalidSixbit,
    /// The events of a document come in an order that the format does not allow.
    InvalidState,
    /// The input ends before the value does.
    EndOfStream,
    /// The text is not a value of this type.
    StringParse { node_type: StandardType, text: String },
    /// The text is not hexadecimal.
    HexError,
    /// The bytes are not text in the document's encoding, or the text cannot
    /// be written in it.
    EncodingError,
}

/// An error apart from how the machine holds it: a text as its characters.
#[allow(inconsistent_fields)]
pub enum KbinErrorView {
    InvalidHeader,
    UnknownType(u8),
    UnknownTypeName(Seq<char>),
    TypeMismatch { expected: StandardType, found: StandardType },
    SizeMismatch { node_type: StandardType, expected: usize, found: usize },
    InvalidBoolean(u8),
    InvalidIdentifier,
    InvalidSixbit,
    InvalidState,
    EndOfStream,
    StringParse { node_type: StandardType, text: Seq<char> },
    HexError,
    EncodingError,
}

impl View for KbinError {
    type V = KbinErrorView;

    open spec fn view(&self) -> KbinErrorView {
        match self {
            KbinError::InvalidHeader => KbinErrorView::InvalidHeader,
            KbinError::UnknownType(id) => KbinErrorView::UnknownType(*id),
            KbinError::UnknownTypeName(name) => KbinErrorView::UnknownTypeName(name@),
            KbinError::TypeMismatch { expected, found } => KbinErrorView::TypeMismatch {
                expected: *expected,
                found: *found,
            },
            KbinError::SizeMismatch { node_type, expected, found } => KbinErrorView::SizeMismatch {
                node_type: *node_type,
                expected: *expected,
                found: *found,
            },
            KbinError::InvalidBoolean(b) => KbinErrorView::InvalidBoolean(*b),
            KbinError::InvalidIdentifier => KbinErrorView::InvalidIdentifier,
            KbinError::InvalidSixbit => KbinErrorView::InvalidSixbit,
            KbinError::InvalidState => KbinErrorView::InvalidState,
            KbinError::EndOfStream => KbinErrorView::EndOfStream,
            KbinError::StringParse { node_type, text } => KbinErrorView::StringParse {
                node_type: *node_type,
                text: text@,
            },
            KbinError::HexError => KbinErrorView::HexError,
            KbinError::EncodingError => KbinErrorView::EncodingError,
        }
    }
}

} // verus!

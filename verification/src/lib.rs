//! A codec for kbin, a compact binary form of a restricted subset of XML.
//!
//! A document is a tree of typed nodes. In binary it is a header, a node
//! stream of tags and identifiers, and a data stream of payloads that three
//! cursors fill without padding between short values. The same tree can be
//! read from and written as XML text.
pub mod buffer;
pub mod byte_buffer;
pub mod collection;
pub mod de;
pub mod encoding_type;
pub mod endian;
pub mod error;
pub mod format;
pub mod node;
pub mod node_types;
pub mod number_text;
pub mod reader;
pub mod round_trip;
pub mod small_documents;
pub mod sixbit;
pub mod text;
pub mod text_reader;
pub mod text_writer;
pub mod value;
pub mod value_array;
pub mod value_text;
pub mod walk;
pub mod writer;
pub mod xml_events;

pub use encoding_type::EncodingType;
pub use error::KbinError;
pub use node::Node;
pub use node_types::StandardType;
pub use reader::decode_binary;
pub use text_reader::decode_text;
pub use text_writer::encode_text;
pub use value::Value;
pub use writer::encode_binary;

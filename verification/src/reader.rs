//! Reading a document from its binary form.
use vstd::prelude::*;
use crate::byte_buffer::{lane_of, lemma_align4, spec_take, ByteBufferRead, Cursors, Lane};
use crate::encoding_type::EncodingType;
use crate::endian::{lemma_be_value_bound, lemma_bounds, read_be};
use crate::error::KbinError;
use crate::format::{
    block_cursors, closed_top, opened, spec_decode_binary, spec_finish, spec_parse_header, spec_read_identifier,
    spec_read_tag, spec_read_text, spec_read_value, spec_run, spec_take_block, strip_nul,
    value_cursors, with_attr, Doc, ReadState, HEADER_LEN, SIGNATURE, SIG_COMPRESSED, SIG_UNCOMPRESSED,
};
use crate::node::{nodes_view, Node};
use crate::node_types::{StandardType, ARRAY_MASK};
use crate::sixbit::sixbit_decode;
use crate::value::{NodeView, Value};

verus! {

/// A document that is read: the node stream with a cursor, and the data
/// stream with its three.
pub struct BinaryReader<'a> {
    nodes: &'a [u8],
    npos: usize,
    data: ByteBufferRead<'a>,
    compressed: bool,
    encoding: EncodingType,
}

impl<'a> BinaryReader<'a> {
    /// The sections of the document and what the header says of them.
    pub closed spec fn doc(&self) -> Doc {
        Doc {
            nodes: self.nodes@,
            data: self.data.data(),
            compressed: self.compressed,
            encoding: self.encoding,
        }
    }

    /// Where the reader stands.
    pub closed spec fn state(&self) -> ReadState {
        ReadState { npos: self.npos as nat, cursors: self.data.cursors() }
    }

    pub closed spec fn wf(&self) -> bool {
        self.data.wf() && self.npos <= self.nodes@.len()
    }

    /// What holds of a well-formed reader: its cursors into the data section
    /// are well-formed, and its place in the node section is within it.
    pub proof fn lemma_wf(&self)
        requires
            self.wf(),
        ensures
            self.state().cursors.wf(),
            self.state().npos <= self.doc().nodes.len(),
    {
        self.data.lemma_wf();
    }

    /// Reads the header and stands at the start of both sections.
    pub fn new(input: &'a [u8]) -> (r: Result<BinaryReader<'a>, KbinError>)
        ensures
            match spec_parse_header(input@) {
                Ok(doc) => r matches Ok(rd) && rd.wf() && rd.doc() == doc && rd.state() == (
                ReadState { npos: 0, cursors: Cursors::start() }),
                Err(e) => r matches Err(f) && f == e,
            },
    {
        let len = input.len();
        if len < HEADER_LEN {
            return Err(KbinError::EndOfStream);
        }
        if input[0] != SIGNATURE {
            return Err(KbinError::InvalidHeader);
        }
        let compressed = if input[1] == SIG_COMPRESSED {
            true
        } else if input[1] == SIG_UNCOMPRESSED {
            false
        } else {
            return Err(KbinError::InvalidHeader);
        };
        let encoding = match EncodingType::from_byte(input[2]) {
            Ok(e) => e,
            Err(e) => {
                return Err(e);
            },
        };
        if input[3] != !input[2] {
            return Err(KbinError::InvalidHeader);
        }
        let field = vstd::slice::slice_subrange(input, 4, 8);
        proof {
            assert(field@.subrange(0, 4) =~= field@);
            lemma_be_value_bound(field@);
            lemma_bounds();
        }
        let node_len = read_be(field, 4);
        proof {
            lemma_align4(node_len as nat);
        }
        if node_len > (len - HEADER_LEN) as u64 {
            return Err(KbinError::EndOfStream);
        }
        let node_len = node_len as usize;
        let pad = (4 - node_len % 4) % 4;
        if pad > len - HEADER_LEN - node_len {
            return Err(KbinError::EndOfStream);
        }
        let data_start = HEADER_LEN + node_len + pad;
        let nodes = vstd::slice::slice_subrange(input, HEADER_LEN, HEADER_LEN + node_len);
        let data = vstd::slice::slice_subrange(input, data_start, len);
        Ok(BinaryReader { nodes, npos: 0, data: ByteBufferRead::new(data), compressed, encoding })
    }

    pub fn encoding(&self) -> (r: EncodingType)
        ensures
            r == self.doc().encoding,
    {
        self.encoding
    }

    pub fn is_compressed(&self) -> (r: bool)
        ensures
            r == self.doc().compressed,
    {
        self.compressed
    }

    /// Reads a tag byte: the type and the array flag.
    pub fn read_node_type(&mut self) -> (r: Result<(StandardType, bool), KbinError>)
        requires
            old(self).wf(),
        ensures
            final(self).wf(),
            final(self).doc() == old(self).doc(),
            final(self).state().cursors == old(self).state().cursors,
            if old(self).state().npos >= old(self).doc().nodes.len() {
                r == Err::<(StandardType, bool), KbinError>(KbinError::EndOfStream)
                    && final(self).state() == old(self).state()
            } else {
                match spec_read_tag(old(self).doc().nodes[old(self).state().npos as int]) {
                    Ok(x) => r == Ok::<(StandardType, bool), KbinError>(x)
                        && final(self).state().npos == old(self).state().npos + 1,
                    Err(e) => r == Err::<(StandardType, bool), KbinError>(e)
                        && final(self).state() == old(self).state(),
                }
            },
    {
        if self.npos >= self.nodes.len() {
            return Err(KbinError::EndOfStream);
        }
        let b = self.nodes[self.npos];
        match StandardType::from_u8(b & !ARRAY_MASK) {
            Ok(t) => {
                self.npos = self.npos + 1;
                Ok((t, b & ARRAY_MASK != 0))
            },
            Err(e) => Err(e),
        }
    }

    /// Reads an identifier from the node stream, in the form that the
    /// header says.
    pub fn read_node_identifier(&mut self) -> (r: Result<String, KbinError>)
        requires
            old(self).wf(),
        ensures
            final(self).wf(),
            final(self).doc() == old(self).doc(),
            final(self).state().cursors == old(self).state().cursors,
            match spec_read_identifier(
                old(self).doc().compressed,
                old(self).doc().encoding,
                old(self).doc().nodes.skip(old(self).state().npos as int),
            ) {
                Ok((s, used)) => r matches Ok(x) && x@ == s
                    && final(self).state().npos == old(self).state().npos + used,
                Err(e) => r matches Err(f) && f == e && final(self).state() == old(self).state(),
            },
    {
        let len = self.nodes.len();
        let rest = vstd::slice::slice_subrange(self.nodes, self.npos, len);
        assert(rest@ =~= self.nodes@.skip(self.npos as int));
        if self.compressed {
            match sixbit_decode(rest) {
                Ok((s, used)) => {
                    self.npos = self.npos + used;
                    Ok(s)
                },
                Err(e) => Err(e),
            }
        } else {
            if rest.len() == 0 {
                return Err(KbinError::EndOfStream);
            }
            let b = rest[0];
            let n = ((b & 0x3F) as usize) + 1;
            assert(b & 0x3F < 64) by (bit_vector);
            if rest.len() - 1 < n {
                return Err(KbinError::EndOfStream);
            }
            let bytes = vstd::slice::slice_subrange(rest, 1, 1 + n);
            match self.encoding.decode_bytes(bytes) {
                Ok(s) => {
                    self.npos = self.npos + 1 + n;
                    Ok(s)
                },
                Err(_) => Err(KbinError::InvalidIdentifier),
            }
        }
    }

    /// Reads a length-prefixed block from the data stream.
    pub fn read_bytes(&mut self) -> (r: Result<&'a [u8], KbinError>)
        requires
            old(self).wf(),
        ensures
            final(self).wf(),
            final(self).doc() == old(self).doc(),
            final(self).state().npos == old(self).state().npos,
            match spec_take_block(old(self).doc().data, old(self).state().cursors) {
                Ok((b, c)) => r matches Ok(x) && x@ == b && final(self).state().cursors == c,
                Err(e) => r matches Err(f) && f == e,
            },
            final(self).state().cursors == block_cursors(
                old(self).doc().data,
                old(self).state().cursors,
            ),
    {
        let n = match self.data.read_u32() {
            Ok(n) => n,
            Err(e) => {
                return Err(e);
            },
        };
        proof {
            let taken = spec_take(old(self).doc().data, old(self).state().cursors, Lane::Dword, 4);
            lemma_be_value_bound(taken.unwrap().0);
            lemma_bounds();
        }
        self.data.get(n as usize)
    }

    /// Reads a text from the data stream: a block in the document's
    /// encoding, without its closing zero byte.
    pub fn read_string(&mut self) -> (r: Result<String, KbinError>)
        requires
            old(self).wf(),
        ensures
            final(self).wf(),
            final(self).doc() == old(self).doc(),
            final(self).state().npos == old(self).state().npos,
            match spec_read_text(
                old(self).doc().encoding,
                old(self).doc().data,
                old(self).state().cursors,
            ) {
                Ok((s, c)) => r matches Ok(x) && x@ == s && final(self).state().cursors == c,
                Err(e) => r matches Err(f) && f == e,
            },
            final(self).state().cursors == block_cursors(
                old(self).doc().data,
                old(self).state().cursors,
            ),
    {
        let b = match self.read_bytes() {
            Ok(b) => b,
            Err(e) => {
                return Err(e);
            },
        };
        let n = b.len();
        let text = if n > 0 && b[n - 1] == 0 {
            let t = vstd::slice::slice_subrange(b, 0, n - 1);
            assert(t@ =~= strip_nul(b@));
            t
        } else {
            b
        };
        self.encoding.decode_bytes(text)
    }

    /// Reads the value of a node whose tag has this type and array flag.
    /// Where a boolean byte is neither 0 nor 1, nothing is read behind the
    /// value that holds it.
    pub fn read_value(&mut self, node_type: StandardType, is_array: bool) -> (r: Result<
        Option<Value>,
        KbinError,
    >)
        requires
            old(self).wf(),
        ensures
            final(self).wf(),
            final(self).doc() == old(self).doc(),
            final(self).state().npos == old(self).state().npos,
            match spec_read_value(
                old(self).doc().encoding,
                old(self).doc().data,
                old(self).state().cursors,
                node_type,
                is_array,
            ) {
                Ok((v, c)) => final(self).state().cursors == c && match (r, v) {
                    (Ok(Some(x)), Some(w)) => x@ == w,
                    (Ok(None), None) => true,
                    _ => false,
                },
                Err(e) => r matches Err(f) && f == e,
            },
            final(self).state().cursors == value_cursors(
                old(self).doc().data,
                old(self).state().cursors,
                node_type,
                is_array,
            ),
            r matches Err(KbinError::InvalidBoolean(_)) && !is_array ==> final(self).state().cursors == old(self).state().cursors.after(
                lane_of(node_type.spec_byte_len() as nat),
                node_type.spec_byte_len() as nat,
            ),
    {
        if is_array {
            if node_type.kind().is_none() {
                return Err(KbinError::InvalidState);
            }
            let b = match self.read_bytes() {
                Ok(b) => b,
                Err(e) => {
                    return Err(e);
                },
            };
            self.data.realign_reads();
            Value::from_standard_type(node_type, true, b)
        } else {
            match node_type {
                StandardType::String => match self.read_string() {
                    Ok(s) => Ok(Some(Value::String(s))),
                    Err(e) => Err(e),
                },
                StandardType::Binary => match self.read_bytes() {
                    Ok(b) => Ok(Some(Value::Binary(vstd::slice::slice_to_vec(b)))),
                    Err(e) => Err(e),
                },
                _ => {
                    if node_type.kind().is_none() {
                        return Ok(None);
                    }
                    let b = match self.data.get_aligned(node_type) {
                        Ok(b) => b,
                        Err(e) => {
                            return Err(e);
                        },
                    };
                    Value::from_standard_type(node_type, false, b)
                },
            }
        }
    }
}

/// Reads what follows the root: the closing tag of the document.
fn finish(rd: &mut BinaryReader<'_>) -> (r: Result<(), KbinError>)
    requires
        old(rd).wf(),
    ensures
        forall|root: NodeView|
            match #[trigger] spec_finish(old(rd).doc(), root, old(rd).state().npos) {
                Ok(n) => r is Ok && n == root,
                Err(e) => r matches Err(f) && f == e,
            },
{
    match rd.read_node_type() {
        Ok((t, _)) => match t {
            StandardType::FileEnd => Ok(()),
            _ => Err(KbinError::TypeMismatch { expected: StandardType::FileEnd, found: t }),
        },
        Err(e) => Err(e),
    }
}

/// Reads a document: its tree and its encoding.
pub fn decode_binary(input: &[u8]) -> (r: Result<(Node, EncodingType), KbinError>)
    ensures
        match spec_decode_binary(input@) {
            Ok((root, encoding)) => r matches Ok((n, e)) && n@ == root && n.is_lean() && e
                == encoding,
            Err(e) => r matches Err(f) && f == e,
        },
{
    let mut rd = match BinaryReader::new(input) {
        Ok(rd) => rd,
        Err(e) => {
            return Err(e);
        },
    };
    let ghost doc = rd.doc();
    let ghost goal = spec_run(doc, Seq::empty(), rd.state());
    let encoding = rd.encoding();
    let mut stack: Vec<Node> = Vec::new();
    assert(nodes_view(stack@) =~= Seq::<NodeView>::empty());
    loop
        invariant
            rd.wf(),
            rd.doc() == doc,
            encoding == doc.encoding,
            spec_run(doc, nodes_view(stack@), rd.state()) == goal,
            forall|i: int| 0 <= i < stack@.len() ==> (#[trigger] stack@[i]).is_lean(),
            match goal {
                Ok(root) => spec_decode_binary(input@) == Ok::<(NodeView, EncodingType), KbinError>(
                    (root, doc.encoding),
                ),
                Err(e) => spec_decode_binary(input@) == Err::<(NodeView, EncodingType), KbinError>(
                    e,
                ),
            },
        decreases doc.nodes.len() - rd.state().npos,
    {
        let ghost st = rd.state();
        let ghost views = nodes_view(stack@);
        proof {
            reveal(spec_run);
        }
        let (t, is_array) = match rd.read_node_type() {
            Ok(x) => x,
            Err(e) => {
                return Err(e);
            },
        };
        match t {
            StandardType::NodeEnd => {
                let top = match stack.pop() {
                    Some(n) => n,
                    None => {
                        return Err(KbinError::InvalidState);
                    },
                };
                match stack.pop() {
                    None => {
                        assert(views.len() == 1 && views[0] == top@);
                        return match finish(&mut rd) {
                            Ok(()) => Ok((top, encoding)),
                            Err(e) => Err(e),
                        };
                    },
                    Some(mut below) => {
                        let ghost below_view = below@;
                        let ghost top_view = top@;
                        below.append_child(top);
                        stack.push(below);
                        assert(nodes_view(stack@) =~= closed_top(views));
                    },
                }
            },
            StandardType::FileEnd => {
                if stack.len() == 0 {
                    return Err(KbinError::InvalidState);
                }
                return Err(
                    KbinError::TypeMismatch {
                        expected: StandardType::NodeEnd,
                        found: StandardType::FileEnd,
                    },
                );
            },
            StandardType::Attribute => {
                let name = match rd.read_node_identifier() {
                    Ok(s) => s,
                    Err(e) => {
                        return Err(e);
                    },
                };
                let mut top = match stack.pop() {
                    Some(n) => n,
                    None => {
                        return Err(KbinError::InvalidState);
                    },
                };
                assert(top@ == views.last());
                let has_children = match top.children() {
                    Some(c) => c.len() > 0,
                    None => false,
                };
                if has_children {
                    return Err(KbinError::InvalidState);
                }
                let value = match rd.read_string() {
                    Ok(s) => s,
                    Err(e) => {
                        return Err(e);
                    },
                };
                let _ = top.set_attr(name.as_str(), value.as_str());
                stack.push(top);
                assert(nodes_view(stack@) =~= with_attr(views, name@, value@));
            },
            _ => {
                let name = match rd.read_node_identifier() {
                    Ok(s) => s,
                    Err(e) => {
                        return Err(e);
                    },
                };
                let value = match rd.read_value(t, is_array) {
                    Ok(v) => v,
                    Err(e) => {
                        return Err(e);
                    },
                };
                let node = Node { key: name, attributes: None, children: None, value };
                assert(node@ == opened(
                    name@,
                    match value {
                        Some(v) => Some(v@),
                        None => None,
                    },
                ));
                stack.push(node);
                assert(nodes_view(stack@) =~= views.push(node@));
            },
        }
    }
}

} // verus!

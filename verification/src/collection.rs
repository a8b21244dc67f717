//! Nodes as the streams of a document hold them: a definition with the bytes
//! of its key and value, and a collection with its attributes and children.
use vstd::prelude::*;
use crate::buffer::{buffer_bytes, buffer_slice};
use crate::encoding_type::EncodingType;
use crate::error::{KbinError, KbinErrorView};
use crate::format::strip_nul;
use crate::node::{entries_set, Node};
use crate::node_types::StandardType;
use crate::value::{spec_from_bytes, NodeView, Value, ValueView};

verus! {

/// The bytes of a definition: its key in the definition's encoding and the
/// payload of its value.
#[derive(Debug, PartialEq, Eq)]
pub struct NodeData {
    pub key: bytes::Bytes,
    pub value: bytes::Bytes,
}

/// One node or attribute as the streams of a document hold it.
#[derive(Debug, PartialEq, Eq)]
pub struct NodeDefinition {
    pub(crate) encoding: EncodingType,
    pub(crate) node_type: StandardType,
    pub(crate) is_array: bool,
    pub(crate) data: Option<NodeData>,
}

/// A definition with its attributes and children, in document order.
#[derive(Debug, PartialEq, Eq)]
pub struct NodeCollection {
    pub(crate) base: NodeDefinition,
    pub(crate) attributes: Vec<NodeDefinition>,
    pub(crate) children: Vec<NodeCollection>,
}

pub struct NodeDefinitionView {
    pub encoding: EncodingType,
    pub node_type: StandardType,
    pub is_array: bool,
    pub data: Option<(Seq<u8>, Seq<u8>)>,
}

pub struct NodeCollectionView {
    pub base: NodeDefinitionView,
    pub attributes: Seq<NodeDefinitionView>,
    pub children: Seq<NodeCollectionView>,
}

impl View for NodeDefinition {
    type V = NodeDefinitionView;

    open(crate) spec fn view(&self) -> NodeDefinitionView {
        NodeDefinitionView {
            encoding: self.encoding,
            node_type: self.node_type,
            is_array: self.is_array,
            data: match self.data {
                Some(d) => Some((buffer_bytes(d.key), buffer_bytes(d.value))),
                None => None,
            },
        }
    }
}

pub open(crate) spec fn collection_view(c: &NodeCollection) -> NodeCollectionView
    decreases c,
{
    NodeCollectionView {
        base: c.base@,
        attributes: Seq::new(c.attributes@.len(), |i: int| c.attributes@[i]@),
        children: Seq::new(
            c.children@.len(),
            |i: int|
                if 0 <= i < c.children@.len() {
                    collection_view(&c.children@[i])
                } else {
                    arbitrary()
                },
        ),
    }
}

impl View for NodeCollection {
    type V = NodeCollectionView;

    open(crate) spec fn view(&self) -> NodeCollectionView {
        collection_view(self)
    }
}

/// The text that the payload of a string or an attribute holds: its bytes
/// in the encoding, without the closing zero byte.
pub open spec fn payload_text(encoding: EncodingType, bytes: Seq<u8>) -> Option<Seq<char>> {
    encoding.spec_decode(strip_nul(bytes))
}

impl NodeDefinitionView {
    /// The key of the definition: the text of its key bytes.
    pub open spec fn key(self) -> Result<Seq<char>, KbinErrorView> {
        match self.data {
            None => Err(KbinErrorView::InvalidState),
            Some((key, _)) => match self.encoding.spec_decode(key) {
                Some(s) => Ok(s),
                None => Err(KbinErrorView::EncodingError),
            },
        }
    }

    /// The text of a definition that holds one: a string or an attribute.
    pub open spec fn text(self) -> Result<Seq<char>, KbinErrorView> {
        match self.data {
            None => Err(KbinErrorView::InvalidState),
            Some((_, value)) => match payload_text(self.encoding, value) {
                Some(s) => Ok(s),
                None => Err(KbinErrorView::EncodingError),
            },
        }
    }

    /// The value of the definition. A node that only opens an element has
    /// none; a string is its text; everything else is read from the payload
    /// as the type says.
    pub open spec fn value(self) -> Result<Option<ValueView>, KbinErrorView> {
        match self.data {
            None => Ok(None),
            Some((_, value)) => if !self.is_array && self.node_type == StandardType::String {
                match self.text() {
                    Ok(s) => Ok(Some(ValueView::String(s))),
                    Err(e) => Err(e),
                }
            } else if !self.is_array && self.node_type == StandardType::Attribute {
                match self.text() {
                    Ok(s) => Ok(Some(ValueView::Attribute(s))),
                    Err(e) => Err(e),
                }
            } else {
                match spec_from_bytes(self.node_type, self.is_array, value) {
                    Ok(v) => Ok(v),
                    Err(e) => Err(e@),
                }
            },
        }
    }
}

/// The attributes of a node that the definitions make when each is set in
/// turn, or the fault of the first whose name or value is no text.
pub open spec fn spec_attributes(defs: Seq<NodeDefinitionView>) -> Result<
    Seq<(Seq<char>, Seq<char>)>,
    KbinErrorView,
>
    decreases defs.len(),
{
    if defs.len() == 0 {
        Ok(Seq::empty())
    } else {
        match spec_attributes(defs.drop_last()) {
            Err(e) => Err(e),
            Ok(front) => match defs.last().key() {
                Err(e) => Err(e),
                Ok(name) => match defs.last().text() {
                    Err(e) => Err(e),
                    Ok(value) => Ok(entries_set(front, name, value)),
                },
            },
        }
    }
}

/// The tree that a collection stands for: the key and value of its base,
/// its attributes, and the trees of its children.
pub open spec fn spec_as_node(c: NodeCollectionView) -> Result<NodeView, KbinErrorView>
    decreases c,
{
    match c.base.key() {
        Err(e) => Err(e),
        Ok(key) => match c.base.value() {
            Err(e) => Err(e),
            Ok(value) => match spec_attributes(c.attributes) {
                Err(e) => Err(e),
                Ok(attributes) => match spec_as_nodes(c.children) {
                    Err(e) => Err(e),
                    Ok(children) => Ok(NodeView { key, attributes, children, value }),
                },
            },
        },
    }
}

/// The trees of the collections, or the fault of the first that stands for
/// none.
pub open spec fn spec_as_nodes(cs: Seq<NodeCollectionView>) -> Result<Seq<NodeView>, KbinErrorView>
    decreases cs,
{
    if cs.len() == 0 {
        Ok(Seq::empty())
    } else {
        match spec_as_nodes(cs.drop_last()) {
            Err(e) => Err(e),
            Ok(front) => match spec_as_node(cs.last()) {
                Err(e) => Err(e),
                Ok(n) => Ok(front.push(n)),
            },
        }
    }
}

/// A fault among the first definitions is the fault of all.
pub proof fn lemma_attributes_fault(defs: Seq<NodeDefinitionView>, k: int)
    requires
        0 <= k <= defs.len(),
        spec_attributes(defs.take(k)) is Err,
    ensures
        spec_attributes(defs) == spec_attributes(defs.take(k)),
    decreases defs.len() - k,
{
    if k == defs.len() {
        assert(defs.take(k) =~= defs);
    } else {
        assert(defs.take(k + 1).drop_last() =~= defs.take(k));
        lemma_attributes_fault(defs, k + 1);
    }
}

/// A fault among the first collections is the fault of all.
pub proof fn lemma_as_nodes_fault(cs: Seq<NodeCollectionView>, k: int)
    requires
        0 <= k <= cs.len(),
        spec_as_nodes(cs.take(k)) is Err,
    ensures
        spec_as_nodes(cs) == spec_as_nodes(cs.take(k)),
    decreases cs.len() - k,
{
    if k == cs.len() {
        assert(cs.take(k) =~= cs);
    } else {
        assert(cs.take(k + 1).drop_last() =~= cs.take(k));
        lemma_as_nodes_fault(cs, k + 1);
    }
}

impl NodeDefinition {
    /// A definition without data.
    pub fn new(encoding: EncodingType, node_type: StandardType, is_array: bool) -> (r: Self)
        ensures
            r@ == (NodeDefinitionView { encoding, node_type, is_array, data: None }),
    {
        NodeDefinition { encoding, node_type, is_array, data: None }
    }

    /// A definition with its key and payload.
    pub fn with_data(
        encoding: EncodingType,
        node_type: StandardType,
        is_array: bool,
        data: NodeData,
    ) -> (r: Self)
        ensures
            r@ == (NodeDefinitionView {
                encoding,
                node_type,
                is_array,
                data: Some((buffer_bytes(data.key), buffer_bytes(data.value))),
            }),
    {
        NodeDefinition { encoding, node_type, is_array, data: Some(data) }
    }

    pub fn encoding(&self) -> (r: EncodingType)
        ensures
            r == self@.encoding,
    {
        self.encoding
    }

    pub fn node_type(&self) -> (r: StandardType)
        ensures
            r == self@.node_type,
    {
        self.node_type
    }

    pub fn is_array(&self) -> (r: bool)
        ensures
            r == self@.is_array,
    {
        self.is_array
    }

    pub fn data(&self) -> (r: Option<&NodeData>)
        ensures
            match r {
                Some(d) => self@.data == Some((buffer_bytes(d.key), buffer_bytes(d.value))),
                None => self@.data is None,
            },
    {
        self.data.as_ref()
    }

    /// The key as text.
    pub fn key(&self) -> (r: Result<String, KbinError>)
        ensures
            match self@.key() {
                Ok(s) => r matches Ok(x) && x@ == s,
                Err(e) => r matches Err(f) && f@ == e,
            },
    {
        match &self.data {
            None => Err(KbinError::InvalidState),
            Some(d) => self.encoding.decode_bytes(buffer_slice(&d.key)),
        }
    }

    /// The text of a string or an attribute.
    pub fn text(&self) -> (r: Result<String, KbinError>)
        ensures
            match self@.text() {
                Ok(s) => r matches Ok(x) && x@ == s,
                Err(e) => r matches Err(f) && f@ == e,
            },
    {
        match &self.data {
            None => Err(KbinError::InvalidState),
            Some(d) => {
                let b = buffer_slice(&d.value);
                let n = b.len();
                let text = if n > 0 && b[n - 1] == 0 {
                    let t = vstd::slice::slice_subrange(b, 0, n - 1);
                    assert(t@ =~= strip_nul(b@));
                    t
                } else {
                    b
                };
                self.encoding.decode_bytes(text)
            },
        }
    }

    /// The value that the payload holds.
    pub fn value(&self) -> (r: Result<Option<Value>, KbinError>)
        ensures
            match self@.value() {
                Ok(Some(v)) => r matches Ok(Some(x)) && x@ == v,
                Ok(None) => r matches Ok(None),
                Err(e) => r matches Err(f) && f@ == e,
            },
    {
        match &self.data {
            None => Ok(None),
            Some(d) => {
                if !self.is_array {
                    match self.node_type {
                        StandardType::String => {
                            return match self.text() {
                                Ok(s) => Ok(Some(Value::String(s))),
                                Err(e) => Err(e),
                            };
                        },
                        StandardType::Attribute => {
                            return match self.text() {
                                Ok(s) => Ok(Some(Value::Attribute(s))),
                                Err(e) => Err(e),
                            };
                        },
                        _ => {},
                    }
                }
                Value::from_standard_type(self.node_type, self.is_array, buffer_slice(&d.value))
            },
        }
    }
}

impl NodeCollection {
    /// A collection without attributes and children.
    pub fn new(base: NodeDefinition) -> (r: Self)
        ensures
            r@ == (NodeCollectionView {
                base: base@,
                attributes: Seq::empty(),
                children: Seq::empty(),
            }),
    {
        let r = NodeCollection { base, attributes: Vec::new(), children: Vec::new() };
        assert(r@.attributes =~= Seq::<NodeDefinitionView>::empty());
        assert(r@.children =~= Seq::<NodeCollectionView>::empty());
        r
    }

    /// A collection with attributes.
    pub fn with_attributes(base: NodeDefinition, attributes: Vec<NodeDefinition>) -> (r: Self)
        ensures
            r@ == (NodeCollectionView {
                base: base@,
                attributes: definitions_view(attributes@),
                children: Seq::empty(),
            }),
    {
        let r = NodeCollection { base, attributes, children: Vec::new() };
        assert(r@.attributes =~= definitions_view(attributes@));
        assert(r@.children =~= Seq::<NodeCollectionView>::empty());
        r
    }

    pub fn base(&self) -> (r: &NodeDefinition)
        ensures
            r@ == self@.base,
    {
        &self.base
    }

    pub fn attributes(&self) -> (r: &Vec<NodeDefinition>)
        ensures
            definitions_view(r@) == self@.attributes,
    {
        assert(definitions_view(self.attributes@) =~= self@.attributes);
        &self.attributes
    }

    pub fn children(&self) -> (r: &Vec<NodeCollection>)
        ensures
            collections_view(r@) == self@.children,
    {
        assert(collections_view(self.children@) =~= self@.children);
        &self.children
    }

    /// Adds a child behind the others.
    pub fn push_child(&mut self, child: NodeCollection)
        ensures
            final(self)@ == (NodeCollectionView {
                children: old(self)@.children.push(child@),
                ..old(self)@
            }),
    {
        self.children.push(child);
        assert(self@.children =~= old(self)@.children.push(child@));
        assert(self@.attributes =~= old(self)@.attributes);
    }

    /// The attributes of the tree's node.
    fn attributes_of(&self, node: &mut Node) -> (r: Result<(), KbinError>)
        requires
            old(node)@.attributes.len() == 0,
            old(node).is_lean(),
        ensures
            match spec_attributes(self@.attributes) {
                Ok(a) => r is Ok && final(node)@ == (NodeView { attributes: a, ..old(node)@ })
                    && final(node).is_lean(),
                Err(e) => r matches Err(f) && f@ == e,
            },
    {
        let ghost defs = self@.attributes;
        let mut i: usize = 0;
        proof {
            assert(defs.take(0) =~= Seq::<NodeDefinitionView>::empty());
            assert(definitions_view(self.attributes@) =~= defs);
            assert(node@.attributes =~= Seq::<(Seq<char>, Seq<char>)>::empty());
        }
        while i < self.attributes.len()
            invariant
                i <= self.attributes@.len(),
                defs == self@.attributes,
                defs == definitions_view(self.attributes@),
                spec_attributes(defs.take(i as int)) == Ok::<
                    Seq<(Seq<char>, Seq<char>)>,
                    KbinErrorView,
                >(node@.attributes),
                node@ == (NodeView { attributes: node@.attributes, ..old(node)@ }),
                node.is_lean(),
            decreases self.attributes@.len() - i,
        {
            let def = &self.attributes[i];
            proof {
                assert(defs.take(i + 1).drop_last() =~= defs.take(i as int));
                assert(defs.take(i + 1).last() == def@);
            }
            let name = match def.key() {
                Ok(s) => s,
                Err(e) => {
                    proof {
                        lemma_attributes_fault(defs, i + 1);
                    }
                    return Err(e);
                },
            };
            let value = match def.text() {
                Ok(s) => s,
                Err(e) => {
                    proof {
                        lemma_attributes_fault(defs, i + 1);
                    }
                    return Err(e);
                },
            };
            let _ = node.set_attr(name.as_str(), value.as_str());
            i += 1;
        }
        proof {
            assert(defs.take(i as int) =~= defs);
        }
        Ok(())
    }

    /// The tree that the collection stands for.
    pub fn as_node(&self) -> (r: Result<Node, KbinError>)
        ensures
            match spec_as_node(self@) {
                Ok(n) => r matches Ok(x) && x@ == n && x.is_lean(),
                Err(e) => r matches Err(f) && f@ == e,
            },
        decreases self,
    {
        let key = match self.base.key() {
            Ok(k) => k,
            Err(e) => {
                return Err(e);
            },
        };
        let value = match self.base.value() {
            Ok(v) => v,
            Err(e) => {
                return Err(e);
            },
        };
        let mut node = Node { key, attributes: None, children: None, value };
        match self.attributes_of(&mut node) {
            Ok(()) => {},
            Err(e) => {
                return Err(e);
            },
        }
        let ghost cs = self@.children;
        let ghost base = node@;
        let mut i: usize = 0;
        proof {
            assert(cs.take(0) =~= Seq::<NodeCollectionView>::empty());
            assert(collections_view(self.children@) =~= cs);
            assert(node@.children =~= Seq::<NodeView>::empty());
        }
        while i < self.children.len()
            invariant
                i <= self.children@.len(),
                cs == self@.children,
                cs == collections_view(self.children@),
                spec_as_nodes(cs.take(i as int)) == Ok::<Seq<NodeView>, KbinErrorView>(
                    node@.children,
                ),
                node@ == (NodeView { children: node@.children, ..base }),
                node.is_lean(),
                self@.base.key() == Ok::<Seq<char>, KbinErrorView>(base.key),
                self@.base.value() == Ok::<Option<ValueView>, KbinErrorView>(base.value),
                spec_attributes(self@.attributes) == Ok::<
                    Seq<(Seq<char>, Seq<char>)>,
                    KbinErrorView,
                >(base.attributes),
            decreases self.children@.len() - i,
        {
            proof {
                assert(cs.take(i + 1).drop_last() =~= cs.take(i as int));
                assert(cs.take(i + 1).last() == self.children@[i as int]@);
            }
            match self.children[i].as_node() {
                Ok(child) => {
                    node.append_child(child);
                },
                Err(e) => {
                    proof {
                        lemma_as_nodes_fault(cs, i + 1);
                    }
                    return Err(e);
                },
            }
            i += 1;
        }
        proof {
            assert(cs.take(i as int) =~= cs);
        }
        Ok(node)
    }
}

/// The views of the definitions.
pub open spec fn definitions_view(defs: Seq<NodeDefinition>) -> Seq<NodeDefinitionView> {
    Seq::new(defs.len(), |i: int| defs[i]@)
}

/// The views of the collections.
pub open spec fn collections_view(cs: Seq<NodeCollection>) -> Seq<NodeCollectionView> {
    Seq::new(cs.len(), |i: int| cs[i]@)
}

} // verus!

//! The tree of a document: nodes with a key, attributes in their order,
//! children and a value.
use vstd::prelude::*;
use vstd::std_specs::iter::IteratorSpec;
use indexmap::IndexMap;
use crate::text::str_eq;
use crate::value::{node_view, NodeView, Value};

verus! {

/// `indexmap::IndexMap`: a hash map that keeps its entries in the order in
/// which their keys were first inserted.
#[verifier::external_type_specification]
#[verifier::external_body]
#[verifier::reject_recursive_types(K)]
#[verifier::reject_recursive_types(V)]
#[verifier::reject_recursive_types(S)]
pub struct ExIndexMap<K, V, S>(IndexMap<K, V, S>);

/// The entries of an attribute map, in the map's order.
pub uninterp spec fn attribute_entries(m: IndexMap<String, String>) -> Seq<(Seq<char>, Seq<char>)>;

/// No two entries have the same name.
pub open spec fn distinct_names(entries: Seq<(Seq<char>, Seq<char>)>) -> bool {
    forall|i: int, j: int|
        0 <= i < j < entries.len() ==> (#[trigger] entries[i]).0 != (#[trigger] entries[j]).0
}

/// The place of the entry with this name, or the number of entries where
/// there is none.
pub open spec fn index_of_name(entries: Seq<(Seq<char>, Seq<char>)>, name: Seq<char>) -> int
    decreases entries.len(),
{
    if entries.len() == 0 {
        0
    } else if entries[0].0 == name {
        0
    } else {
        1 + index_of_name(entries.drop_first(), name)
    }
}

/// The entries after `name` is set to `value`: an entry with that name
/// keeps its place and takes the value, a new name goes to the end.
pub open spec fn entries_set(
    entries: Seq<(Seq<char>, Seq<char>)>,
    name: Seq<char>,
    value: Seq<char>,
) -> Seq<(Seq<char>, Seq<char>)> {
    let i = index_of_name(entries, name);
    if i < entries.len() {
        entries.update(i, (name, value))
    } else {
        entries.push((name, value))
    }
}

pub proof fn lemma_index_of_name(entries: Seq<(Seq<char>, Seq<char>)>, name: Seq<char>)
    ensures
        0 <= index_of_name(entries, name) <= entries.len(),
        index_of_name(entries, name) < entries.len() ==> entries[index_of_name(
            entries,
            name,
        )].0 == name,
        forall|i: int| 0 <= i < index_of_name(entries, name) ==> (#[trigger] entries[i]).0 != name,
    decreases entries.len(),
{
    if entries.len() > 0 && entries[0].0 != name {
        let rest = entries.drop_first();
        lemma_index_of_name(rest, name);
        assert forall|i: int| 0 <= i < index_of_name(entries, name) implies (
        #[trigger] entries[i]).0 != name by {
            if i > 0 {
                assert(entries[i] == rest[i - 1]);
            }
        }
    }
}

/// Setting an attribute leaves no two attributes with one name.
pub proof fn lemma_entries_set_distinct(
    entries: Seq<(Seq<char>, Seq<char>)>,
    name: Seq<char>,
    value: Seq<char>,
)
    requires
        distinct_names(entries),
    ensures
        distinct_names(entries_set(entries, name, value)),
{
    lemma_index_of_name(entries, name);
    let k = index_of_name(entries, name);
    let after = entries_set(entries, name, value);
    assert forall|i: int, j: int| 0 <= i < j < after.len() implies (#[trigger] after[i]).0 != (
    #[trigger] after[j]).0 by {
        if k < entries.len() {
            assert(after[i].0 == entries[i].0);
            assert(after[j].0 == entries[j].0);
        } else {
            if j < entries.len() {
                assert(after[i] == entries[i] && after[j] == entries[j]);
            } else {
                assert(after[i] == entries[i]);
            }
        }
    }
}

/// `IndexMap::new`: a map without entries.
#[verifier::external_body]
pub(crate) fn attrs_new() -> (m: IndexMap<String, String>)
    ensures
        attribute_entries(m) == Seq::<(Seq<char>, Seq<char>)>::empty(),
{
    IndexMap::new()
}

/// `IndexMap::clone`: a map with the same entries in the same order.
#[verifier::external_body]
pub(crate) fn attrs_clone(m: &IndexMap<String, String>) -> (r: IndexMap<String, String>)
    ensures
        attribute_entries(r) == attribute_entries(*m),
{
    m.clone()
}

/// `IndexMap::len`: the number of entries.
#[verifier::external_body]
pub(crate) fn attrs_len(m: &IndexMap<String, String>) -> (n: usize)
    ensures
        n == attribute_entries(*m).len(),
{
    m.len()
}

/// `IndexMap::insert`: where the map has an entry with an equal key, that
/// entry keeps its place, takes the new value and hands the old one back;
/// otherwise the pair becomes the last entry.
#[verifier::external_body]
pub(crate) fn attrs_insert(m: &mut IndexMap<String, String>, key: String, value: String) -> (r:
    Option<String>)
    ensures
        attribute_entries(*final(m)) == entries_set(attribute_entries(*old(m)), key@, value@),
        match r {
            Some(s) => index_of_name(attribute_entries(*old(m)), key@) < attribute_entries(
                *old(m),
            ).len() && s@ == attribute_entries(*old(m))[index_of_name(
                attribute_entries(*old(m)),
                key@,
            )].1,
            None => index_of_name(attribute_entries(*old(m)), key@) == attribute_entries(
                *old(m),
            ).len(),
        },
{
    m.insert(key, value)
}

/// `IndexMap::get`: the value of the entry with an equal key, if there is one.
#[verifier::external_body]
pub(crate) fn attrs_get<'a>(m: &'a IndexMap<String, String>, key: &str) -> (r: Option<&'a String>)
    ensures
        match r {
            Some(s) => index_of_name(attribute_entries(*m), key@) < attribute_entries(*m).len()
                && s@ == attribute_entries(*m)[index_of_name(attribute_entries(*m), key@)].1,
            None => index_of_name(attribute_entries(*m), key@) == attribute_entries(*m).len(),
        },
{
    m.get(key)
}

/// `IndexMap::get_index`: the entry at a place in the map's order.
#[verifier::external_body]
pub(crate) fn attrs_get_index<'a>(m: &'a IndexMap<String, String>, i: usize) -> (r: Option<
    (&'a String, &'a String),
>)
    ensures
        match r {
            Some((k, v)) => i < attribute_entries(*m).len() && (k@, v@) == attribute_entries(
                *m,
            )[i as int],
            None => i >= attribute_entries(*m).len(),
        },
{
    m.get_index(i)
}

/// One element of a document.
#[derive(Debug, PartialEq)]
pub struct Node {
    pub(crate) key: String,
    pub(crate) attributes: Option<IndexMap<String, String>>,
    pub(crate) children: Option<Vec<Node>>,
    pub(crate) value: Option<Value>,
}

impl View for Node {
    type V = NodeView;

    open(crate) spec fn view(&self) -> NodeView {
        node_view(self)
    }
}

/// The entries that a list of pairs makes when each pair is set in turn.
pub open spec fn entries_from(pairs: Seq<(Seq<char>, Seq<char>)>) -> Seq<(Seq<char>, Seq<char>)>
    decreases pairs.len(),
{
    if pairs.len() == 0 {
        Seq::empty()
    } else {
        entries_set(entries_from(pairs.drop_last()), pairs.last().0, pairs.last().1)
    }
}

/// The entries that a list of pairs makes have no name twice.
pub proof fn lemma_entries_from_distinct(pairs: Seq<(Seq<char>, Seq<char>)>)
    ensures
        distinct_names(entries_from(pairs)),
    decreases pairs.len(),
{
    if pairs.len() > 0 {
        lemma_entries_from_distinct(pairs.drop_last());
        lemma_entries_set_distinct(
            entries_from(pairs.drop_last()),
            pairs.last().0,
            pairs.last().1,
        );
    }
}

/// The pairs of a slice of borrowed texts.
pub open spec fn pairs_view(attrs: Seq<(&str, &str)>) -> Seq<(Seq<char>, Seq<char>)> {
    Seq::new(attrs.len(), |i: int| (attrs[i].0@, attrs[i].1@))
}

/// The views of the nodes.
pub open spec fn nodes_view(nodes: Seq<Node>) -> Seq<NodeView> {
    Seq::new(nodes.len(), |i: int| nodes[i]@)
}

/// The place of the first node with this key, or the number of nodes where
/// there is none.
pub open spec fn index_of_key(nodes: Seq<NodeView>, key: Seq<char>) -> int
    decreases nodes.len(),
{
    if nodes.len() == 0 {
        0
    } else if nodes[0].key == key {
        0
    } else {
        1 + index_of_key(nodes.drop_first(), key)
    }
}

pub proof fn lemma_index_of_key(nodes: Seq<NodeView>, key: Seq<char>)
    ensures
        0 <= index_of_key(nodes, key) <= nodes.len(),
        index_of_key(nodes, key) < nodes.len() ==> nodes[index_of_key(nodes, key)].key == key,
        forall|i: int| 0 <= i < index_of_key(nodes, key) ==> (#[trigger] nodes[i]).key != key,
    decreases nodes.len(),
{
    if nodes.len() > 0 && nodes[0].key != key {
        let rest = nodes.drop_first();
        lemma_index_of_key(rest, key);
        assert forall|i: int| 0 <= i < index_of_key(nodes, key) implies (#[trigger] nodes[i]).key
            != key by {
            if i > 0 {
                assert(nodes[i] == rest[i - 1]);
            }
        }
    }
}

/// Builds an attribute map from pairs of name and value, set in turn: a
/// name that comes twice keeps its first place and its last value.
pub fn convert_attributes(attrs: &[(&str, &str)]) -> (r: IndexMap<String, String>)
    ensures
        attribute_entries(r) == entries_from(pairs_view(attrs@)),
{
    let mut attributes = attrs_new();
    let mut i: usize = 0;
    proof {
        assert(pairs_view(attrs@).take(0) =~= Seq::<(Seq<char>, Seq<char>)>::empty());
    }
    while i < attrs.len()
        invariant
            i <= attrs@.len(),
            attribute_entries(attributes) == entries_from(pairs_view(attrs@).take(i as int)),
        decreases attrs@.len() - i,
    {
        let (key, value) = attrs[i];
        proof {
            let pairs = pairs_view(attrs@);
            assert(pairs.take(i + 1).drop_last() =~= pairs.take(i as int));
            assert(pairs.take(i + 1).last() == (key@, value@));
        }
        let _ = attrs_insert(&mut attributes, key.to_owned(), value.to_owned());
        i += 1;
    }
    proof {
        assert(pairs_view(attrs@).take(i as int) =~= pairs_view(attrs@));
    }
    attributes
}

impl Node {
    /// The attribute map that the node holds, if it holds one. The view has
    /// the entries of the map, and none both for a node without a map and
    /// for one with an empty map: a document does not tell the two apart.
    pub closed spec fn attribute_map(&self) -> Option<IndexMap<String, String>> {
        self.attributes
    }

    /// The list of children that the node holds, if it holds one. The view
    /// has the children of the list, and none both for a node without a list
    /// and for one with an empty list.
    pub closed spec fn child_list(&self) -> Option<Seq<Node>> {
        match self.children {
            Some(c) => Some(c@),
            None => None,
        }
    }

    /// A node as a reader makes it: it holds an attribute map exactly where
    /// it has attributes and a list of children exactly where it has
    /// children, and each of its children is such a node.
    pub open(crate) spec fn is_lean(&self) -> bool
        decreases self,
    {
        &&& match self.attributes {
            Some(m) => attribute_entries(m).len() > 0,
            None => true,
        }
        &&& match self.children {
            Some(c) => c@.len() > 0 && forall|i: int|
                0 <= i < c@.len() ==> (#[trigger] c@[i]).is_lean(),
            None => true,
        }
    }

    /// What a node as a reader makes it holds, by its view.
    pub proof fn lemma_lean(&self)
        requires
            self.is_lean(),
        ensures
            self.attribute_map() is Some <==> self@.attributes.len() > 0,
            self.child_list() is Some <==> self@.children.len() > 0,
            self.child_list() matches Some(c) ==> forall|i: int|
                0 <= i < c.len() ==> (#[trigger] c[i]).is_lean(),
    {
        self.lemma_view_holds();
    }

    /// The view holds what the map and the list hold.
    pub proof fn lemma_view_holds(&self)
        ensures
            self@.attributes == match self.attribute_map() {
                Some(m) => attribute_entries(m),
                None => Seq::empty(),
            },
            self@.children == match self.child_list() {
                Some(c) => nodes_view(c),
                None => Seq::empty(),
            },
    {
        match self.children {
            Some(c) => {
                assert(self@.children =~= nodes_view(c@));
            },
            None => {},
        }
    }

    /// A node with a key and nothing else.
    pub fn new(key: &str) -> (r: Node)
        ensures
            r.attribute_map() is None,
            r.child_list() is None,
            r.is_lean(),
            r@ == (NodeView {
                key: key@,
                attributes: Seq::empty(),
                children: Seq::empty(),
                value: None,
            }),
    {
        Node { key: key.to_owned(), attributes: None, children: None, value: None }
    }

    /// A node with attributes.
    pub fn with_attrs(key: &str, attrs: &[(&str, &str)]) -> (r: Node)
        ensures
            r.attribute_map() is Some,
            r.child_list() is None,
            r@ == (NodeView {
                key: key@,
                attributes: entries_from(pairs_view(attrs@)),
                children: Seq::empty(),
                value: None,
            }),
    {
        Node {
            key: key.to_owned(),
            attributes: Some(convert_attributes(attrs)),
            children: None,
            value: None,
        }
    }

    /// A node with a value.
    pub fn with_value(key: &str, value: Value) -> (r: Node)
        ensures
            r.attribute_map() is None,
            r.child_list() is None,
            r.is_lean(),
            r@ == (NodeView {
                key: key@,
                attributes: Seq::empty(),
                children: Seq::empty(),
                value: Some(value@),
            }),
    {
        Node { key: key.to_owned(), attributes: None, children: None, value: Some(value) }
    }

    /// A node with children.
    pub fn with_nodes(key: &str, nodes: Vec<Node>) -> (r: Node)
        ensures
            r.attribute_map() is None,
            r.child_list() == Some(nodes@),
            r@ == (NodeView {
                key: key@,
                attributes: Seq::empty(),
                children: nodes_view(nodes@),
                value: None,
            }),
    {
        let r = Node { key: key.to_owned(), attributes: None, children: Some(nodes), value: None };
        assert(r@.children =~= nodes_view(nodes@));
        r
    }

    /// A node with attributes and children.
    pub fn with(key: &str, attrs: &[(&str, &str)], nodes: Vec<Node>) -> (r: Node)
        ensures
            r.attribute_map() is Some,
            r.child_list() == Some(nodes@),
            r@ == (NodeView {
                key: key@,
                attributes: entries_from(pairs_view(attrs@)),
                children: nodes_view(nodes@),
                value: None,
            }),
    {
        let r = Node {
            key: key.to_owned(),
            attributes: Some(convert_attributes(attrs)),
            children: Some(nodes),
            value: None,
        };
        assert(r@.children =~= nodes_view(nodes@));
        r
    }

    /// A node with attributes and a value.
    pub fn with_attrs_value(key: &str, attrs: &[(&str, &str)], value: Value) -> (r: Node)
        ensures
            r.attribute_map() is Some,
            r.child_list() is None,
            r@ == (NodeView {
                key: key@,
                attributes: entries_from(pairs_view(attrs@)),
                children: Seq::empty(),
                value: Some(value@),
            }),
    {
        Node {
            key: key.to_owned(),
            attributes: Some(convert_attributes(attrs)),
            children: None,
            value: Some(value),
        }
    }

    pub fn key(&self) -> (r: &str)
        ensures
            r@ == self@.key,
    {
        self.key.as_str()
    }

    /// The attribute map, if the node was given one.
    pub fn attributes(&self) -> (r: Option<&IndexMap<String, String>>)
        ensures
            match r {
                Some(m) => self.attribute_map() == Some(*m) && attribute_entries(*m)
                    == self@.attributes,
                None => self.attribute_map() is None && self@.attributes.len() == 0,
            },
    {
        self.attributes.as_ref()
    }

    /// The children, if the node was given any.
    pub fn children(&self) -> (r: Option<&Vec<Node>>)
        ensures
            match r {
                Some(c) => self.child_list() == Some(c@) && nodes_view(c@) == self@.children,
                None => self.child_list() is None && self@.children.len() == 0,
            },
    {
        match &self.children {
            Some(c) => {
                assert(nodes_view(c@) =~= self@.children);
                Some(c)
            },
            None => None,
        }
    }

    /// The children for changing, if the node was given any.
    pub fn children_mut(&mut self) -> (r: Option<&mut Vec<Node>>)
        ensures
            final(self)@.key == old(self)@.key,
            final(self)@.attributes == old(self)@.attributes,
            final(self)@.value == old(self)@.value,
            final(self).attribute_map() == old(self).attribute_map(),
            match r {
                Some(c) => old(self).child_list() == Some(c@) && final(self).child_list() == Some(
                    final(c)@,
                ) && nodes_view(c@) == old(self)@.children && final(self)@.children =~= nodes_view(
                    final(c)@,
                ),
                None => old(self).child_list() is None && final(self).child_list() is None && old(self)@.children.len() == 0 && final(self)@.children.len() == 0,
            },
    {
        match &mut self.children {
            Some(c) => {
                assert(nodes_view(c@) =~= old(self)@.children);
                Some(c)
            },
            None => None,
        }
    }

    pub fn value(&self) -> (r: Option<&Value>)
        ensures
            match r {
                Some(v) => self@.value == Some(v@),
                None => self@.value is None,
            },
    {
        self.value.as_ref()
    }

    /// The value of the attribute with this name.
    pub fn attr(&self, key: &str) -> (r: Option<&str>)
        ensures
            match r {
                Some(s) => index_of_name(self@.attributes, key@) < self@.attributes.len() && s@
                    == self@.attributes[index_of_name(self@.attributes, key@)].1,
                None => index_of_name(self@.attributes, key@) == self@.attributes.len(),
            },
    {
        match &self.attributes {
            Some(m) => match attrs_get(m, key) {
                Some(s) => Some(s.as_str()),
                None => None,
            },
            None => None,
        }
    }

    pub fn into_key_and_value(self) -> (r: (String, Option<Value>))
        ensures
            r.0@ == self@.key,
            match r.1 {
                Some(v) => self@.value == Some(v@),
                None => self@.value is None,
            },
    {
        (self.key, self.value)
    }

    pub fn set_key(&mut self, key: String)
        ensures
            final(self)@ == (NodeView { key: key@, ..old(self)@ }),
            final(self).attribute_map() == old(self).attribute_map(),
            final(self).child_list() == old(self).child_list(),
    {
        self.key = key;
        assert(self@.children =~= old(self)@.children);
    }

    /// Sets an attribute and hands back the value that the name had before.
    /// A name that the node has keeps its place; a new one goes last.
    pub fn set_attr(&mut self, key: &str, value: &str) -> (r: Option<String>)
        ensures
            final(self)@ == (NodeView {
                attributes: entries_set(old(self)@.attributes, key@, value@),
                ..old(self)@
            }),
            final(self).attribute_map() is Some,
            final(self).child_list() == old(self).child_list(),
            old(self).is_lean() ==> final(self).is_lean(),
            match r {
                Some(s) => index_of_name(old(self)@.attributes, key@) < old(self)@.attributes.len()
                    && s@ == old(self)@.attributes[index_of_name(old(self)@.attributes, key@)].1,
                None => index_of_name(old(self)@.attributes, key@) == old(self)@.attributes.len(),
            },
    {
        let mut attributes = match self.attributes.take() {
            Some(m) => m,
            None => attrs_new(),
        };
        let ghost before = attribute_entries(attributes);
        let r = attrs_insert(&mut attributes, key.to_owned(), value.to_owned());
        proof {
            lemma_index_of_name(before, key@);
            assert(attribute_entries(attributes).len() > 0);
        }
        self.attributes = Some(attributes);
        assert(self@.children =~= old(self)@.children);
        r
    }

    /// Adds a child behind the others.
    pub fn append_child(&mut self, node: Node)
        ensures
            final(self)@ == (NodeView {
                children: old(self)@.children.push(node@),
                ..old(self)@
            }),
            final(self).attribute_map() == old(self).attribute_map(),
            final(self).child_list() == Some(
                match old(self).child_list() {
                    Some(c) => c.push(node),
                    None => seq![node],
                },
            ),
            old(self).is_lean() && node.is_lean() ==> final(self).is_lean(),
    {
        let mut children = match self.children.take() {
            Some(c) => c,
            None => Vec::new(),
        };
        children.push(node);
        self.children = Some(children);
        assert(self@.children =~= old(self)@.children.push(node@));
    }

    /// Sets or clears the value and hands back the one that was there.
    pub fn set_value(&mut self, value: Option<Value>) -> (r: Option<Value>)
        ensures
            final(self)@ == (NodeView {
                value: match value {
                    Some(v) => Some(v@),
                    None => None,
                },
                ..old(self)@
            }),
            match r {
                Some(v) => old(self)@.value == Some(v@),
                None => old(self)@.value is None,
            },
            final(self).attribute_map() == old(self).attribute_map(),
            final(self).child_list() == old(self).child_list(),
    {
        let r = self.value.take();
        self.value = value;
        assert(self@.children =~= old(self)@.children);
        r
    }

    /// Whether a child has this key.
    pub fn has(&self, key: &str) -> (r: bool)
        ensures
            r == (index_of_key(self@.children, key@) < self@.children.len()),
    {
        self.get_child(key).is_some()
    }

    /// The first child with this key.
    pub fn get_child(&self, key: &str) -> (r: Option<&Node>)
        ensures
            match r {
                Some(n) => index_of_key(self@.children, key@) < self@.children.len() && n@
                    == self@.children[index_of_key(self@.children, key@)],
                None => index_of_key(self@.children, key@) == self@.children.len(),
            },
    {
        match &self.children {
            Some(children) => {
                let mut i: usize = 0;
                proof {
                    assert(self@.children =~= nodes_view(children@));
                    assert(self@.children.skip(0) =~= self@.children);
                }
                while i < children.len()
                    invariant
                        i <= children@.len(),
                        self@.children == nodes_view(children@),
                        index_of_key(self@.children, key@) == i + index_of_key(
                            self@.children.skip(i as int),
                            key@,
                        ),
                    decreases children@.len() - i,
                {
                    let node = &children[i];
                    proof {
                        let rest = self@.children.skip(i as int);
                        assert(rest[0] == node@);
                        assert(rest.drop_first() =~= self@.children.skip(i + 1));
                    }
                    if str_eq(node.key.as_str(), key) {
                        return Some(node);
                    }
                    i += 1;
                }
                None
            },
            None => None,
        }
    }
}

impl Node {
    /// The place of the first child with this key, if there is one.
    fn child_index(&self, key: &str) -> (r: Option<usize>)
        ensures
            match r {
                Some(i) => i == index_of_key(self@.children, key@) && i < self@.children.len(),
                None => index_of_key(self@.children, key@) == self@.children.len(),
            },
    {
        match &self.children {
            Some(children) => {
                let mut i: usize = 0;
                proof {
                    assert(self@.children =~= nodes_view(children@));
                    assert(self@.children.skip(0) =~= self@.children);
                }
                while i < children.len()
                    invariant
                        i <= children@.len(),
                        self@.children == nodes_view(children@),
                        index_of_key(self@.children, key@) == i + index_of_key(
                            self@.children.skip(i as int),
                            key@,
                        ),
                    decreases children@.len() - i,
                {
                    proof {
                        let rest = self@.children.skip(i as int);
                        assert(rest[0] == children@[i as int]@);
                        assert(rest.drop_first() =~= self@.children.skip(i + 1));
                    }
                    if str_eq(children[i].key.as_str(), key) {
                        return Some(i);
                    }
                    i += 1;
                }
                None
            },
            None => None,
        }
    }

    /// The first child with this key, for changing.
    pub fn get_child_mut(&mut self, key: &str) -> (r: Option<&mut Node>)
        ensures
            final(self)@.key == old(self)@.key,
            final(self)@.attributes == old(self)@.attributes,
            final(self)@.value == old(self)@.value,
            final(self).attribute_map() == old(self).attribute_map(),
            (final(self).child_list() is Some) == (old(self).child_list() is Some),
            match r {
                Some(n) => index_of_key(old(self)@.children, key@) < old(self)@.children.len()
                    && n@ == old(self)@.children[index_of_key(old(self)@.children, key@)]
                    && final(self)@.children =~= old(self)@.children.update(
                    index_of_key(old(self)@.children, key@),
                    final(n)@,
                ),
                None => index_of_key(old(self)@.children, key@) == old(self)@.children.len()
                    && final(self)@.children =~= old(self)@.children,
            },
    {
        let found = self.child_index(key);
        match found {
            Some(i) => match &mut self.children {
                Some(children) => {
                    assert(nodes_view(children@) =~= old(self)@.children);
                    Some(&mut children[i])
                },
                None => None,
            },
            None => None,
        }
    }
}

/// Copies of the nodes, in their order.
fn clone_nodes(nodes: &Vec<Node>) -> (r: Vec<Node>)
    ensures
        nodes_view(r@) == nodes_view(nodes@),
    decreases nodes,
{
    let mut out: Vec<Node> = Vec::new();
    let mut i: usize = 0;
    while i < nodes.len()
        invariant
            i <= nodes@.len(),
            out@.len() == i,
            forall|j: int| 0 <= j < i ==> (#[trigger] out@[j])@ == nodes@[j]@,
        decreases nodes@.len() - i,
    {
        out.push(nodes[i].clone());
        i += 1;
    }
    assert(nodes_view(out@) =~= nodes_view(nodes@));
    out
}

impl Node {
    /// A copy of the node and of everything below it.
    pub fn clone(&self) -> (r: Node)
        ensures
            r@ == self@,
            (r.attribute_map() is Some) == (self.attribute_map() is Some),
            (r.child_list() is Some) == (self.child_list() is Some),
        decreases self,
    {
        let attributes = match &self.attributes {
            Some(m) => Some(attrs_clone(m)),
            None => None,
        };
        let children = match &self.children {
            Some(c) => {
                assert(nodes_view(c@) =~= self@.children);
                Some(clone_nodes(c))
            },
            None => None,
        };
        let value = match &self.value {
            Some(v) => Some(v.clone()),
            None => None,
        };
        let r = Node { key: self.key.clone(), attributes, children, value };
        assert(r@.children =~= self@.children);
        r
    }
}

/// An iterator over what an optional iterator gives: nothing where there
/// is none.
pub struct OptionIterator<I: Iterator> {
    inner: Option<I>,
}

impl<I: Iterator> OptionIterator<I> {
    /// The iterator that is wrapped, if there is one.
    pub closed spec fn inner(&self) -> Option<I> {
        self.inner
    }

    pub fn new(inner: Option<I>) -> (r: Self)
        ensures
            r.inner() == inner,
    {
        OptionIterator { inner }
    }

    /// The next item of the wrapped iterator, and nothing where there is
    /// no iterator.
    pub fn next(&mut self) -> (r: Option<I::Item>)
        ensures
            old(self).inner() is None ==> r is None && final(self).inner() is None,
            old(self).inner() is Some ==> final(self).inner() is Some,
            old(self).inner() is Some && old(self).inner()->Some_0.obeys_prophetic_iter_laws()
                ==> (if old(self).inner()->Some_0.remaining().len() > 0 {
                r == Some(old(self).inner()->Some_0.remaining()[0])
                    && final(self).inner()->Some_0.remaining() == old(self).inner()->Some_0.remaining().drop_first()
            } else {
                r is None
            }),
    {
        match &mut self.inner {
            Some(inner) => inner.next(),
            None => None,
        }
    }
}

} // verus!

//! Writing a document as XML text.
use vstd::prelude::*;
use vstd::string::StringExecFns;
use indexmap::IndexMap;
use crate::encoding_type::EncodingType;
use crate::error::KbinError;
use crate::node::{attribute_entries, attrs_get_index, attrs_len, nodes_view, Node};
use crate::node_types::StandardType;
use crate::number_text::{decimal, push_decimal};
use crate::text::string_push;
use crate::value::{lemma_view_type, NodeView, Value, ValueView};
use crate::value_text::spec_value_text;

verus! {

/// What stands for a character in XML text: a reference for the five
/// characters of the markup and for the carriage return, the character
/// itself for every other.
pub open spec fn escaped_char(c: char) -> Seq<char> {
    if c == '&' {
        "&amp;"@
    } else if c == '<' {
        "&lt;"@
    } else if c == '>' {
        "&gt;"@
    } else if c == '"' {
        "&quot;"@
    } else if c == '\'' {
        "&apos;"@
    } else if c == '\r' {
        "&#13;"@
    } else {
        seq![c]
    }
}

/// A text with every character escaped.
pub open spec fn escaped(s: Seq<char>) -> Seq<char>
    decreases s.len(),
{
    if s.len() == 0 {
        Seq::empty()
    } else {
        escaped(s.drop_last()) + escaped_char(s.last())
    }
}

/// Appends a text with every character escaped.
pub fn push_escaped(out: &mut String, s: &str)
    ensures
        final(out)@ == old(out)@ + escaped(s@),
{
    let chars = s.chars();
    proof {
        vstd::string::axiom_spec_iter(s);
        assert(s@.take(0) =~= Seq::<char>::empty());
    }
    for c in it: chars
        invariant
            it.seq() == s@,
            out@ == old(out)@ + escaped(s@.take(it.index())),
    {
        proof {
            let k = it.index();
            assert(s@.take(k + 1).drop_last() =~= s@.take(k));
            assert(s@.take(k + 1).last() == c);
        }
        if c == '&' {
            out.append("&amp;");
        } else if c == '<' {
            out.append("&lt;");
        } else if c == '>' {
            out.append("&gt;");
        } else if c == '"' {
            out.append("&quot;");
        } else if c == '\'' {
            out.append("&apos;");
        } else if c == '\r' {
            out.append("&#13;");
        } else {
            string_push(out, c);
        }
        assert(out@ =~= old(out)@ + escaped(s@.take(it.index() + 1)));
    }
    assert(s@.take(s@.len() as int) =~= s@);
}

/// The attributes that say what the value of an element is: its type, the
/// number of values of an array, and the number of bytes of binary data.
pub open spec fn type_attributes(v: ValueView) -> Seq<char> {
    " __type=\""@ + v.standard_type().spec_name() + "\""@ + (match v {
        ValueView::Array(_, vs) => " __count=\""@ + decimal(vs.len()) + "\""@,
        ValueView::Binary(b) => " __size=\""@ + decimal(b.len()) + "\""@,
        _ => Seq::empty(),
    })
}

/// The attributes of an element, each with a space before it.
pub open spec fn attributes_text(attrs: Seq<(Seq<char>, Seq<char>)>) -> Seq<char>
    decreases attrs.len(),
{
    if attrs.len() == 0 {
        Seq::empty()
    } else {
        attributes_text(attrs.drop_last()) + " "@ + attrs.last().0 + "=\""@ + escaped(
            attrs.last().1,
        ) + "\""@
    }
}

/// The start of a tag: the name of the element, what its value is, and
/// its attributes.
pub open spec fn open_tag(n: NodeView) -> Seq<char> {
    "<"@ + n.key + (match n.value {
        Some(v) => type_attributes(v),
        None => Seq::empty(),
    }) + attributes_text(n.attributes)
}

/// The text of the value of an element, escaped, and the number of texts
/// of the table that are used then. A value without a text of its own, which
/// a floating-point number is, takes the next text of the table; where the
/// table has none left, there is no text.
pub open spec fn value_part(n: NodeView, texts: Seq<Seq<char>>, i: nat) -> Option<(Seq<char>, nat)> {
    match n.value {
        Some(v) => match spec_value_text(v) {
            Some(t) => Some((escaped(t), i)),
            None => if i < texts.len() {
                Some((escaped(texts[i as int]), i + 1))
            } else {
                None
            },
        },
        None => Some((Seq::empty(), i)),
    }
}

/// An element as XML text, without spaces between the tags, and the number
/// of texts of the table that are used behind it. An element without a
/// value and without children is an empty tag.
pub open spec fn element_text(n: NodeView, texts: Seq<Seq<char>>, i: nat) -> Option<
    (Seq<char>, nat),
>
    decreases n,
{
    match value_part(n, texts, i) {
        None => None,
        Some((text, j)) => match elements_text(n.children, texts, j) {
            None => None,
            Some((children, k)) => if n.value is None && n.children.len() == 0 {
                Some((open_tag(n) + "/>"@, k))
            } else {
                Some((open_tag(n) + ">"@ + text + children + "</"@ + n.key + ">"@, k))
            },
        },
    }
}

/// Elements as XML text, one after the other.
pub open spec fn elements_text(ns: Seq<NodeView>, texts: Seq<Seq<char>>, i: nat) -> Option<
    (Seq<char>, nat),
>
    decreases ns,
{
    if ns.len() == 0 {
        Some((Seq::empty(), i))
    } else {
        match elements_text(ns.drop_last(), texts, i) {
            None => None,
            Some((front, j)) => match element_text(ns.last(), texts, j) {
                None => None,
                Some((last, k)) => Some((front + last, k)),
            },
        }
    }
}

/// Where the first elements have no text, the elements have none.
pub proof fn lemma_elements_text_none(ns: Seq<NodeView>, texts: Seq<Seq<char>>, i: nat, k: int)
    requires
        0 <= k <= ns.len(),
        elements_text(ns.take(k), texts, i) is None,
    ensures
        elements_text(ns, texts, i) is None,
    decreases ns.len() - k,
{
    if k == ns.len() {
        assert(ns.take(k) =~= ns);
    } else {
        assert(ns.take(k + 1).drop_last() =~= ns.take(k));
        lemma_elements_text_none(ns, texts, i, k + 1);
    }
}

/// A document as XML text: the declaration with the encoding, then the
/// root. The table holds the texts of the values that have none of their
/// own, in document order, and must hold exactly as many.
pub open spec fn document_text(root: NodeView, encoding: EncodingType, texts: Seq<Seq<char>>) -> Option<
    Seq<char>,
> {
    match element_text(root, texts, 0) {
        Some((body, used)) => if used == texts.len() {
            Some("<?xml version=\"1.0\" encoding=\""@ + encoding.spec_name() + "\"?>"@ + body)
        } else {
            None
        },
        None => None,
    }
}

/// The values of a tree that have no text of their own, in document order.
pub open spec fn textless_values(n: NodeView) -> Seq<ValueView>
    decreases n,
{
    (match n.value {
        Some(v) => if spec_value_text(v) is None {
            seq![v]
        } else {
            Seq::empty()
        },
        None => Seq::empty(),
    }) + textless_in(n.children)
}

/// The values of trees that have no text of their own, in document order.
pub open spec fn textless_in(ns: Seq<NodeView>) -> Seq<ValueView>
    decreases ns,
{
    if ns.len() == 0 {
        Seq::empty()
    } else {
        textless_in(ns.drop_last()) + textless_values(ns.last())
    }
}

/// The texts as sequences of characters.
pub open spec fn texts_view(texts: Seq<String>) -> Seq<Seq<char>> {
    Seq::new(texts.len(), |i: int| texts[i]@)
}

/// The views of borrowed values.
pub open spec fn value_refs_view(values: Seq<&Value>) -> Seq<ValueView> {
    Seq::new(values.len(), |i: int| values[i]@)
}

/// Appends the attributes that say what a value is.
fn push_type_attributes(out: &mut String, v: &Value)
    ensures
        final(out)@ == old(out)@ + type_attributes(v@),
{
    proof {
        lemma_view_type(v);
    }
    out.append(" __type=\"");
    out.append(v.standard_type().name());
    out.append("\"");
    match v {
        Value::Array(_, values) => {
            out.append(" __count=\"");
            push_decimal(out, values.len() as u128);
            out.append("\"");
            assert(v@->Array_1.len() == values@.len());
        },
        Value::Binary(b) => {
            out.append(" __size=\"");
            push_decimal(out, b.len() as u128);
            out.append("\"");
        },
        _ => {},
    }
    assert(out@ =~= old(out)@ + type_attributes(v@));
}

/// Appends the attributes of an element.
fn push_attributes(out: &mut String, m: &IndexMap<String, String>)
    ensures
        final(out)@ == old(out)@ + attributes_text(attribute_entries(*m)),
{
    let ghost attrs = attribute_entries(*m);
    let n = attrs_len(m);
    let mut i: usize = 0;
    proof {
        assert(attrs.take(0) =~= Seq::<(Seq<char>, Seq<char>)>::empty());
    }
    while i < n
        invariant
            i <= n,
            n == attrs.len(),
            attrs == attribute_entries(*m),
            out@ == old(out)@ + attributes_text(attrs.take(i as int)),
        decreases n - i,
    {
        proof {
            assert(attrs.take(i + 1).drop_last() =~= attrs.take(i as int));
            assert(attrs.take(i + 1).last() == attrs[i as int]);
        }
        match attrs_get_index(m, i) {
            Some((k, v)) => {
                out.append(" ");
                out.append(k.as_str());
                out.append("=\"");
                push_escaped(out, v.as_str());
                out.append("\"");
                assert(out@ =~= old(out)@ + attributes_text(attrs.take(i + 1)));
            },
            None => {},
        }
        i += 1;
    }
    assert(attrs.take(i as int) =~= attrs);
}

/// Appends the start of the tag of an element.
fn push_open(out: &mut String, node: &Node)
    ensures
        final(out)@ == old(out)@ + open_tag(node@),
{
    out.append("<");
    out.append(node.key.as_str());
    match &node.value {
        Some(v) => {
            push_type_attributes(out, v);
        },
        None => {},
    }
    match &node.attributes {
        Some(m) => {
            push_attributes(out, m);
        },
        None => {
            assert(attributes_text(node@.attributes) =~= Seq::<char>::empty());
        },
    }
    assert(out@ =~= old(out)@ + open_tag(node@));
}

/// Appends the text of the value of an element, from the table where the
/// value has none of its own, and says whether there was a text.
fn push_value(out: &mut String, node: &Node, texts: &[String], i: &mut usize) -> (r: bool)
    requires
        *old(i) <= texts@.len(),
    ensures
        match value_part(node@, texts_view(texts@), *old(i) as nat) {
            Some((t, j)) => r && final(out)@ == old(out)@ + t && *final(i) == j,
            None => !r,
        },
        *final(i) <= texts@.len(),
{
    match &node.value {
        Some(v) => match v.to_string() {
            Some(t) => {
                push_escaped(out, t.as_str());
                true
            },
            None => {
                if *i < texts.len() {
                    push_escaped(out, texts[*i].as_str());
                    *i = *i + 1;
                    true
                } else {
                    false
                }
            },
        },
        None => {
            assert(out@ =~= old(out)@ + Seq::<char>::empty());
            true
        },
    }
}

/// Appends elements one after the other, and says whether every value had
/// a text.
fn push_elements(out: &mut String, nodes: &Vec<Node>, texts: &[String], i: &mut usize) -> (r: bool)
    requires
        *old(i) <= texts@.len(),
    ensures
        match elements_text(nodes_view(nodes@), texts_view(texts@), *old(i) as nat) {
            Some((t, j)) => r && final(out)@ == old(out)@ + t && *final(i) == j,
            None => !r,
        },
        *final(i) <= texts@.len(),
    decreases nodes,
{
    let ghost ns = nodes_view(nodes@);
    let ghost tv = texts_view(texts@);
    let ghost start = *i as nat;
    let mut k: usize = 0;
    proof {
        assert(ns.take(0) =~= Seq::<NodeView>::empty());
    }
    while k < nodes.len()
        invariant
            k <= nodes@.len(),
            ns == nodes_view(nodes@),
            tv == texts_view(texts@),
            start == *old(i) as nat,
            *i <= texts@.len(),
            elements_text(ns.take(k as int), tv, start) matches Some((t, j)) && out@ == old(out)@
                + t && *i == j,
        decreases nodes@.len() - k,
    {
        proof {
            assert(ns.take(k + 1).drop_last() =~= ns.take(k as int));
            assert(ns.take(k + 1).last() == nodes@[k as int]@);
        }
        let ghost j = *i as nat;
        if !push_element(out, &nodes[k], texts, i) {
            proof {
                assert(element_text(nodes@[k as int]@, tv, j) is None);
                assert(elements_text(ns.take(k + 1), tv, start) is None);
                lemma_elements_text_none(ns, tv, start, k + 1);
            }
            return false;
        }
        k += 1;
    }
    assert(ns.take(k as int) =~= ns);
    true
}

/// Appends an element, and says whether every value in it had a text.
pub fn push_element(out: &mut String, node: &Node, texts: &[String], i: &mut usize) -> (r: bool)
    requires
        *old(i) <= texts@.len(),
    ensures
        match element_text(node@, texts_view(texts@), *old(i) as nat) {
            Some((t, j)) => r && final(out)@ == old(out)@ + t && *final(i) == j,
            None => !r,
        },
        *final(i) <= texts@.len(),
    decreases node,
{
    let ghost view = node@;
    let ghost tv = texts_view(texts@);
    let ghost start = *i as nat;
    push_open(out, node);
    let no_children = match &node.children {
        Some(c) => c.len() == 0,
        None => true,
    };
    assert(no_children == (view.children.len() == 0));
    let no_value = node.value.is_none();
    assert(no_value == (view.value is None));
    if no_value && no_children {
        out.append("/>");
        assert(elements_text(view.children, tv, start) == Some((Seq::<char>::empty(), start)));
        assert(value_part(view, tv, start) == Some((Seq::<char>::empty(), start)));
        return true;
    }
    out.append(">");
    if !push_value(out, node, texts, i) {
        return false;
    }
    let ghost b = out@;
    let ghost mid = *i as nat;
    match &node.children {
        Some(children) => {
            assert(nodes_view(children@) =~= view.children);
            if !push_elements(out, children, texts, i) {
                return false;
            }
        },
        None => {
            assert(elements_text(view.children, tv, mid) == Some((Seq::<char>::empty(), mid)));
        },
    }
    let ghost c = out@;
    assert(c == b + elements_text(view.children, tv, mid).unwrap().0);
    out.append("</");
    out.append(node.key.as_str());
    out.append(">");
    assert(out@ =~= old(out)@ + (open_tag(view) + ">"@ + value_part(view, tv, start).unwrap().0
        + elements_text(view.children, tv, mid).unwrap().0 + "</"@ + view.key + ">"@));
    true
}

/// Lists the values of trees that have no text of their own.
fn collect_textless_in<'a>(nodes: &'a Vec<Node>, out: &mut Vec<&'a Value>)
    ensures
        value_refs_view(final(out)@) == value_refs_view(old(out)@) + textless_in(
            nodes_view(nodes@),
        ),
    decreases nodes,
{
    let ghost ns = nodes_view(nodes@);
    let mut k: usize = 0;
    proof {
        assert(ns.take(0) =~= Seq::<NodeView>::empty());
        assert(value_refs_view(out@) =~= value_refs_view(old(out)@) + textless_in(ns.take(0)));
    }
    while k < nodes.len()
        invariant
            k <= nodes@.len(),
            ns == nodes_view(nodes@),
            value_refs_view(out@) == value_refs_view(old(out)@) + textless_in(ns.take(k as int)),
        decreases nodes@.len() - k,
    {
        proof {
            assert(ns.take(k + 1).drop_last() =~= ns.take(k as int));
            assert(ns.take(k + 1).last() == nodes@[k as int]@);
        }
        collect_textless(&nodes[k], out);
        assert(value_refs_view(out@) =~= value_refs_view(old(out)@) + textless_in(ns.take(k + 1)));
        k += 1;
    }
    assert(ns.take(k as int) =~= ns);
}

/// Lists, behind what the list holds, the values of a tree that have no
/// text of their own, in document order: the caller makes their texts.
pub fn collect_textless<'a>(node: &'a Node, out: &mut Vec<&'a Value>)
    ensures
        value_refs_view(final(out)@) == value_refs_view(old(out)@) + textless_values(node@),
    decreases node,
{
    let ghost before = value_refs_view(out@);
    match &node.value {
        Some(v) => {
            if v.to_string().is_none() {
                out.push(v);
                assert(value_refs_view(out@) =~= before + seq![v@]);
            }
        },
        None => {},
    }
    let ghost mid = value_refs_view(out@);
    match &node.children {
        Some(children) => {
            assert(nodes_view(children@) =~= node@.children);
            collect_textless_in(children, out);
        },
        None => {
            assert(textless_in(node@.children) =~= Seq::<ValueView>::empty());
        },
    }
    assert(value_refs_view(out@) =~= before + textless_values(node@));
}

/// Writes a tree as a document in XML text, in the bytes of the encoding.
/// The table holds the texts of the values without a text of their own, as
/// `collect_textless` lists them. A table that is too short or too long is
/// reported as text that does not parse; text that the encoding cannot
/// write is an encoding error.
pub fn encode_text_with(root: &Node, encoding: EncodingType, texts: &[String]) -> (r: Result<
    Vec<u8>,
    KbinError,
>)
    ensures
        match document_text(root@, encoding, texts_view(texts@)) {
            None => r matches Err(KbinError::StringParse { node_type, text }) && node_type
                == StandardType::Float && text@.len() == 0,
            Some(t) => match encoding.spec_encode(t) {
                Some(b) => r matches Ok(v) && v@ == b,
                None => r matches Err(KbinError::EncodingError),
            },
        },
{
    let mut out = String::new();
    out.append("<?xml version=\"1.0\" encoding=\"");
    out.append(encoding.name());
    out.append("\"?>");
    let mut used: usize = 0;
    if !push_element(&mut out, root, texts, &mut used) || used != texts.len() {
        return Err(
            KbinError::StringParse { node_type: StandardType::Float, text: String::new() },
        );
    }
    assert(out@ =~= document_text(root@, encoding, texts_view(texts@)).unwrap());
    encoding.encode_bytes(out.as_str())
}

/// Writes a tree whose values all have a text of their own as a document
/// in XML text. A floating-point value has none and is reported as text
/// that does not parse.
pub fn encode_text(root: &Node, encoding: EncodingType) -> (r: Result<Vec<u8>, KbinError>)
    ensures
        match document_text(root@, encoding, Seq::empty()) {
            None => r matches Err(KbinError::StringParse { node_type, text }) && node_type
                == StandardType::Float && text@.len() == 0,
            Some(t) => match encoding.spec_encode(t) {
                Some(b) => r matches Ok(v) && v@ == b,
                None => r matches Err(KbinError::EncodingError),
            },
        },
{
    let texts: Vec<String> = Vec::new();
    assert(texts_view(texts@) =~= Seq::<Seq<char>>::empty());
    encode_text_with(root, encoding, texts.as_slice())
}

} // verus!

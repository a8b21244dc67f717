//! A tree as the events of a walk through it, in document order.
use vstd::prelude::*;
use indexmap::IndexMap;
use crate::node::{attribute_entries, attrs_get_index, attrs_len, nodes_view, Node};
use crate::value::{NodeView, Value, ValueView};
use crate::xml_events::pairs_view;

verus! {

/// One event of a walk through a tree.
#[derive(Debug, PartialEq)]
pub enum WalkEvent {
    /// A node is entered: its key and its attributes in their order.
    Enter { name: String, attrs: Vec<(String, String)> },
    /// The value of the node that was entered.
    Value(Value),
    /// The node is left.
    Leave,
}

pub enum WalkEventView {
    Enter { name: Seq<char>, attrs: Seq<(Seq<char>, Seq<char>)> },
    Value(ValueView),
    Leave,
}

impl View for WalkEvent {
    type V = WalkEventView;

    open spec fn view(&self) -> WalkEventView {
        match self {
            WalkEvent::Enter { name, attrs } => WalkEventView::Enter {
                name: name@,
                attrs: pairs_view(attrs@),
            },
            WalkEvent::Value(v) => WalkEventView::Value(v@),
            WalkEvent::Leave => WalkEventView::Leave,
        }
    }
}

/// The depth of the children of a node at depth `d`. The greatest depth
/// that the machine can count has no greater one.
pub open spec fn deeper(d: usize) -> usize {
    if d < usize::MAX {
        (d + 1) as usize
    } else {
        d
    }
}

/// The events of a walk through a tree whose root is at a depth: the node
/// is entered, its value comes if it has one, then the walks through its
/// children one level deeper, and the node is left.
pub open spec fn walk_events(n: NodeView, depth: usize) -> Seq<(usize, WalkEventView)>
    decreases n,
{
    seq![(depth, WalkEventView::Enter { name: n.key, attrs: n.attributes })] + (match n.value {
        Some(v) => seq![(depth, WalkEventView::Value(v))],
        None => Seq::empty(),
    }) + walks_events(n.children, deeper(depth)) + seq![(depth, WalkEventView::Leave)]
}

/// The events of the walks through trees, one after the other.
pub open spec fn walks_events(ns: Seq<NodeView>, depth: usize) -> Seq<(usize, WalkEventView)>
    decreases ns,
{
    if ns.len() == 0 {
        Seq::empty()
    } else {
        walks_events(ns.drop_last(), depth) + walk_events(ns.last(), depth)
    }
}

/// The events with their depths as the model has them.
pub open spec fn events_view(events: Seq<(usize, WalkEvent)>) -> Seq<(usize, WalkEventView)> {
    Seq::new(events.len(), |i: int| (events[i].0, events[i].1@))
}

/// The attributes of a map as pairs of texts.
fn attribute_pairs(m: &IndexMap<String, String>) -> (r: Vec<(String, String)>)
    ensures
        pairs_view(r@) == attribute_entries(*m),
{
    let n = attrs_len(m);
    let mut out: Vec<(String, String)> = Vec::new();
    let mut i: usize = 0;
    while i < n
        invariant
            i <= n,
            n == attribute_entries(*m).len(),
            out@.len() == i,
            forall|j: int|
                0 <= j < i ==> ((#[trigger] out@[j]).0@, out@[j].1@) == attribute_entries(*m)[j],
        decreases n - i,
    {
        match attrs_get_index(m, i) {
            Some((k, v)) => {
                out.push((k.clone(), v.clone()));
            },
            None => {},
        }
        i += 1;
    }
    assert(pairs_view(out@) =~= attribute_entries(*m));
    out
}

/// Appends the events of the walks through nodes.
fn walk_nodes(nodes: &Vec<Node>, depth: usize, out: &mut Vec<(usize, WalkEvent)>)
    ensures
        events_view(final(out)@) == events_view(old(out)@) + walks_events(
            nodes_view(nodes@),
            depth,
        ),
    decreases nodes,
{
    let ghost ns = nodes_view(nodes@);
    let mut i: usize = 0;
    proof {
        assert(ns.take(0) =~= Seq::<NodeView>::empty());
        assert(events_view(out@) =~= events_view(old(out)@) + walks_events(ns.take(0), depth));
    }
    while i < nodes.len()
        invariant
            i <= nodes@.len(),
            ns == nodes_view(nodes@),
            events_view(out@) == events_view(old(out)@) + walks_events(ns.take(i as int), depth),
        decreases nodes@.len() - i,
    {
        proof {
            assert(ns.take(i + 1).drop_last() =~= ns.take(i as int));
            assert(ns.take(i + 1).last() == nodes@[i as int]@);
        }
        nodes[i].walk_into(depth, out);
        assert(events_view(out@) =~= events_view(old(out)@) + walks_events(ns.take(i + 1), depth));
        i += 1;
    }
    assert(ns.take(i as int) =~= ns);
}

impl Node {
    /// Appends the events of a walk through the node at a depth.
    pub fn walk_into(&self, depth: usize, out: &mut Vec<(usize, WalkEvent)>)
        ensures
            events_view(final(out)@) == events_view(old(out)@) + walk_events(self@, depth),
        decreases self,
    {
        let ghost before = events_view(out@);
        let attrs = match &self.attributes {
            Some(m) => attribute_pairs(m),
            None => {
                let v: Vec<(String, String)> = Vec::new();
                assert(pairs_view(v@) =~= self@.attributes);
                v
            },
        };
        let enter = WalkEvent::Enter { name: self.key.clone(), attrs };
        out.push((depth, enter));
        assert(events_view(out@) =~= before + seq![
            (depth, WalkEventView::Enter { name: self@.key, attrs: self@.attributes }),
        ]);
        match &self.value {
            Some(v) => {
                let ghost a = events_view(out@);
                out.push((depth, WalkEvent::Value(v.clone())));
                assert(events_view(out@) =~= a + seq![(depth, WalkEventView::Value(v@))]);
            },
            None => {},
        }
        let ghost head = events_view(out@);
        let below = if depth < usize::MAX {
            depth + 1
        } else {
            depth
        };
        match &self.children {
            Some(children) => {
                assert(nodes_view(children@) =~= self@.children);
                walk_nodes(children, below, out);
            },
            None => {
                assert(walks_events(self@.children, below) =~= Seq::<
                    (usize, WalkEventView),
                >::empty());
            },
        }
        let ghost body = events_view(out@);
        out.push((depth, WalkEvent::Leave));
        assert(events_view(out@) =~= body + seq![(depth, WalkEventView::Leave)]);
        assert(events_view(out@) =~= before + walk_events(self@, depth));
    }

    /// The events of a walk through the tree, each with its depth; the
    /// root is at depth 0.
    pub fn walk(&self) -> (r: Vec<(usize, WalkEvent)>)
        ensures
            events_view(r@) == walk_events(self@, 0),
    {
        let mut out: Vec<(usize, WalkEvent)> = Vec::new();
        assert(events_view(out@) =~= Seq::<(usize, WalkEventView)>::empty());
        self.walk_into(0, &mut out);
        out
    }
}

} // verus!

//! The tree of declarations that a filter is applied to.

use vstd::prelude::*;

verus! {

/// What sort of declaration a node is.
#[derive(Clone, Copy, Debug, PartialEq, Eq, Structural)]
pub enum Kind {
    /// A function declaration.
    Function,
    /// A declaration that holds other declarations, such as a module.
    Container,
    /// Any other declaration.
    Other,
}

/// One declaration, with the declarations nested in it.
///
/// Only a `Container` is treated as having children: the `children` of any
/// other node are never looked at and never changed.
#[derive(Debug, PartialEq, Eq)]
pub struct Node {
    /// The host's identifier for this declaration.
    pub id: u64,
    /// The plain name; the root of a tree has the empty name.
    pub name: String,
    /// The markers attached to the declaration, in any order.
    pub markers: Vec<String>,
    /// The sort of declaration.
    pub kind: Kind,
    /// The nested declarations, in source order.
    pub children: Vec<Node>,
}

/// What a filter may read of a node: its own name, markers and kind.
pub ghost struct Facts {
    pub name: Seq<char>,
    pub markers: Set<Seq<char>>,
    pub kind: Kind,
}

/// The mathematical model of a [`Node`].
pub ghost struct NodeView {
    pub id: u64,
    pub name: Seq<char>,
    pub markers: Seq<Seq<char>>,
    pub kind: Kind,
    pub children: Seq<NodeView>,
}

impl NodeView {
    /// The node's own data, without its children.
    pub open spec fn facts(self) -> Facts {
        Facts { name: self.name, markers: self.markers.to_set(), kind: self.kind }
    }
}

/// Whether a node with these facts looks like the root of a tree: a
/// container with the empty name.
pub open spec fn is_root(facts: Facts) -> bool {
    facts.kind == Kind::Container && facts.name.len() == 0
}

/// Tells whether `node` looks like the root of a tree.
pub fn looks_like_root(node: &Node) -> (root: bool)
    ensures
        root == is_root(node@.facts()),
{
    node.kind == Kind::Container && node.name.as_str().is_empty()
}

/// The texts of `markers`, in the same order.
pub open spec fn marker_texts(markers: Seq<String>) -> Seq<Seq<char>> {
    markers.map_values(|m: String| m@)
}

/// The model of `node`: its own data, and the models of its children in order.
pub open spec fn node_view(node: Node) -> NodeView
    decreases node,
{
    NodeView {
        id: node.id,
        name: node.name@,
        markers: marker_texts(node.markers@),
        kind: node.kind,
        children: node.children@.map_values(
            |child: Node|
                if decreases_to!(node => child) {
                    node_view(child)
                } else {
                    arbitrary()
                },
        ),
    }
}

impl View for Node {
    type V = NodeView;

    open spec fn view(&self) -> NodeView {
        node_view(*self)
    }
}

/// The views of `nodes`, in the same order.
pub open spec fn views(nodes: Seq<Node>) -> Seq<NodeView> {
    Seq::new(nodes.len(), |i: int| nodes[i]@)
}

/// The view of a node lists the views of its children.
pub proof fn lemma_view_children(node: Node)
    ensures
        node@.children == views(node.children@),
{
    assert forall|i: int| 0 <= i < node.children@.len() implies node@.children[i]
        == node.children@[i]@ by {
        assert(decreases_to!(node.children => node.children[i]));
        assert(decreases_to!(node => node.children));
    }
    assert(node@.children =~= views(node.children@));
}

impl Clone for Node {
    /// A copy of the node and of all that is nested in it.
    fn clone(&self) -> (copy: Node)
        ensures
            copy@ == self@,
        decreases self,
    {
        let mut markers: Vec<String> = Vec::new();
        let mut i: usize = 0;
        while i < self.markers.len()
            invariant
                i <= self.markers.len(),
                markers@ == self.markers@.take(i as int),
            decreases self.markers.len() - i,
        {
            markers.push(self.markers[i].clone());
            assert(markers@ =~= self.markers@.take(i + 1));
            i += 1;
        }
        assert(markers@ =~= self.markers@);
        let mut children: Vec<Node> = Vec::new();
        let mut k: usize = 0;
        while k < self.children.len()
            invariant
                k <= self.children.len(),
                views(children@) == views(self.children@.take(k as int)),
            decreases self.children.len() - k,
        {
            assert(decreases_to!(self.children => self.children[k as int]));
            let ghost before = children@;
            let child = self.children[k].clone();
            children.push(child);
            assert(views(children@) =~= views(before).push(child@));
            assert(views(self.children@.take(k + 1)) =~= views(self.children@.take(k as int)).push(
                self.children@[k as int]@,
            ));
            k += 1;
        }
        assert(self.children@.take(k as int) =~= self.children@);
        let copy = Node { id: self.id, name: self.name.clone(), markers, kind: self.kind, children };
        proof {
            lemma_view_children(copy);
            lemma_view_children(*self);
        }
        copy
    }
}

} // verus!

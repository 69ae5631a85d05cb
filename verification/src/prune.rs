//! Removal of the declarations that a filter selects.

use vstd::prelude::*;
use crate::filter::CompiledPredicate;
use crate::node::{
    is_root, lemma_view_children, looks_like_root, views, Facts, Kind, Node, NodeView,
};

verus! {

/// A rule that decides, from a declaration's own data, whether it is removed.
pub trait Filter {
    /// Whether a declaration with these facts is removed.
    spec fn removes(&self, facts: Facts) -> bool;

    /// Returns `true` if `node` should be removed and `false` if it should be kept.
    fn apply(&self, node: &Node) -> (remove: bool)
        ensures
            remove == self.removes(node@.facts()),
    ;
}

/// `node` after pruning: a container keeps, in their order, the children that
/// `filter` does not remove, each pruned in turn; any other node is unchanged.
/// The filter is not asked about `node` itself.
pub open spec fn pruned<F: Filter>(filter: &F, node: NodeView) -> NodeView
    decreases node, 1int,
{
    if node.kind == Kind::Container {
        NodeView { children: pruned_list(filter, node.children), ..node }
    } else {
        node
    }
}

/// The nodes of `nodes` that `filter` does not remove, each pruned, in their order.
pub open spec fn pruned_list<F: Filter>(filter: &F, nodes: Seq<NodeView>) -> Seq<NodeView>
    decreases nodes, 0int,
{
    if nodes.len() == 0 {
        Seq::empty()
    } else {
        let front = pruned_list(filter, nodes.drop_last());
        if filter.removes(nodes.last().facts()) {
            front
        } else {
            front.push(pruned(filter, nodes.last()))
        }
    }
}

/// Pruning one more node extends the pruned list at its end, or leaves it as it is.
proof fn lemma_pruned_list_step<F: Filter>(filter: &F, nodes: Seq<Node>, i: int)
    requires
        0 <= i < nodes.len(),
    ensures
        pruned_list(filter, views(nodes.take(i + 1))) == if filter.removes(nodes[i]@.facts()) {
            pruned_list(filter, views(nodes.take(i)))
        } else {
            pruned_list(filter, views(nodes.take(i))).push(pruned(filter, nodes[i]@))
        },
{
    let longer = views(nodes.take(i + 1));
    assert(longer.drop_last() =~= views(nodes.take(i)));
    assert(longer.last() == nodes[i]@);
}

/// Prunes the children of `item` in place and leaves `item` itself standing.
pub fn modify_ast<F: Filter>(filter: &F, item: &mut Node)
    ensures
        final(item)@ == pruned(filter, old(item)@),
    decreases *old(item), 0int,
{
    if item.kind == Kind::Container {
        let mut children: Vec<Node> = Vec::new();
        std::mem::swap(&mut item.children, &mut children);
        let ghost before = children@;
        let mut kept: Vec<Node> = Vec::new();
        proof {
            lemma_view_children(*old(item));
            assert(views(kept@) =~= Seq::<NodeView>::empty());
            assert(views(before.take(0)) =~= Seq::<NodeView>::empty());
        }
        for child in it: children
            invariant
                it.seq() == before,
                before == old(item).children@,
                views(kept@) == pruned_list(filter, views(before.take(it.index() as int))),
        {
            let ghost sofar = kept@;
            let ghost entry = child;
            let mut child = child;
            proof {
                assert(decreases_to!(old(item).children => old(item).children[it.index() as int]));
                lemma_pruned_list_step(filter, before, it.index() as int);
            }
            let deleted = delete_child(filter, &mut child);
            if !deleted {
                kept.push(child);
                assert(views(kept@) =~= views(sofar).push(pruned(filter, entry@)));
            }
        }
        item.children = kept;
        proof {
            lemma_view_children(*item);
            assert(before.take(before.len() as int) =~= before);
        }
    }
}

/// One step of pruning a container: asks the filter about `child`, and prunes
/// below it where the filter keeps it. Returns `true` if the child is to be
/// removed; the child is then left as it was.
pub fn delete_child<F: Filter>(filter: &F, child: &mut Node) -> (deleted: bool)
    ensures
        deleted == filter.removes(old(child)@.facts()),
        deleted ==> *final(child) == *old(child),
        !deleted ==> final(child)@ == pruned(filter, old(child)@),
    decreases *old(child), 1int,
{
    if filter.apply(child) {
        return true;
    }
    modify_ast(filter, child);
    false
}

/// Deletes any items that should be deleted below `item`, and returns `true`
/// if `item` itself should be deleted; `item` is then left as it was.
///
/// A root is never to be deleted, whatever the filter says of it: the filter
/// is not asked, and the root is pruned.
pub fn delete_item<F: Filter>(filter: &F, item: &mut Node) -> (deleted: bool)
    ensures
        deleted == (!is_root(old(item)@.facts()) && filter.removes(old(item)@.facts())),
        deleted ==> *final(item) == *old(item),
        !deleted ==> final(item)@ == pruned(filter, old(item)@),
{
    if looks_like_root(item) {
        modify_ast(filter, item);
        false
    } else {
        delete_child(filter, item)
    }
}

/// Pruning leaves a node's own name, markers, kind and identifier as they were.
pub proof fn lemma_pruned_keeps_facts<F: Filter>(filter: &F, node: NodeView)
    ensures
        pruned(filter, node).facts() == node.facts(),
        pruned(filter, node).id == node.id,
{
}

/// What is left of a list: the nodes that the filter does not remove, in the
/// order in which they stood, each pruned.
pub proof fn lemma_pruned_list_is_filter<F: Filter>(filter: &F, nodes: Seq<NodeView>)
    ensures
        pruned_list(filter, nodes) == nodes.filter(
            |n: NodeView| !filter.removes(n.facts()),
        ).map_values(|n: NodeView| pruned(filter, n)),
    decreases nodes.len(),
{
    reveal(Seq::filter);
    let keep = |n: NodeView| !filter.removes(n.facts());
    let prune = |n: NodeView| pruned(filter, n);
    if nodes.len() == 0 {
        assert(pruned_list(filter, nodes) =~= nodes.filter(keep).map_values(prune));
    } else {
        lemma_pruned_list_is_filter(filter, nodes.drop_last());
        assert(pruned_list(filter, nodes) =~= nodes.filter(keep).map_values(prune));
    }
}

/// Each node that is left comes from a node of the list that the filter does
/// not remove.
pub proof fn lemma_survivor_source<F: Filter>(filter: &F, nodes: Seq<NodeView>, i: int) -> (a: int)
    requires
        0 <= i < pruned_list(filter, nodes).len(),
    ensures
        0 <= a < nodes.len(),
        !filter.removes(nodes[a].facts()),
        pruned_list(filter, nodes)[i] == pruned(filter, nodes[a]),
    decreases nodes.len(),
{
    let front = pruned_list(filter, nodes.drop_last());
    if i < front.len() {
        lemma_survivor_source(filter, nodes.drop_last(), i)
    } else {
        nodes.len() - 1
    }
}

/// Order is kept: of two nodes that are left, the one that stands first comes
/// from the node that stood first.
pub proof fn lemma_order_preserved<F: Filter>(filter: &F, nodes: Seq<NodeView>, i: int, j: int) -> (sources:
    (int, int))
    requires
        0 <= i < j < pruned_list(filter, nodes).len(),
    ensures
        0 <= sources.0 < sources.1 < nodes.len(),
        !filter.removes(nodes[sources.0].facts()),
        !filter.removes(nodes[sources.1].facts()),
        pruned_list(filter, nodes)[i] == pruned(filter, nodes[sources.0]),
        pruned_list(filter, nodes)[j] == pruned(filter, nodes[sources.1]),
    decreases nodes.len(),
{
    let front = pruned_list(filter, nodes.drop_last());
    if j < front.len() {
        lemma_order_preserved(filter, nodes.drop_last(), i, j)
    } else {
        let a = lemma_survivor_source(filter, nodes.drop_last(), i);
        (a, nodes.len() - 1)
    }
}

/// A filter that removes every node leaves nothing of a list.
pub proof fn lemma_remove_all<F: Filter>(filter: &F, nodes: Seq<NodeView>)
    requires
        forall|facts: Facts| filter.removes(facts),
    ensures
        pruned_list(filter, nodes) == Seq::<NodeView>::empty(),
    decreases nodes.len(),
{
    if nodes.len() > 0 {
        lemma_remove_all(filter, nodes.drop_last());
    }
}

/// A filter that removes no node leaves every tree as it is.
pub proof fn lemma_remove_none<F: Filter>(filter: &F, node: NodeView)
    requires
        forall|facts: Facts| !filter.removes(facts),
    ensures
        pruned(filter, node) == node,
    decreases node, 1int,
{
    if node.kind == Kind::Container {
        lemma_remove_none_list(filter, node.children);
    }
}

/// A filter that removes no node leaves every list of trees as it is.
pub proof fn lemma_remove_none_list<F: Filter>(filter: &F, nodes: Seq<NodeView>)
    requires
        forall|facts: Facts| !filter.removes(facts),
    ensures
        pruned_list(filter, nodes) == nodes,
    decreases nodes, 0int,
{
    if nodes.len() > 0 {
        lemma_remove_none_list(filter, nodes.drop_last());
        lemma_remove_none(filter, nodes.last());
        assert(nodes.drop_last().push(nodes.last()) =~= nodes);
    }
}

/// Pruning with `Always` leaves the root standing, with no children if it is
/// a container.
pub proof fn lemma_always_empties_root(root: NodeView)
    ensures
        pruned(&CompiledPredicate::Always, root) == if root.kind == Kind::Container {
            NodeView { children: Seq::empty(), ..root }
        } else {
            root
        },
{
    lemma_remove_all(&CompiledPredicate::Always, root.children);
}

/// Whether nothing is left to prune in `node`: below it, in containers all
/// the way down, no node stands that `filter` removes. The filter is not
/// asked about `node` itself.
pub open spec fn is_pruned<F: Filter>(filter: &F, node: NodeView) -> bool
    decreases node, 1int,
{
    node.kind == Kind::Container ==> all_pruned(filter, node.children)
}

/// Whether `filter` removes none of `nodes` and nothing is left to prune in them.
pub open spec fn all_pruned<F: Filter>(filter: &F, nodes: Seq<NodeView>) -> bool
    decreases nodes, 0int,
{
    nodes.len() > 0 ==> all_pruned(filter, nodes.drop_last()) && !filter.removes(
        nodes.last().facts(),
    ) && is_pruned(filter, nodes.last())
}

/// After pruning, no node that the filter removes is left below the root.
pub proof fn lemma_pruned_is_pruned<F: Filter>(filter: &F, node: NodeView)
    ensures
        is_pruned(filter, pruned(filter, node)),
    decreases node, 1int,
{
    if node.kind == Kind::Container {
        lemma_pruned_list_is_pruned(filter, node.children);
    }
}

/// After pruning, a list holds no node that the filter removes, at any depth.
pub proof fn lemma_pruned_list_is_pruned<F: Filter>(filter: &F, nodes: Seq<NodeView>)
    ensures
        all_pruned(filter, pruned_list(filter, nodes)),
    decreases nodes, 0int,
{
    if nodes.len() > 0 {
        let front = pruned_list(filter, nodes.drop_last());
        lemma_pruned_list_is_pruned(filter, nodes.drop_last());
        if !filter.removes(nodes.last().facts()) {
            let kept = pruned(filter, nodes.last());
            lemma_pruned_is_pruned(filter, nodes.last());
            assert(front.push(kept).drop_last() =~= front);
            assert(front.push(kept).last() == kept);
        }
    }
}

/// Pruning changes nothing in a tree in which nothing is left to prune.
pub proof fn lemma_pruned_stays<F: Filter>(filter: &F, node: NodeView)
    requires
        is_pruned(filter, node),
    ensures
        pruned(filter, node) == node,
    decreases node, 1int,
{
    if node.kind == Kind::Container {
        lemma_all_pruned_stay(filter, node.children);
    }
}

/// Pruning changes nothing in a list in which nothing is left to prune.
pub proof fn lemma_all_pruned_stay<F: Filter>(filter: &F, nodes: Seq<NodeView>)
    requires
        all_pruned(filter, nodes),
    ensures
        pruned_list(filter, nodes) == nodes,
    decreases nodes, 0int,
{
    if nodes.len() > 0 {
        lemma_all_pruned_stay(filter, nodes.drop_last());
        lemma_pruned_stays(filter, nodes.last());
        assert(nodes.drop_last().push(nodes.last()) =~= nodes);
    }
}

/// Pruning is idempotent: a second pass with the same filter changes nothing.
pub proof fn lemma_prune_idempotent<F: Filter>(filter: &F, node: NodeView)
    ensures
        pruned(filter, pruned(filter, node)) == pruned(filter, node),
{
    lemma_pruned_is_pruned(filter, node);
    lemma_pruned_stays(filter, pruned(filter, node));
}

} // verus!

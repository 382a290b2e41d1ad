//! Directory sizes computed from the sizes of the files below them.

use vstd::prelude::*;
use crate::models::{FileNode, sizes_sum, NodeType, tree_size, forest_size, lemma_forest_prefix_bounds, lemma_forest_step};

verus! {

/// `new` is `old` with the size of every directory replaced by the sum of
/// what its children take; files and symlinks, and every other field, are
/// left as they were.
pub open spec fn sizes_calculated(old: FileNode, new: FileNode) -> bool
    decreases old,
{
    if old.node_type == NodeType::Directory {
        &&& new.id == old.id
        &&& new.parent_id == old.parent_id
        &&& new.path == old.path
        &&& new.name == old.name
        &&& new.extension == old.extension
        &&& new.node_type == old.node_type
        &&& new.category == old.category
        &&& new.size == tree_size(old)
        &&& forest_sizes_calculated(old.children@, new.children@)
    } else {
        new == old
    }
}

/// `sizes_calculated` holds position by position between two sequences of trees.
pub open spec fn forest_sizes_calculated(olds: Seq<FileNode>, news: Seq<FileNode>) -> bool
    decreases olds,
{
    &&& olds.len() == news.len()
    &&& olds.len() > 0 ==> {
        &&& forest_sizes_calculated(olds.drop_last(), news.drop_last())
        &&& sizes_calculated(olds.last(), news.last())
    }
}

/// `forest_sizes_calculated` read position by position.
pub proof fn lemma_forest_sizes_calculated_at(olds: Seq<FileNode>, news: Seq<FileNode>, i: int)
    requires
        forest_sizes_calculated(olds, news),
        0 <= i < olds.len(),
    ensures
        sizes_calculated(olds[i], news[i]),
    decreases olds.len(),
{
    if i < olds.len() - 1 {
        lemma_forest_sizes_calculated_at(olds.drop_last(), news.drop_last(), i);
    }
}

/// Every directory of the tree records as its size the sum of its children's sizes.
pub open spec fn sizes_consistent(node: FileNode) -> bool
    decreases node,
{
    node.node_type == NodeType::Directory ==> {
        &&& node.size == sizes_sum(node.children@)
        &&& forest_consistent(node.children@)
    }
}

/// `sizes_consistent` holds of every tree of the sequence.
pub open spec fn forest_consistent(s: Seq<FileNode>) -> bool
    decreases s,
{
    s.len() > 0 ==> {
        &&& forest_consistent(s.drop_last())
        &&& sizes_consistent(s.last())
    }
}

/// After the calculation, the size recorded at the root of each tree is what
/// the tree takes.
proof fn lemma_forest_calculated_sizes(olds: Seq<FileNode>, news: Seq<FileNode>)
    requires
        forest_sizes_calculated(olds, news),
    ensures
        sizes_sum(news) == forest_size(olds),
        forest_consistent(news),
    decreases olds,
{
    if olds.len() > 0 {
        lemma_forest_calculated_sizes(olds.drop_last(), news.drop_last());
        lemma_calculated_consistent(olds.last(), news.last());
    }
}

/// The calculation leaves every directory with the sum of its children's
/// sizes, and the root with the size of the whole tree.
pub proof fn lemma_calculated_consistent(old: FileNode, new: FileNode)
    requires
        sizes_calculated(old, new),
    ensures
        sizes_consistent(new),
        new.size == tree_size(old),
    decreases old,
{
    if old.node_type == NodeType::Directory {
        lemma_forest_calculated_sizes(old.children@, new.children@);
    }
}

proof fn lemma_forest_consistent_size(s: Seq<FileNode>)
    requires
        forest_consistent(s),
    ensures
        forest_size(s) == sizes_sum(s),
    decreases s,
{
    if s.len() > 0 {
        lemma_forest_consistent_size(s.drop_last());
        lemma_consistent_size(s.last());
    }
}

/// In a tree whose sizes are consistent, the root already records the size
/// of the whole tree: calculating the sizes again returns the root's size.
pub proof fn lemma_consistent_size(node: FileNode)
    requires
        sizes_consistent(node),
    ensures
        tree_size(node) == node.size,
    decreases node,
{
    if node.node_type == NodeType::Directory {
        lemma_forest_consistent_size(node.children@);
    }
}

/// Calculating the sizes twice gives what calculating them once gave: the
/// same total, and the same size at the root.
pub proof fn lemma_calculate_idempotent(old: FileNode, once: FileNode, twice: FileNode)
    requires
        sizes_calculated(old, once),
        sizes_calculated(once, twice),
    ensures
        tree_size(once) == tree_size(old),
        twice.size == once.size,
        sizes_consistent(twice),
{
    lemma_calculated_consistent(old, once);
    lemma_consistent_size(once);
    lemma_calculated_consistent(once, twice);
}

pub struct SizeCalculator;

impl SizeCalculator {
    /// Sets the size of every directory of the tree to the sum of the sizes of
    /// the files and symlinks below it, and returns the size of the whole tree.
    pub fn calculate(node: &mut FileNode) -> (total: u64)
        requires
            tree_size(*old(node)) <= u64::MAX,
        ensures
            total == tree_size(*old(node)),
            sizes_calculated(*old(node), *final(node)),
            sizes_consistent(*final(node)),
            final(node).size == total,
        decreases *old(node),
    {
        if node.node_type != NodeType::Directory {
            // Files and symlinks keep their own size.
            assert(*node == *old(node));
            node.size
        } else {
            {
                let ghost old_children = old(node).children@;
                let mut total_size: u64 = 0;
                let n = node.children.len();
                let mut i: usize = 0;
                while i < n
                    invariant
                        n == node.children@.len(),
                        n == old_children.len(),
                        old_children == old(node).children@,
                        old(node).node_type == NodeType::Directory,
                        tree_size(*old(node)) <= u64::MAX,
                        0 <= i <= n,
                        total_size == forest_size(old_children.subrange(0, i as int)),
                        node.id == old(node).id,
                        node.parent_id == old(node).parent_id,
                        node.path == old(node).path,
                        node.name == old(node).name,
                        node.extension == old(node).extension,
                        node.node_type == old(node).node_type,
                        node.category == old(node).category,
                        forest_sizes_calculated(
                            old_children.subrange(0, i as int),
                            node.children@.subrange(0, i as int),
                        ),
                        forall|j: int| i <= j < n ==> node.children@[j] == old_children[j],
                    decreases n - i,
                {
                    proof {
                        lemma_forest_prefix_bounds(old_children, i as int);
                        lemma_forest_step(old_children, i as int);
                        assert(decreases_to!(*old(node) => old_children[i as int]));
                    }
                    let ghost before = node.children@;
                    let child_total = Self::calculate(&mut node.children[i]);
                    proof {
                        let k = i as int;
                        assert(node.children@.subrange(0, k) =~= before.subrange(0, k));
                        assert(old_children.subrange(0, k + 1).drop_last() =~= old_children.subrange(0, k));
                        assert(node.children@.subrange(0, k + 1).drop_last() =~= node.children@.subrange(0, k));
                    }
                    total_size = total_size + child_total;
                    i = i + 1;
                }
                proof {
                    assert(old_children.subrange(0, n as int) =~= old_children);
                    assert(node.children@.subrange(0, n as int) =~= node.children@);
                }
                node.size = total_size;
                proof {
                    lemma_calculated_consistent(*old(node), *node);
                }
                total_size
            }
        }
    }
}

} // verus!

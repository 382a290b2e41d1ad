//! The data model of a scanned directory tree and the spec functions that
//! describe it.

use vstd::prelude::*;

verus! {

/// The kind of an entry found on disk.
#[derive(Debug, Clone, Copy, PartialEq, Eq, Structural)]
pub enum NodeType {
    File,
    Directory,
    Symlink,
}

/// One entry of a scanned tree: a file, a symlink or a directory with its children.
#[derive(Debug)]
pub struct FileNode {
    pub id: Option<i64>,
    pub parent_id: Option<i64>,
    pub path: String,
    pub name: String,
    pub extension: Option<String>,
    pub size: u64,
    pub node_type: NodeType,
    pub children: Vec<FileNode>,
    pub category: Option<FileCategory>,
}

/// The share of a part in a whole, in percent, kept as an exact fraction:
/// the percentage is `numerator / denominator`.
#[derive(Debug, Clone, Copy, PartialEq, Eq, Structural)]
pub struct Percentage {
    pub numerator: u128,
    pub denominator: u64,
}

/// What one category of files takes in a tree.
#[derive(Debug, Clone, Copy, PartialEq, Eq, Structural)]
pub struct FileStatistic {
    pub category: FileCategory,
    pub file_count: usize,
    pub total_size: u64,
    pub percentage: Percentage,
}

/// The categories into which files are grouped.
#[derive(Debug, Clone, Copy, PartialEq, Eq, Hash, Structural)]
pub enum FileCategory {
    Video,
    Audio,
    Documents,
    Code,
    Archives,
    Images,
    NoExtension,
    Other,
}

/// The name under which a category is stored.
pub open spec fn category_name(category: FileCategory) -> Seq<char> {
    match category {
        FileCategory::Video => "video"@,
        FileCategory::Audio => "audio"@,
        FileCategory::Documents => "documents"@,
        FileCategory::Code => "code"@,
        FileCategory::Archives => "archives"@,
        FileCategory::Images => "images"@,
        FileCategory::NoExtension => "no_extension"@,
        FileCategory::Other => "other"@,
    }
}

impl FileCategory {
    pub fn as_str(&self) -> (s: &'static str)
        ensures
            s@ == category_name(*self),
    {
        match self {
            FileCategory::Video => "video",
            FileCategory::Audio => "audio",
            FileCategory::Documents => "documents",
            FileCategory::Code => "code",
            FileCategory::Archives => "archives",
            FileCategory::Images => "images",
            FileCategory::NoExtension => "no_extension",
            FileCategory::Other => "other",
        }
    }
}

/// A recorded scan of a directory or a disk.
#[derive(Debug, Clone)]
pub struct ScanSession {
    pub id: Option<i64>,
    pub root_path: String,
    pub started_at: String,
    pub finished_at: Option<String>,
    pub total_size: u64,
    pub files_count: u64,
    pub dirs_count: u64,
    pub status: String,
}

/// The name under which a node type is stored.
pub open spec fn node_type_name(node_type: NodeType) -> Seq<char> {
    match node_type {
        NodeType::File => "file"@,
        NodeType::Directory => "directory"@,
        NodeType::Symlink => "symlink"@,
    }
}

impl NodeType {
    pub fn as_str(&self) -> (s: &'static str)
        ensures
            s@ == node_type_name(*self),
    {
        match self {
            NodeType::File => "file",
            NodeType::Directory => "directory",
            NodeType::Symlink => "symlink",
        }
    }
}

// ---------------------------------------------------------------------------
// Measures of a tree
// ---------------------------------------------------------------------------

/// The number of nodes of a tree, the root included.
pub open spec fn node_count(node: FileNode) -> nat
    decreases node,
{
    1 + forest_count(node.children@)
}

/// The number of nodes of a sequence of trees.
pub open spec fn forest_count(s: Seq<FileNode>) -> nat
    decreases s,
{
    if s.len() == 0 {
        0
    } else {
        forest_count(s.drop_last()) + node_count(s.last())
    }
}

/// The size of a tree as the size calculation sees it: a file or a symlink
/// counts its own size, a directory the sum of what its children count.
pub open spec fn tree_size(node: FileNode) -> nat
    decreases node,
{
    if node.node_type == NodeType::Directory {
        forest_size(node.children@)
    } else {
        node.size as nat
    }
}

/// The sum of `tree_size` over a sequence of trees.
pub open spec fn forest_size(s: Seq<FileNode>) -> nat
    decreases s,
{
    if s.len() == 0 {
        0
    } else {
        forest_size(s.drop_last()) + tree_size(s.last())
    }
}

/// The nodes of a tree in pre-order: the node, then the nodes of each child in turn.
pub open spec fn preorder(node: FileNode) -> Seq<FileNode>
    decreases node,
{
    seq![node] + forest_preorder(node.children@)
}

/// The pre-order nodes of a sequence of trees, one tree after the other.
pub open spec fn forest_preorder(s: Seq<FileNode>) -> Seq<FileNode>
    decreases s,
{
    if s.len() == 0 {
        seq![]
    } else {
        forest_preorder(s.drop_last()) + preorder(s.last())
    }
}

/// The pre-order nodes of a tree that satisfy `keep`, in pre-order.
pub open spec fn preorder_where(node: FileNode, keep: spec_fn(FileNode) -> bool) -> Seq<FileNode>
    decreases node,
{
    (if keep(node) { seq![node] } else { seq![] }) + forest_preorder_where(node.children@, keep)
}

/// `preorder_where` over a sequence of trees, one tree after the other.
pub open spec fn forest_preorder_where(s: Seq<FileNode>, keep: spec_fn(FileNode) -> bool) -> Seq<
    FileNode,
>
    decreases s,
{
    if s.len() == 0 {
        seq![]
    } else {
        forest_preorder_where(s.drop_last(), keep) + preorder_where(s.last(), keep)
    }
}

/// The sum of the recorded `size` fields of a sequence of nodes.
pub open spec fn sizes_sum(s: Seq<FileNode>) -> nat
    decreases s,
{
    if s.len() == 0 {
        0
    } else {
        sizes_sum(s.drop_last()) + s.last().size as nat
    }
}

// ---------------------------------------------------------------------------
// Lemmas on the measures
// ---------------------------------------------------------------------------

/// The measure of a prefix of a forest is at most that of the forest, and one tree
/// of a forest is at most the forest.
pub proof fn lemma_forest_prefix_bounds(s: Seq<FileNode>, i: int)
    requires
        0 <= i <= s.len(),
    ensures
        forest_size(s.subrange(0, i)) <= forest_size(s),
        forest_count(s.subrange(0, i)) <= forest_count(s),
        i < s.len() ==> forest_size(s.subrange(0, i)) + tree_size(s[i]) <= forest_size(s),
        i < s.len() ==> forest_count(s.subrange(0, i)) + node_count(s[i]) <= forest_count(s),
    decreases s.len() - i,
{
    if i == s.len() {
        assert(s.subrange(0, i) =~= s);
    } else {
        lemma_forest_prefix_bounds(s, i + 1);
        assert(s.subrange(0, i + 1).drop_last() =~= s.subrange(0, i));
        assert(s.subrange(0, i + 1).last() == s[i]);
    }
}

/// One step of a left-to-right sum over a forest.
pub proof fn lemma_forest_step(s: Seq<FileNode>, i: int)
    requires
        0 <= i < s.len(),
    ensures
        forest_size(s.subrange(0, i + 1)) == forest_size(s.subrange(0, i)) + tree_size(s[i]),
        forest_count(s.subrange(0, i + 1)) == forest_count(s.subrange(0, i)) + node_count(s[i]),
        forest_preorder(s.subrange(0, i + 1)) == forest_preorder(s.subrange(0, i)) + preorder(s[i]),
{
    assert(s.subrange(0, i + 1).drop_last() =~= s.subrange(0, i));
    assert(s.subrange(0, i + 1).last() == s[i]);
}

/// One step of a left-to-right selection over a forest.
pub proof fn lemma_forest_where_step(s: Seq<FileNode>, i: int, keep: spec_fn(FileNode) -> bool)
    requires
        0 <= i < s.len(),
    ensures
        forest_preorder_where(s.subrange(0, i + 1), keep) == forest_preorder_where(
            s.subrange(0, i),
            keep,
        ) + preorder_where(s[i], keep),
{
    assert(s.subrange(0, i + 1).drop_last() =~= s.subrange(0, i));
    assert(s.subrange(0, i + 1).last() == s[i]);
}

/// A child of a tree has fewer nodes than the tree and no larger a size.
pub proof fn lemma_child_bounds(node: FileNode, i: int)
    requires
        0 <= i < node.children@.len(),
    ensures
        node_count(node.children@[i]) < node_count(node),
        node.node_type == NodeType::Directory ==> tree_size(node.children@[i]) <= tree_size(node),
{
    lemma_forest_prefix_bounds(node.children@, i);
}

pub proof fn lemma_sizes_sum_concat(a: Seq<FileNode>, b: Seq<FileNode>)
    ensures
        sizes_sum(a + b) == sizes_sum(a) + sizes_sum(b),
    decreases b.len(),
{
    if b.len() == 0 {
        assert(a + b =~= a);
    } else {
        lemma_sizes_sum_concat(a, b.drop_last());
        assert((a + b).drop_last() =~= a + b.drop_last());
    }
}

/// A selection of the nodes of a tree has at most as many nodes as the tree.
pub proof fn lemma_where_len(node: FileNode, keep: spec_fn(FileNode) -> bool)
    ensures
        preorder_where(node, keep).len() <= node_count(node),
    decreases node,
{
    lemma_forest_where_len(node.children@, keep);
}

pub proof fn lemma_forest_where_len(s: Seq<FileNode>, keep: spec_fn(FileNode) -> bool)
    ensures
        forest_preorder_where(s, keep).len() <= forest_count(s),
    decreases s,
{
    if s.len() > 0 {
        lemma_forest_where_len(s.drop_last(), keep);
        lemma_where_len(s.last(), keep);
    }
}

/// What a prefix of a forest selects, and then the next tree, is part of what the
/// whole forest selects.
pub proof fn lemma_forest_where_prefix(s: Seq<FileNode>, keep: spec_fn(FileNode) -> bool, i: int)
    requires
        0 <= i < s.len(),
    ensures
        sizes_sum(forest_preorder_where(s.subrange(0, i), keep)) + sizes_sum(
            preorder_where(s[i], keep),
        ) <= sizes_sum(forest_preorder_where(s, keep)),
        forest_preorder_where(s.subrange(0, i), keep).len() + preorder_where(s[i], keep).len()
            <= forest_preorder_where(s, keep).len(),
    decreases s.len() - i,
{
    lemma_forest_where_step(s, i, keep);
    lemma_sizes_sum_concat(
        forest_preorder_where(s.subrange(0, i), keep),
        preorder_where(s[i], keep),
    );
    if i + 1 == s.len() {
        assert(s.subrange(0, i + 1) =~= s);
    } else {
        lemma_forest_where_prefix(s, keep, i + 1);
        lemma_sizes_sum_concat(
            forest_preorder_where(s.subrange(0, i + 1), keep),
            preorder_where(s[i + 1], keep),
        );
    }
}

/// The selection of a tree is its pre-order with exactly the nodes that
/// satisfy `keep` kept, in the same order.
pub proof fn lemma_where_is_filter(node: FileNode, keep: spec_fn(FileNode) -> bool)
    ensures
        preorder_where(node, keep) == preorder(node).filter(keep),
    decreases node,
{
    lemma_forest_where_is_filter(node.children@, keep);
    let one: Seq<FileNode> = seq![node];
    reveal_with_fuel(Seq::filter, 2);
    assert(one.drop_last() =~= Seq::<FileNode>::empty());
    assert(one.filter(keep) =~= (if keep(node) { seq![node] } else { seq![] }));
    Seq::filter_distributes_over_add(one, forest_preorder(node.children@), keep);
}

/// `lemma_where_is_filter` over a sequence of trees.
pub proof fn lemma_forest_where_is_filter(s: Seq<FileNode>, keep: spec_fn(FileNode) -> bool)
    ensures
        forest_preorder_where(s, keep) == forest_preorder(s).filter(keep),
    decreases s,
{
    if s.len() == 0 {
        reveal_with_fuel(Seq::filter, 1);
        assert(forest_preorder(s).filter(keep) =~= Seq::<FileNode>::empty());
    } else {
        lemma_forest_where_is_filter(s.drop_last(), keep);
        lemma_where_is_filter(s.last(), keep);
        Seq::filter_distributes_over_add(forest_preorder(s.drop_last()), preorder(s.last()), keep);
    }
}

/// Every node that a selection holds satisfies `keep` and is a node of the
/// tree; every node of the tree that satisfies `keep` is in the selection.
pub proof fn lemma_where_members(node: FileNode, keep: spec_fn(FileNode) -> bool)
    ensures
        forall|i: int|
            0 <= i < preorder_where(node, keep).len() ==> keep(#[trigger] preorder_where(node, keep)[i])
                && preorder(node).contains(preorder_where(node, keep)[i]),
        forall|m: FileNode|
            #[trigger] preorder(node).contains(m) && keep(m) ==> preorder_where(node, keep).contains(m),
{
    lemma_where_is_filter(node, keep);
    let all = preorder(node);
    assert forall|i: int| 0 <= i < all.filter(keep).len() implies keep(#[trigger] all.filter(keep)[i])
        && all.contains(all.filter(keep)[i]) by {
        all.lemma_filter_pred(keep, i);
        assert(all.filter(keep).contains(all.filter(keep)[i]));
        all.lemma_filter_contains_rev(keep, all.filter(keep)[i]);
    }
    assert forall|m: FileNode| #[trigger] all.contains(m) && keep(m) implies all.filter(keep).contains(m) by {
        let j = choose|j: int| 0 <= j < all.len() && all[j] == m;
        all.lemma_filter_contains(keep, j);
    }
}

/// What a node selects is at least what its children select.
pub proof fn lemma_where_children(node: FileNode, keep: spec_fn(FileNode) -> bool)
    ensures
        sizes_sum(forest_preorder_where(node.children@, keep)) <= sizes_sum(
            preorder_where(node, keep),
        ),
        forest_preorder_where(node.children@, keep).len() <= preorder_where(node, keep).len(),
{
    let head: Seq<FileNode> = if keep(node) { seq![node] } else { seq![] };
    lemma_sizes_sum_concat(head, forest_preorder_where(node.children@, keep));
}

} // verus!

//! Selection of the nodes of a tree by extension or by size.

use vstd::prelude::*;
use crate::models::{
    FileNode, NodeType, preorder, preorder_where, forest_preorder_where, lemma_forest_where_step,
    lemma_where_members,
};
use crate::text::{normalized_extension, normalize_extension};

verus! {

/// The nodes that references point to.
pub open spec fn targets(s: Seq<&FileNode>) -> Seq<FileNode> {
    s.map_values(|n: &FileNode| *n)
}

/// A file whose extension, normalized, is `extension`.
pub open spec fn extension_matches(node: FileNode, extension: Seq<char>) -> bool {
    &&& node.node_type == NodeType::File
    &&& match node.extension {
        Some(e) => normalized_extension(e@) == extension,
        None => false,
    }
}

/// The selection by extension as a predicate.
pub open spec fn has_extension(extension: Seq<char>) -> spec_fn(FileNode) -> bool {
    |n: FileNode| extension_matches(n, extension)
}

/// The selection by size as a predicate.
pub open spec fn at_least(min_size: u64) -> spec_fn(FileNode) -> bool {
    |n: FileNode| n.size >= min_size
}

proof fn lemma_targets_push(s: Seq<&FileNode>, n: &FileNode)
    ensures
        targets(s.push(n)) == targets(s).push(*n),
{
    assert(targets(s.push(n)) =~= targets(s).push(*n));
}

pub struct FilterService;

impl FilterService {
    /// The files of the tree whose extension is `extension`, both compared
    /// without leading dots and in lower case, in pre-order.
    pub fn by_extension<'a>(root: &'a FileNode, extension: &str) -> (r: Vec<&'a FileNode>)
        ensures
            targets(r@) == preorder_where(*root, has_extension(normalized_extension(extension@))),
            forall|i: int|
                0 <= i < r@.len() ==> r@[i].node_type == NodeType::File && (r@[i].extension matches Some(
                    e,
                ) && normalized_extension(e@) == normalized_extension(extension@)) && preorder(
                    *root,
                ).contains(*r@[i]),
            forall|m: FileNode|
                preorder(*root).contains(m) && m.node_type == NodeType::File && (m.extension matches Some(
                    e,
                ) && normalized_extension(e@) == normalized_extension(extension@)) ==> targets(
                    r@,
                ).contains(m),
    {
        let mut result: Vec<&'a FileNode> = Vec::new();
        let normalized = normalize_extension(extension);
        Self::collect_by_extension(root, &normalized, &mut result);
        proof {
            assert(targets(Seq::<&FileNode>::empty()) =~= Seq::<FileNode>::empty());
            assert(Seq::<FileNode>::empty() + preorder_where(*root, has_extension(normalized@))
                =~= preorder_where(*root, has_extension(normalized@)));
            let keep = has_extension(normalized@);
            lemma_where_members(*root, keep);
            assert forall|i: int| 0 <= i < result@.len() implies result@[i].node_type == NodeType::File
                && (result@[i].extension matches Some(e) && normalized_extension(e@) == normalized@)
                && preorder(*root).contains(*result@[i]) by {
                assert(targets(result@)[i] == *result@[i]);
                assert(keep(preorder_where(*root, keep)[i]));
            }
            assert forall|m: FileNode| preorder(*root).contains(m) && m.node_type == NodeType::File && (
            m.extension matches Some(e) && normalized_extension(e@) == normalized@) implies targets(
                result@,
            ).contains(m) by {
                assert(keep(m));
            }
        }
        result
    }

    fn collect_by_extension<'a>(node: &'a FileNode, extension: &String, result: &mut Vec<&'a FileNode>)
        ensures
            targets(final(result)@) == targets(old(result)@) + preorder_where(
                *node,
                has_extension(extension@),
            ),
        decreases *node,
    {
        let ghost start = targets(result@);
        let ghost keep = has_extension(extension@);
        let mut matched = false;
        if node.node_type == NodeType::File {
            if let Some(node_extension) = &node.extension {
                let node_extension = normalize_extension(node_extension.as_str());
                if node_extension == *extension {
                    matched = true;
                }
            }
        }
        if matched {
            proof {
                lemma_targets_push(result@, node);
            }
            result.push(node);
        }
        let ghost head = targets(result@);
        proof {
            assert(head =~= start + (if keep(*node) { seq![*node] } else { Seq::<FileNode>::empty() }));
        }
        let n = node.children.len();
        let mut i: usize = 0;
        while i < n
            invariant
                n == node.children@.len(),
                0 <= i <= n,
                targets(result@) == head + forest_preorder_where(
                    node.children@.subrange(0, i as int),
                    keep,
                ),
                keep == has_extension(extension@),
            decreases n - i,
        {
            proof {
                lemma_forest_where_step(node.children@, i as int, keep);
                assert(decreases_to!(*node => node.children@[i as int]));
            }
            Self::collect_by_extension(&node.children[i], extension, result);
            i = i + 1;
        }
        proof {
            assert(node.children@.subrange(0, n as int) =~= node.children@);
        }
    }

    /// The nodes of the tree, directories included, whose size is at least
    /// `min_size`, in pre-order.
    pub fn by_min_size<'a>(root: &'a FileNode, min_size: u64) -> (r: Vec<&'a FileNode>)
        ensures
            targets(r@) == preorder_where(*root, at_least(min_size)),
            forall|i: int|
                0 <= i < r@.len() ==> r@[i].size >= min_size && preorder(*root).contains(*r@[i]),
            forall|m: FileNode|
                preorder(*root).contains(m) && m.size >= min_size ==> targets(r@).contains(m),
    {
        let mut result: Vec<&'a FileNode> = Vec::new();
        Self::collect_by_min_size(root, min_size, &mut result);
        proof {
            assert(targets(Seq::<&FileNode>::empty()) =~= Seq::<FileNode>::empty());
            assert(Seq::<FileNode>::empty() + preorder_where(*root, at_least(min_size))
                =~= preorder_where(*root, at_least(min_size)));
            let keep = at_least(min_size);
            lemma_where_members(*root, keep);
            assert forall|i: int| 0 <= i < result@.len() implies result@[i].size >= min_size
                && preorder(*root).contains(*result@[i]) by {
                assert(targets(result@)[i] == *result@[i]);
                assert(keep(preorder_where(*root, keep)[i]));
            }
            assert forall|m: FileNode| preorder(*root).contains(m) && m.size >= min_size implies targets(
                result@,
            ).contains(m) by {
                assert(keep(m));
            }
        }
        result
    }

    fn collect_by_min_size<'a>(node: &'a FileNode, min_size: u64, result: &mut Vec<&'a FileNode>)
        ensures
            targets(final(result)@) == targets(old(result)@) + preorder_where(
                *node,
                at_least(min_size),
            ),
        decreases *node,
    {
        let ghost start = targets(result@);
        let ghost keep = at_least(min_size);
        if node.size >= min_size {
            proof {
                lemma_targets_push(result@, node);
            }
            result.push(node);
        }
        let ghost head = targets(result@);
        proof {
            assert(head =~= start + (if keep(*node) { seq![*node] } else { Seq::<FileNode>::empty() }));
        }
        let n = node.children.len();
        let mut i: usize = 0;
        while i < n
            invariant
                n == node.children@.len(),
                0 <= i <= n,
                targets(result@) == head + forest_preorder_where(
                    node.children@.subrange(0, i as int),
                    keep,
                ),
                keep == at_least(min_size),
            decreases n - i,
        {
            proof {
                lemma_forest_where_step(node.children@, i as int, keep);
                assert(decreases_to!(*node => node.children@[i as int]));
            }
            Self::collect_by_min_size(&node.children[i], min_size, result);
            i = i + 1;
        }
        proof {
            assert(node.children@.subrange(0, n as int) =~= node.children@);
        }
    }
}

} // verus!

//! Operations of the tree view on the scanned tree: the visible rows, the
//! recursive sort, the removal of a deleted path and the node counts.

use vstd::prelude::*;
use crate::models::{
    FileNode, NodeType, FileCategory, node_count, forest_count, tree_size, forest_size,
    preorder_where, forest_preorder_where, sizes_sum, lemma_child_bounds, lemma_sizes_sum_concat,
    lemma_where_len, lemma_forest_where_prefix, lemma_forest_where_step, lemma_forest_prefix_bounds,
    lemma_forest_step, preorder, forest_preorder,
};
use crate::size_calculator::{sizes_calculated, forest_sizes_calculated};
use crate::tui::app::{TreeRow, row_of, SortMode};
use crate::sort_service::{
    SortService, KeyView, insert_sorted, sort_seq, name_order, size_order, type_order,
    lemma_sort_seq_elements,
};
use crate::stat_services::statistics_service::{
    file_in, category_files, categories_total, files_total, category_by_rank, cat_size,
    effective_category, effective_category_of, category_by_rank_exec, lemma_categories_total_monotone,
};

verus! {

/// The set of paths that a list of strings holds.
pub open spec fn path_set(v: Seq<String>) -> Set<Seq<char>> {
    Set::new(|p: Seq<char>| exists|i: int| 0 <= i < v.len() && (#[trigger] v[i])@ == p)
}

/// Whether `paths` holds `path`.
pub fn contains_path(paths: &Vec<String>, path: &String) -> (r: bool)
    ensures
        r == path_set(paths@).contains(path@),
{
    let mut i: usize = 0;
    while i < paths.len()
        invariant
            0 <= i <= paths@.len(),
            forall|k: int| 0 <= k < i ==> (#[trigger] paths@[k])@ != path@,
        decreases paths@.len() - i,
    {
        if paths[i] == *path {
            proof {
                assert(path_set(paths@).contains(path@)) by {
                    assert(paths@[i as int]@ == path@);
                }
            }
            return true;
        }
        i = i + 1;
    }
    false
}

/// The rows that show a tree at `depth`: the node, then, for a directory that
/// is expanded, the rows of its children one level deeper.
pub open spec fn visible_rows(node: FileNode, depth: int, expanded: Set<Seq<char>>) -> Seq<TreeRow>
    decreases node,
{
    seq![row_of(node, depth, expanded.contains(node.path@))] + if node.node_type
        == NodeType::Directory && expanded.contains(node.path@) {
        forest_visible_rows(node.children@, depth + 1, expanded)
    } else {
        Seq::empty()
    }
}

/// `visible_rows` of a sequence of trees, one after the other.
pub open spec fn forest_visible_rows(s: Seq<FileNode>, depth: int, expanded: Set<Seq<char>>) -> Seq<
    TreeRow,
>
    decreases s,
{
    if s.len() == 0 {
        Seq::empty()
    } else {
        forest_visible_rows(s.drop_last(), depth, expanded) + visible_rows(s.last(), depth, expanded)
    }
}

/// Appends the rows that show `node` at `depth` to `rows`.
pub fn collect_visible_rows(
    node: &FileNode,
    depth: usize,
    expanded_paths: &Vec<String>,
    rows: &mut Vec<TreeRow>,
)
    requires
        depth + node_count(*node) <= usize::MAX,
    ensures
        final(rows)@ == old(rows)@ + visible_rows(*node, depth as int, path_set(expanded_paths@)),
    decreases *node,
{
    let ghost expanded = path_set(expanded_paths@);
    let is_expanded = contains_path(expanded_paths, &node.path);
    rows.push(TreeRow::from_node(node, depth, is_expanded));
    let ghost head = rows@;
    if node.node_type == NodeType::Directory && is_expanded {
        let n = node.children.len();
        let mut i: usize = 0;
        while i < n
            invariant
                n == node.children@.len(),
                0 <= i <= n,
                depth + node_count(*node) <= usize::MAX,
                expanded == path_set(expanded_paths@),
                rows@ == head + forest_visible_rows(
                    node.children@.subrange(0, i as int),
                    depth + 1,
                    expanded,
                ),
            decreases n - i,
        {
            proof {
                lemma_child_bounds(*node, i as int);
                assert(decreases_to!(*node => node.children@[i as int]));
                let s = node.children@;
                assert(s.subrange(0, i + 1).drop_last() =~= s.subrange(0, i as int));
                assert(s.subrange(0, i + 1).last() == s[i as int]);
            }
            collect_visible_rows(&node.children[i], depth + 1, expanded_paths, rows);
            i = i + 1;
        }
        proof {
            assert(node.children@.subrange(0, n as int) =~= node.children@);
        }
    } else {
        proof {
            assert(rows@ =~= head + Seq::<TreeRow>::empty());
        }
    }
}

/// Every field of the two nodes but their children agrees.
pub open spec fn same_fields(a: FileNode, b: FileNode) -> bool {
    &&& a.id == b.id
    &&& a.parent_id == b.parent_id
    &&& a.path == b.path
    &&& a.name == b.name
    &&& a.extension == b.extension
    &&& a.size == b.size
    &&& a.node_type == b.node_type
    &&& a.category == b.category
}

/// The key function of a sort mode.
pub open spec fn mode_order(mode: SortMode) -> spec_fn(FileNode) -> KeyView {
    match mode {
        SortMode::Name => name_order(),
        SortMode::Size => size_order(),
        SortMode::Type => type_order(),
    }
}

/// `new` is `old` with the children of every node stably sorted by `mode`.
pub open spec fn tree_sorted(old: FileNode, new: FileNode, mode: SortMode) -> bool
    decreases new,
{
    &&& same_fields(old, new)
    &&& forest_tree_sorted(sort_seq(old.children@, mode_order(mode)), new.children@, mode)
}

/// `tree_sorted` position by position.
pub open spec fn forest_tree_sorted(olds: Seq<FileNode>, news: Seq<FileNode>, mode: SortMode) -> bool
    decreases news,
{
    &&& olds.len() == news.len()
    &&& news.len() > 0 ==> {
        &&& forest_tree_sorted(olds.drop_last(), news.drop_last(), mode)
        &&& tree_sorted(olds.last(), news.last(), mode)
    }
}

/// Sorts the children of every node of the tree by `mode`.
pub fn sort_node_recursive(node: &mut FileNode, mode: SortMode)
    ensures
        tree_sorted(*old(node), *final(node), mode),
    decreases *old(node),
{
    let mut children: Vec<FileNode> = Vec::new();
    std::mem::swap(&mut children, &mut node.children);
    let sorted = match mode {
        SortMode::Name => SortService::by_name(children),
        SortMode::Size => SortService::by_size(children),
        SortMode::Type => SortService::by_type(children),
    };
    node.children = sorted;
    let ghost olds = sort_seq(old(node).children@, mode_order(mode));
    proof {
        lemma_sort_seq_elements(old(node).children@, mode_order(mode));
    }
    let n = node.children.len();
    let mut i: usize = 0;
    while i < n
        invariant
            n == node.children@.len(),
            n == olds.len(),
            0 <= i <= n,
            olds == sort_seq(old(node).children@, mode_order(mode)),
            forall|k: int|
                #![trigger olds[k]]
                0 <= k < olds.len() ==> exists|j: int|
                    0 <= j < old(node).children@.len() && olds[k] == #[trigger] old(node).children@[j],
            same_fields(*old(node), *node),
            forall_tree_sorted_prefix(olds, node.children@, i as int, mode),
            forall|k: int| i <= k < n ==> node.children@[k] == olds[k],
        decreases n - i,
    {
        proof {
            let j = choose|j: int| 0 <= j < old(node).children@.len() && olds[i as int] == #[trigger] old(node).children@[j];
            assert(decreases_to!(*old(node) => old(node).children@[j]));
        }
        let ghost before = node.children@;
        sort_node_recursive(&mut node.children[i], mode);
        proof {
            let k = i as int;
            assert(node.children@.subrange(0, k) =~= before.subrange(0, k));
            assert(olds.subrange(0, k + 1).drop_last() =~= olds.subrange(0, k));
            assert(node.children@.subrange(0, k + 1).drop_last() =~= node.children@.subrange(0, k));
        }
        i = i + 1;
    }
    proof {
        assert(olds.subrange(0, n as int) =~= olds);
        assert(node.children@.subrange(0, n as int) =~= node.children@);
    }
}

/// `forest_tree_sorted` on the first `i` positions.
pub open spec fn forall_tree_sorted_prefix(
    olds: Seq<FileNode>,
    news: Seq<FileNode>,
    i: int,
    mode: SortMode,
) -> bool {
    forest_tree_sorted(olds.subrange(0, i), news.subrange(0, i), mode)
}

// ---------------------------------------------------------------------------
// What sorting keeps
// ---------------------------------------------------------------------------

proof fn lemma_insert_sorted_measures(
    t: Seq<FileNode>,
    x: FileNode,
    key_of: spec_fn(FileNode) -> KeyView,
    keep: spec_fn(FileNode) -> bool,
)
    ensures
        forest_size(insert_sorted(t, x, key_of)) == forest_size(t) + tree_size(x),
        forest_count(insert_sorted(t, x, key_of)) == forest_count(t) + node_count(x),
        sizes_sum(forest_preorder_where(insert_sorted(t, x, key_of), keep)) == sizes_sum(
            forest_preorder_where(t, keep),
        ) + sizes_sum(preorder_where(x, keep)),
        forest_preorder_where(insert_sorted(t, x, key_of), keep).len() == forest_preorder_where(
            t,
            keep,
        ).len() + preorder_where(x, keep).len(),
    decreases t.len(),
{
    let r = insert_sorted(t, x, key_of);
    if t.len() == 0 || !key_less_spec(key_of(x), key_of(t.last())) {
        assert(r.drop_last() =~= t);
        lemma_sizes_sum_concat(forest_preorder_where(t, keep), preorder_where(x, keep));
    } else {
        let u = t.drop_last();
        lemma_insert_sorted_measures(u, x, key_of, keep);
        let ru = insert_sorted(u, x, key_of);
        assert(r.drop_last() =~= ru);
        lemma_sizes_sum_concat(forest_preorder_where(ru, keep), preorder_where(t.last(), keep));
        lemma_sizes_sum_concat(forest_preorder_where(u, keep), preorder_where(t.last(), keep));
    }
}

spec fn key_less_spec(a: KeyView, b: KeyView) -> bool {
    crate::sort_service::key_less(a, b)
}

proof fn lemma_sort_seq_measures(
    s: Seq<FileNode>,
    key_of: spec_fn(FileNode) -> KeyView,
    keep: spec_fn(FileNode) -> bool,
)
    ensures
        forest_size(sort_seq(s, key_of)) == forest_size(s),
        forest_count(sort_seq(s, key_of)) == forest_count(s),
        sizes_sum(forest_preorder_where(sort_seq(s, key_of), keep)) == sizes_sum(
            forest_preorder_where(s, keep),
        ),
        forest_preorder_where(sort_seq(s, key_of), keep).len() == forest_preorder_where(
            s,
            keep,
        ).len(),
    decreases s.len(),
{
    if s.len() > 0 {
        let u = s.drop_last();
        lemma_sort_seq_measures(u, key_of, keep);
        lemma_insert_sorted_measures(sort_seq(u, key_of), s.last(), key_of, keep);
        lemma_sizes_sum_concat(forest_preorder_where(u, keep), preorder_where(s.last(), keep));
    }
}

/// Sorting a tree keeps its size, its number of nodes, and the files of each category.
pub proof fn lemma_tree_sorted_measures(old: FileNode, new: FileNode, mode: SortMode, c: crate::models::FileCategory)
    requires
        tree_sorted(old, new, mode),
    ensures
        tree_size(new) == tree_size(old),
        node_count(new) == node_count(old),
        sizes_sum(category_files(new, c)) == sizes_sum(category_files(old, c)),
        category_files(new, c).len() == category_files(old, c).len(),
    decreases new,
{
    let olds = sort_seq(old.children@, mode_order(mode));
    let keep = file_in(c);
    lemma_forest_tree_sorted_measures(olds, new.children@, mode, c);
    lemma_sort_seq_measures(old.children@, mode_order(mode), keep);
    let h_old: Seq<FileNode> = if keep(old) { seq![old] } else { Seq::empty() };
    let h_new: Seq<FileNode> = if keep(new) { seq![new] } else { Seq::empty() };
    assert(keep(old) == keep(new));
    assert(sizes_sum(Seq::<FileNode>::empty()) == 0);
    if keep(old) {
        assert(h_old.drop_last() =~= Seq::<FileNode>::empty());
        assert(h_new.drop_last() =~= Seq::<FileNode>::empty());
    }
    assert(sizes_sum(h_old) == sizes_sum(h_new));
    lemma_sizes_sum_concat(h_old, forest_preorder_where(old.children@, keep));
    lemma_sizes_sum_concat(h_new, forest_preorder_where(new.children@, keep));
}

proof fn lemma_forest_tree_sorted_measures(
    olds: Seq<FileNode>,
    news: Seq<FileNode>,
    mode: SortMode,
    c: crate::models::FileCategory,
)
    requires
        forest_tree_sorted(olds, news, mode),
    ensures
        forest_size(news) == forest_size(olds),
        forest_count(news) == forest_count(olds),
        sizes_sum(forest_preorder_where(news, file_in(c))) == sizes_sum(
            forest_preorder_where(olds, file_in(c)),
        ),
        forest_preorder_where(news, file_in(c)).len() == forest_preorder_where(olds, file_in(c)).len(),
    decreases news,
{
    if news.len() > 0 {
        lemma_forest_tree_sorted_measures(olds.drop_last(), news.drop_last(), mode, c);
        lemma_tree_sorted_measures(olds.last(), news.last(), mode, c);
        let keep = file_in(c);
        lemma_sizes_sum_concat(forest_preorder_where(olds.drop_last(), keep), preorder_where(olds.last(), keep));
        lemma_sizes_sum_concat(forest_preorder_where(news.drop_last(), keep), preorder_where(news.last(), keep));
    }
}

// ---------------------------------------------------------------------------
// Removal of a deleted path
// ---------------------------------------------------------------------------

/// One of the trees of `s` has the path `t` at its root.
pub open spec fn has_child_with_path(s: Seq<FileNode>, t: Seq<char>) -> bool {
    exists|i: int| 0 <= i < s.len() && (#[trigger] s[i]).path@ == t
}

/// `s` without the trees whose root has the path `t`, the others in order.
pub open spec fn without_path(s: Seq<FileNode>, t: Seq<char>) -> Seq<FileNode>
    decreases s.len(),
{
    if s.len() == 0 {
        Seq::empty()
    } else if s.last().path@ == t {
        without_path(s.drop_last(), t)
    } else {
        without_path(s.drop_last(), t).push(s.last())
    }
}

/// Some node strictly below `node` has the path `t`.
pub open spec fn found_below(node: FileNode, t: Seq<char>) -> bool
    decreases node,
{
    forest_found(node.children@, t)
}

/// Some node of the trees of `s`, a root included, has the path `t`.
pub open spec fn forest_found(s: Seq<FileNode>, t: Seq<char>) -> bool
    decreases s,
{
    s.len() > 0 && (forest_found(s.drop_last(), t) || s.last().path@ == t || found_below(s.last(), t))
}

/// `new` is `old` after the removal of path `t` below it: where some children
/// of a node have the path, they all go; otherwise the first child under which
/// the path occurs has it removed, and the children after it stay as they were.
pub open spec fn path_removed(old: FileNode, new: FileNode, t: Seq<char>) -> bool
    decreases old,
{
    &&& same_fields(old, new)
    &&& if has_child_with_path(old.children@, t) {
        new.children@ == without_path(old.children@, t)
    } else {
        forest_path_removed(old.children@, new.children@, t)
    }
}

/// `path_removed` over a sequence of trees whose roots do not have the path.
pub open spec fn forest_path_removed(olds: Seq<FileNode>, news: Seq<FileNode>, t: Seq<char>) -> bool
    decreases olds,
{
    &&& olds.len() == news.len()
    &&& olds.len() > 0 ==> {
        &&& forest_path_removed(olds.drop_last(), news.drop_last(), t)
        &&& if forest_found(olds.drop_last(), t) {
            news.last() == olds.last()
        } else {
            path_removed(olds.last(), news.last(), t)
        }
    }
}

proof fn lemma_forest_found_at(s: Seq<FileNode>, t: Seq<char>, i: int)
    requires
        0 <= i < s.len(),
        s[i].path@ == t || found_below(s[i], t),
    ensures
        forest_found(s, t),
    decreases s.len(),
{
    if i < s.len() - 1 {
        lemma_forest_found_at(s.drop_last(), t, i);
    }
}

proof fn lemma_forest_found_prefix(s: Seq<FileNode>, t: Seq<char>, k: int)
    requires
        0 <= k <= s.len(),
        forest_found(s.subrange(0, k), t),
    ensures
        forest_found(s, t),
    decreases s.len() - k,
{
    if k < s.len() {
        assert(s.subrange(0, k + 1).drop_last() =~= s.subrange(0, k));
        lemma_forest_found_prefix(s, t, k + 1);
    } else {
        assert(s.subrange(0, k) =~= s);
    }
}

proof fn lemma_forest_removed_extend(olds: Seq<FileNode>, news: Seq<FileNode>, t: Seq<char>, k: int)
    requires
        0 <= k <= olds.len(),
        olds.len() == news.len(),
        forest_path_removed(olds.subrange(0, k), news.subrange(0, k), t),
        k > 0 ==> forest_found(olds.subrange(0, k), t),
        forall|j: int| k <= j < olds.len() ==> news[j] == olds[j],
        k == 0 ==> olds.len() == 0,
    ensures
        forest_path_removed(olds, news, t),
    decreases olds.len() - k,
{
    if k == olds.len() {
        assert(olds.subrange(0, k) =~= olds);
        assert(news.subrange(0, k) =~= news);
    } else {
        assert(olds.subrange(0, k + 1).drop_last() =~= olds.subrange(0, k));
        assert(news.subrange(0, k + 1).drop_last() =~= news.subrange(0, k));
        lemma_forest_found_prefix(olds.subrange(0, k + 1), t, k);
        lemma_forest_removed_extend(olds, news, t, k + 1);
    }
}

/// Whether a root of `s` has the path `t`.
fn child_with_path(s: &Vec<FileNode>, t: &String) -> (r: bool)
    ensures
        r == has_child_with_path(s@, t@),
{
    let mut i: usize = 0;
    while i < s.len()
        invariant
            0 <= i <= s@.len(),
            forall|k: int| 0 <= k < i ==> (#[trigger] s@[k]).path@ != t@,
        decreases s@.len() - i,
    {
        if s[i].path == *t {
            proof {
                assert(s@[i as int].path@ == t@);
            }
            return true;
        }
        i = i + 1;
    }
    false
}

/// `s` without the trees whose root has the path `t`.
fn keep_other_paths(s: Vec<FileNode>, t: &String) -> (r: Vec<FileNode>)
    ensures
        r@ == without_path(s@, t@),
{
    let ghost input = s@;
    let n = s.len();
    let mut rest = s;
    let mut kept: Vec<FileNode> = Vec::new();
    let mut i: usize = 0;
    while i < n
        invariant
            n == input.len(),
            0 <= i <= n,
            rest@ == input.subrange(i as int, n as int),
            kept@ == without_path(input.subrange(0, i as int), t@),
        decreases n - i,
    {
        let child = rest.remove(0);
        proof {
            assert(rest@ =~= input.subrange(i + 1, n as int));
            assert(input.subrange(0, i + 1).drop_last() =~= input.subrange(0, i as int));
            assert(input.subrange(0, i + 1).last() == child);
        }
        if child.path != *t {
            kept.push(child);
        }
        i = i + 1;
    }
    proof {
        assert(input.subrange(0, n as int) =~= input);
    }
    kept
}

/// Removes the nodes with path `target_path` from the tree below `node`: all
/// the children that have it if there are any, else from the first child under
/// which it occurs. Returns whether anything was removed.
pub fn remove_node_by_path(node: &mut FileNode, target_path: &String) -> (removed: bool)
    ensures
        removed == found_below(*old(node), target_path@),
        path_removed(*old(node), *final(node), target_path@),
    decreases *old(node),
{
    let ghost t = target_path@;
    if child_with_path(&node.children, target_path) {
        let ghost olds = node.children@;
        proof {
            let i = choose|i: int| 0 <= i < olds.len() && (#[trigger] olds[i]).path@ == t;
            lemma_forest_found_at(olds, t, i);
        }
        let mut children: Vec<FileNode> = Vec::new();
        std::mem::swap(&mut children, &mut node.children);
        node.children = keep_other_paths(children, target_path);
        return true;
    }
    let ghost olds = old(node).children@;
    let n = node.children.len();
    let mut i: usize = 0;
    while i < n
        invariant
            n == node.children@.len(),
            n == olds.len(),
            olds == old(node).children@,
            0 <= i <= n,
            !has_child_with_path(olds, t),
            t == target_path@,
            same_fields(*old(node), *node),
            !forest_found(olds.subrange(0, i as int), t),
            forest_path_removed(olds.subrange(0, i as int), node.children@.subrange(0, i as int), t),
            forall|j: int| i <= j < n ==> node.children@[j] == olds[j],
        decreases n - i,
    {
        proof {
            assert(decreases_to!(*old(node) => olds[i as int]));
        }
        let ghost before = node.children@;
        let found = remove_node_by_path(&mut node.children[i], target_path);
        proof {
            let k = i as int;
            assert(node.children@.subrange(0, k) =~= before.subrange(0, k));
            assert(olds.subrange(0, k + 1).drop_last() =~= olds.subrange(0, k));
            assert(node.children@.subrange(0, k + 1).drop_last() =~= node.children@.subrange(0, k));
            assert(olds.subrange(0, k + 1).last() == olds[k]);
            assert(!(olds[k].path@ == t));
        }
        if found {
            proof {
                let k = i as int;
                assert(forest_found(olds.subrange(0, k + 1), t));
                lemma_forest_removed_extend(olds, node.children@, t, k + 1);
                lemma_forest_found_prefix(olds, t, k + 1);
            }
            return true;
        }
        i = i + 1;
    }
    proof {
        assert(olds.subrange(0, n as int) =~= olds);
        assert(node.children@.subrange(0, n as int) =~= node.children@);
    }
    false
}

// ---------------------------------------------------------------------------
// What a removal takes out
// ---------------------------------------------------------------------------

/// A node with the path `t`.
pub open spec fn has_path(t: Seq<char>) -> spec_fn(FileNode) -> bool {
    |n: FileNode| n.path@ == t
}

/// How many nodes strictly below `node` have the path `t`.
pub open spec fn occurrences_below(node: FileNode, t: Seq<char>) -> nat {
    forest_preorder_where(node.children@, has_path(t)).len()
}

proof fn lemma_where_len_split(node: FileNode, keep: spec_fn(FileNode) -> bool)
    ensures
        preorder_where(node, keep).len() == (if keep(node) { 1nat } else { 0nat }) + forest_preorder_where(
            node.children@,
            keep,
        ).len(),
{
}

proof fn lemma_forest_where_len_split(s: Seq<FileNode>, keep: spec_fn(FileNode) -> bool)
    requires
        s.len() > 0,
    ensures
        forest_preorder_where(s, keep).len() == forest_preorder_where(s.drop_last(), keep).len()
            + preorder_where(s.last(), keep).len(),
{
}

proof fn lemma_forest_found_count(s: Seq<FileNode>, t: Seq<char>)
    ensures
        forest_found(s, t) <==> forest_preorder_where(s, has_path(t)).len() > 0,
    decreases s,
{
    if s.len() > 0 {
        lemma_forest_found_count(s.drop_last(), t);
        lemma_found_count(s.last(), t);
        lemma_forest_where_len_split(s, has_path(t));
        lemma_where_len_split(s.last(), has_path(t));
    }
}

/// A path is found below a node exactly when it occurs there.
pub proof fn lemma_found_count(node: FileNode, t: Seq<char>)
    ensures
        found_below(node, t) <==> occurrences_below(node, t) > 0,
    decreases node,
{
    lemma_forest_found_count(node.children@, t);
}

proof fn lemma_without_path_count(s: Seq<FileNode>, t: Seq<char>)
    ensures
        forest_preorder_where(without_path(s, t), has_path(t)).len() <= forest_preorder_where(s, has_path(t)).len(),
        has_child_with_path(s, t) ==> forest_preorder_where(without_path(s, t), has_path(t)).len()
            < forest_preorder_where(s, has_path(t)).len(),
    decreases s.len(),
{
    if s.len() > 0 {
        let u = s.drop_last();
        let x = s.last();
        lemma_without_path_count(u, t);
        lemma_forest_where_len_split(s, has_path(t));
        lemma_where_len_split(x, has_path(t));
        if x.path@ != t {
            let w = without_path(u, t).push(x);
            assert(w.drop_last() =~= without_path(u, t));
            lemma_forest_where_len_split(w, has_path(t));
            if has_child_with_path(s, t) {
                let i = choose|i: int| 0 <= i < s.len() && (#[trigger] s[i]).path@ == t;
                assert(i < u.len());
                assert(u[i] == s[i]);
            }
        }
    }
}

proof fn lemma_forest_removed_count(olds: Seq<FileNode>, news: Seq<FileNode>, t: Seq<char>)
    requires
        forest_path_removed(olds, news, t),
        !has_child_with_path(olds, t),
    ensures
        forest_preorder_where(news, has_path(t)).len() <= forest_preorder_where(olds, has_path(t)).len(),
        forest_found(olds, t) ==> forest_preorder_where(news, has_path(t)).len()
            < forest_preorder_where(olds, has_path(t)).len(),
        !forest_found(olds, t) ==> forest_preorder_where(news, has_path(t)).len()
            == forest_preorder_where(olds, has_path(t)).len(),
    decreases olds,
{
    if olds.len() > 0 {
        let u = olds.drop_last();
        let x = olds.last();
        assert(!has_child_with_path(u, t)) by {
            if has_child_with_path(u, t) {
                let i = choose|i: int| 0 <= i < u.len() && (#[trigger] u[i]).path@ == t;
                assert(olds[i] == u[i]);
            }
        }
        assert(x.path@ != t) by {
            assert(olds[olds.len() - 1] == x);
        }
        lemma_forest_removed_count(u, news.drop_last(), t);
        lemma_forest_where_len_split(olds, has_path(t));
        lemma_forest_where_len_split(news, has_path(t));
        lemma_where_len_split(x, has_path(t));
        lemma_where_len_split(news.last(), has_path(t));
        assert(!has_path(t)(x));
        if !forest_found(u, t) {
            assert(path_removed(x, news.last(), t));
            lemma_removed_count(x, news.last(), t);
            assert(same_fields(x, news.last()));
            assert(news.last().path == x.path);
            assert(!has_path(t)(news.last()));
        } else {
            assert(news.last() == x);
        }
    }
}

proof fn lemma_removed_count(old: FileNode, new: FileNode, t: Seq<char>)
    requires
        path_removed(old, new, t),
    ensures
        occurrences_below(new, t) <= occurrences_below(old, t),
        found_below(old, t) ==> occurrences_below(new, t) < occurrences_below(old, t),
        !found_below(old, t) ==> occurrences_below(new, t) == occurrences_below(old, t),
    decreases old,
{
    if has_child_with_path(old.children@, t) {
        lemma_without_path_count(old.children@, t);
        let i = choose|i: int| 0 <= i < old.children@.len() && (#[trigger] old.children@[i]).path@ == t;
        lemma_forest_found_at(old.children@, t, i);
    } else {
        lemma_forest_removed_count(old.children@, new.children@, t);
    }
}

proof fn lemma_forest_sorted_count(olds: Seq<FileNode>, news: Seq<FileNode>, mode: SortMode, t: Seq<char>)
    requires
        forest_tree_sorted(olds, news, mode),
    ensures
        forest_preorder_where(news, has_path(t)).len() == forest_preorder_where(olds, has_path(t)).len(),
    decreases news,
{
    if news.len() > 0 {
        lemma_forest_sorted_count(olds.drop_last(), news.drop_last(), mode, t);
        lemma_sorted_count(olds.last(), news.last(), mode, t);
        lemma_forest_where_len_split(olds, has_path(t));
        lemma_forest_where_len_split(news, has_path(t));
    }
}

/// Sorting a tree keeps the number of its nodes with a given path.
pub proof fn lemma_sorted_count(old: FileNode, new: FileNode, mode: SortMode, t: Seq<char>)
    requires
        tree_sorted(old, new, mode),
    ensures
        occurrences_below(new, t) == occurrences_below(old, t),
        preorder_where(new, has_path(t)).len() == preorder_where(old, has_path(t)).len(),
    decreases new,
{
    lemma_forest_sorted_count(sort_seq(old.children@, mode_order(mode)), new.children@, mode, t);
    lemma_sort_seq_measures(old.children@, mode_order(mode), has_path(t));
    lemma_where_len_split(old, has_path(t));
    lemma_where_len_split(new, has_path(t));
}

proof fn lemma_forest_calculated_count(olds: Seq<FileNode>, news: Seq<FileNode>, t: Seq<char>)
    requires
        forest_sizes_calculated(olds, news),
    ensures
        forest_preorder_where(news, has_path(t)).len() == forest_preorder_where(olds, has_path(t)).len(),
    decreases olds,
{
    if olds.len() > 0 {
        lemma_forest_calculated_count(olds.drop_last(), news.drop_last(), t);
        lemma_calculated_count(olds.last(), news.last(), t);
        lemma_forest_where_len_split(olds, has_path(t));
        lemma_forest_where_len_split(news, has_path(t));
    }
}

/// The size calculation keeps the number of nodes of a tree with a given path.
pub proof fn lemma_calculated_count(old: FileNode, new: FileNode, t: Seq<char>)
    requires
        sizes_calculated(old, new),
    ensures
        occurrences_below(new, t) == occurrences_below(old, t),
        preorder_where(new, has_path(t)).len() == preorder_where(old, has_path(t)).len(),
    decreases old,
{
    if old.node_type == NodeType::Directory {
        lemma_forest_calculated_count(old.children@, new.children@, t);
    }
    lemma_where_len_split(old, has_path(t));
    lemma_where_len_split(new, has_path(t));
}

/// Removing a path from below a node takes it out: where it occurred, it
/// occurs fewer times afterwards, and not at all if it occurred once; where
/// it did not occur, nothing changes in this count.
pub proof fn lemma_removal_takes_path_out(old: FileNode, new: FileNode, t: Seq<char>)
    requires
        path_removed(old, new, t),
    ensures
        found_below(old, t) ==> occurrences_below(new, t) < occurrences_below(old, t),
        !found_below(old, t) ==> occurrences_below(new, t) == occurrences_below(old, t),
        occurrences_below(old, t) == 1 ==> !found_below(new, t),
{
    lemma_removed_count(old, new, t);
    lemma_found_count(old, t);
    lemma_found_count(new, t);
}

// ---------------------------------------------------------------------------
// What removal, sorting and size calculation do to the measures of a tree
// ---------------------------------------------------------------------------

/// A tree whose arithmetic stays within the machine's integers: its size, its
/// number of nodes and the total size of its files fit.
pub open spec fn within_limits(node: FileNode) -> bool {
    &&& tree_size(node) <= u64::MAX
    &&& node_count(node) <= u64::MAX
    &&& node_count(node) <= usize::MAX
    &&& files_total(node) <= u64::MAX
}

/// The part of a node itself in what a selection counts.
proof fn lemma_head_size(node: FileNode, keep: spec_fn(FileNode) -> bool)
    ensures
        sizes_sum(preorder_where(node, keep)) == (if keep(node) { node.size as nat } else { 0nat })
            + sizes_sum(forest_preorder_where(node.children@, keep)),
        preorder_where(node, keep).len() == (if keep(node) { 1nat } else { 0nat })
            + forest_preorder_where(node.children@, keep).len(),
{
    let h: Seq<FileNode> = if keep(node) { seq![node] } else { Seq::empty() };
    assert(sizes_sum(Seq::<FileNode>::empty()) == 0);
    if keep(node) {
        assert(h.drop_last() =~= Seq::<FileNode>::empty());
    }
    lemma_sizes_sum_concat(h, forest_preorder_where(node.children@, keep));
}

proof fn lemma_forest_pair_step(s: Seq<FileNode>, keep: spec_fn(FileNode) -> bool)
    requires
        s.len() > 0,
    ensures
        sizes_sum(forest_preorder_where(s, keep)) == sizes_sum(forest_preorder_where(s.drop_last(), keep))
            + sizes_sum(preorder_where(s.last(), keep)),
{
    lemma_sizes_sum_concat(forest_preorder_where(s.drop_last(), keep), preorder_where(s.last(), keep));
}

proof fn lemma_without_path_measures(s: Seq<FileNode>, t: Seq<char>, c: FileCategory)
    ensures
        forest_size(without_path(s, t)) <= forest_size(s),
        forest_count(without_path(s, t)) <= forest_count(s),
        sizes_sum(forest_preorder_where(without_path(s, t), file_in(c))) <= sizes_sum(
            forest_preorder_where(s, file_in(c)),
        ),
    decreases s.len(),
{
    if s.len() > 0 {
        let u = s.drop_last();
        lemma_without_path_measures(u, t, c);
        lemma_forest_pair_step(s, file_in(c));
        if s.last().path@ != t {
            let w = without_path(u, t).push(s.last());
            assert(w.drop_last() =~= without_path(u, t));
            lemma_forest_pair_step(w, file_in(c));
        }
    }
}

/// Removing a path from a tree does not make it larger in any measure.
pub proof fn lemma_path_removed_measures(old: FileNode, new: FileNode, t: Seq<char>, c: FileCategory)
    requires
        path_removed(old, new, t),
    ensures
        tree_size(new) <= tree_size(old),
        node_count(new) <= node_count(old),
        sizes_sum(category_files(new, c)) <= sizes_sum(category_files(old, c)),
    decreases old,
{
    let keep = file_in(c);
    lemma_head_size(old, keep);
    lemma_head_size(new, keep);
    if has_child_with_path(old.children@, t) {
        lemma_without_path_measures(old.children@, t, c);
    } else {
        lemma_forest_path_removed_measures(old.children@, new.children@, t, c);
    }
}

proof fn lemma_forest_path_removed_measures(
    olds: Seq<FileNode>,
    news: Seq<FileNode>,
    t: Seq<char>,
    c: FileCategory,
)
    requires
        forest_path_removed(olds, news, t),
    ensures
        forest_size(news) <= forest_size(olds),
        forest_count(news) <= forest_count(olds),
        sizes_sum(forest_preorder_where(news, file_in(c))) <= sizes_sum(
            forest_preorder_where(olds, file_in(c)),
        ),
    decreases olds,
{
    if olds.len() > 0 {
        lemma_forest_path_removed_measures(olds.drop_last(), news.drop_last(), t, c);
        if !forest_found(olds.drop_last(), t) {
            lemma_path_removed_measures(olds.last(), news.last(), t, c);
        }
        lemma_forest_pair_step(olds, file_in(c));
        lemma_forest_pair_step(news, file_in(c));
    }
}

/// The size calculation keeps the size of a tree, its number of nodes and its files.
pub proof fn lemma_calculated_measures(old: FileNode, new: FileNode, c: FileCategory)
    requires
        sizes_calculated(old, new),
    ensures
        tree_size(new) == tree_size(old),
        node_count(new) == node_count(old),
        sizes_sum(category_files(new, c)) == sizes_sum(category_files(old, c)),
    decreases old,
{
    if old.node_type == NodeType::Directory {
        let keep = file_in(c);
        lemma_head_size(old, keep);
        lemma_head_size(new, keep);
        lemma_forest_calculated_measures(old.children@, new.children@, c);
    }
}

proof fn lemma_forest_calculated_measures(olds: Seq<FileNode>, news: Seq<FileNode>, c: FileCategory)
    requires
        forest_sizes_calculated(olds, news),
    ensures
        forest_size(news) == forest_size(olds),
        forest_count(news) == forest_count(olds),
        sizes_sum(forest_preorder_where(news, file_in(c))) == sizes_sum(
            forest_preorder_where(olds, file_in(c)),
        ),
    decreases olds,
{
    if olds.len() > 0 {
        lemma_forest_calculated_measures(olds.drop_last(), news.drop_last(), c);
        lemma_calculated_measures(olds.last(), news.last(), c);
        lemma_forest_pair_step(olds, file_in(c));
        lemma_forest_pair_step(news, file_in(c));
    }
}

proof fn lemma_categories_total_le(a: FileNode, b: FileNode, k: int)
    requires
        forall|c: FileCategory| sizes_sum(#[trigger] category_files(a, c)) <= sizes_sum(category_files(b, c)),
    ensures
        categories_total(a, k) <= categories_total(b, k),
    decreases k,
{
    if k > 0 {
        lemma_categories_total_le(a, b, k - 1);
        assert(sizes_sum(category_files(a, category_by_rank(k - 1))) <= sizes_sum(
            category_files(b, category_by_rank(k - 1)),
        ));
    }
}

/// A tree within the limits stays within them when sorted.
pub proof fn lemma_sorted_within_limits(old: FileNode, new: FileNode, mode: SortMode)
    requires
        tree_sorted(old, new, mode),
        within_limits(old),
    ensures
        within_limits(new),
{
    assert forall|c: FileCategory| sizes_sum(#[trigger] category_files(new, c)) <= sizes_sum(
        category_files(old, c),
    ) by {
        lemma_tree_sorted_measures(old, new, mode, c);
    }
    lemma_tree_sorted_measures(old, new, mode, FileCategory::Other);
    lemma_categories_total_le(new, old, 8);
}

/// A tree within the limits stays within them when a path is removed from it.
pub proof fn lemma_removed_within_limits(old: FileNode, new: FileNode, t: Seq<char>)
    requires
        path_removed(old, new, t),
        within_limits(old),
    ensures
        within_limits(new),
{
    assert forall|c: FileCategory| sizes_sum(#[trigger] category_files(new, c)) <= sizes_sum(
        category_files(old, c),
    ) by {
        lemma_path_removed_measures(old, new, t, c);
    }
    lemma_path_removed_measures(old, new, t, FileCategory::Other);
    lemma_categories_total_le(new, old, 8);
}

/// A tree within the limits stays within them when its sizes are calculated.
pub proof fn lemma_calculated_within_limits(old: FileNode, new: FileNode)
    requires
        sizes_calculated(old, new),
        within_limits(old),
    ensures
        within_limits(new),
{
    assert forall|c: FileCategory| sizes_sum(#[trigger] category_files(new, c)) <= sizes_sum(
        category_files(old, c),
    ) by {
        lemma_calculated_measures(old, new, c);
    }
    lemma_calculated_measures(old, new, FileCategory::Other);
    lemma_categories_total_le(new, old, 8);
}

// ---------------------------------------------------------------------------
// Counting files and directories
// ---------------------------------------------------------------------------

/// A directory.
pub open spec fn is_directory() -> spec_fn(FileNode) -> bool {
    |n: FileNode| n.node_type == NodeType::Directory
}

/// A file or a symlink.
pub open spec fn is_not_directory() -> spec_fn(FileNode) -> bool {
    |n: FileNode| n.node_type != NodeType::Directory
}

proof fn lemma_forest_kinds_count(s: Seq<FileNode>)
    ensures
        forest_preorder_where(s, is_not_directory()).len() + forest_preorder_where(s, is_directory()).len()
            == forest_count(s),
    decreases s,
{
    if s.len() > 0 {
        lemma_forest_kinds_count(s.drop_last());
        lemma_kinds_count(s.last());
    }
}

/// Every node of a tree is either a directory or not: the two counts that
/// `count_nodes` returns add up to the number of nodes.
pub proof fn lemma_kinds_count(node: FileNode)
    ensures
        preorder_where(node, is_not_directory()).len() + preorder_where(node, is_directory()).len()
            == node_count(node),
    decreases node,
{
    lemma_forest_kinds_count(node.children@);
}

/// The number of files and symlinks, and the number of directories, of the tree.
pub fn count_nodes(node: &FileNode) -> (r: (u64, u64))
    requires
        node_count(*node) <= u64::MAX,
    ensures
        r.0 == preorder_where(*node, is_not_directory()).len(),
        r.1 == preorder_where(*node, is_directory()).len(),
    decreases *node,
{
    let ghost files = is_not_directory();
    let ghost dirs = is_directory();
    let mut files_count: u64 = 0;
    let mut dirs_count: u64 = 0;
    match node.node_type {
        NodeType::File | NodeType::Symlink => {
            files_count = files_count + 1;
        },
        NodeType::Directory => {
            dirs_count = dirs_count + 1;
        },
    }
    proof {
        lemma_head_size(*node, files);
        lemma_head_size(*node, dirs);
        lemma_where_len(*node, files);
        lemma_where_len(*node, dirs);
    }
    let n = node.children.len();
    let mut i: usize = 0;
    while i < n
        invariant
            n == node.children@.len(),
            0 <= i <= n,
            node_count(*node) <= u64::MAX,
            files == is_not_directory(),
            dirs == is_directory(),
            files_count == (if files(*node) { 1nat } else { 0nat }) + forest_preorder_where(
                node.children@.subrange(0, i as int),
                files,
            ).len(),
            dirs_count == (if dirs(*node) { 1nat } else { 0nat }) + forest_preorder_where(
                node.children@.subrange(0, i as int),
                dirs,
            ).len(),
            preorder_where(*node, files).len() == (if files(*node) { 1nat } else { 0nat })
                + forest_preorder_where(node.children@, files).len(),
            preorder_where(*node, dirs).len() == (if dirs(*node) { 1nat } else { 0nat })
                + forest_preorder_where(node.children@, dirs).len(),
            preorder_where(*node, files).len() <= node_count(*node),
            preorder_where(*node, dirs).len() <= node_count(*node),
        decreases n - i,
    {
        proof {
            assert(decreases_to!(*node => node.children@[i as int]));
            lemma_child_bounds(*node, i as int);
            lemma_forest_where_prefix(node.children@, files, i as int);
            lemma_forest_where_prefix(node.children@, dirs, i as int);
            lemma_forest_where_step(node.children@, i as int, files);
            lemma_forest_where_step(node.children@, i as int, dirs);
        }
        let (child_files, child_dirs) = count_nodes(&node.children[i]);
        files_count = files_count + child_files;
        dirs_count = dirs_count + child_dirs;
        i = i + 1;
    }
    proof {
        assert(node.children@.subrange(0, n as int) =~= node.children@);
    }
    (files_count, dirs_count)
}


// ---------------------------------------------------------------------------
// What expanding or collapsing one path does to the rows
// ---------------------------------------------------------------------------

/// `e1` and `e2` agree on every path but `p`.
pub open spec fn agree_except(e1: Set<Seq<char>>, e2: Set<Seq<char>>, p: Seq<char>) -> bool {
    forall|q: Seq<char>| q != p ==> (#[trigger] e1.contains(q) == e2.contains(q))
}

/// No row of `rows` before position `k` has the path `p`.
pub open spec fn no_path_before(rows: Seq<TreeRow>, p: Seq<char>, k: int) -> bool {
    forall|j: int| 0 <= j < k ==> (#[trigger] rows[j]).path@ != p
}

proof fn lemma_forest_rows_flag(s: Seq<FileNode>, depth: int, e: Set<Seq<char>>)
    ensures
        forall|j: int|
            0 <= j < forest_visible_rows(s, depth, e).len() ==> (#[trigger] forest_visible_rows(s, depth, e)[j]).is_expanded
                == e.contains(forest_visible_rows(s, depth, e)[j].path@),
    decreases s,
{
    if s.len() > 0 {
        lemma_forest_rows_flag(s.drop_last(), depth, e);
        lemma_rows_flag(s.last(), depth, e);
        let a = forest_visible_rows(s.drop_last(), depth, e);
        let b = visible_rows(s.last(), depth, e);
        assert forall|j: int| 0 <= j < (a + b).len() implies (#[trigger] (a + b)[j]).is_expanded == e.contains(
            (a + b)[j].path@,
        ) by {
            if j < a.len() {
                assert((a + b)[j] == a[j]);
            } else {
                assert((a + b)[j] == b[j - a.len()]);
            }
        }
    }
}

/// Every row says whether its path is expanded.
pub proof fn lemma_rows_flag(node: FileNode, depth: int, e: Set<Seq<char>>)
    ensures
        forall|j: int|
            0 <= j < visible_rows(node, depth, e).len() ==> (#[trigger] visible_rows(node, depth, e)[j]).is_expanded
                == e.contains(visible_rows(node, depth, e)[j].path@),
    decreases node,
{
    lemma_forest_rows_flag(node.children@, depth + 1, e);
    let r = visible_rows(node, depth, e);
    if node.node_type == NodeType::Directory && e.contains(node.path@) {
        let f = forest_visible_rows(node.children@, depth + 1, e);
        assert forall|j: int| 0 <= j < r.len() implies (#[trigger] r[j]).is_expanded == e.contains(r[j].path@) by {
            if j > 0 {
                assert(r[j] == f[j - 1]);
            }
        }
    }
}

/// `row` shows the node `m`: its name, path, extension, size, kind and
/// category, and whether its path is among the expanded paths `e`.
pub open spec fn row_shows(row: TreeRow, m: FileNode, e: Set<Seq<char>>) -> bool {
    &&& row.name == m.name
    &&& row.path == m.path
    &&& row.extension == m.extension
    &&& row.size == m.size
    &&& row.node_type == m.node_type
    &&& row.category == m.category
    &&& row.is_expanded == e.contains(m.path@)
}

/// `row` shows one of `nodes`.
pub open spec fn shows_one_of(row: TreeRow, nodes: Seq<FileNode>, e: Set<Seq<char>>) -> bool {
    exists|j: int| 0 <= j < nodes.len() && row_shows(row, #[trigger] nodes[j], e)
}

/// The first row of a tree shows its root, with the root's own recorded size
/// (for a directory, the size that was calculated for it), and every row
/// shows a node of the tree in the same way.
pub proof fn lemma_rows_show_tree_nodes(node: FileNode, depth: int, e: Set<Seq<char>>)
    ensures
        visible_rows(node, depth, e).len() >= 1,
        row_shows(visible_rows(node, depth, e)[0], node, e),
        forall|i: int|
            0 <= i < visible_rows(node, depth, e).len() ==> shows_one_of(
                #[trigger] visible_rows(node, depth, e)[i],
                preorder(node),
                e,
            ),
    decreases node,
{
    lemma_forest_rows_show_tree_nodes(node.children@, depth + 1, e);
    let r = visible_rows(node, depth, e);
    let f = forest_preorder(node.children@);
    let p = preorder(node);
    assert(p[0] == node);
    assert forall|i: int| 0 <= i < r.len() implies shows_one_of(#[trigger] r[i], p, e) by {
        if i == 0 {
            assert(row_shows(r[i], p[0], e));
        } else {
            let rf = forest_visible_rows(node.children@, depth + 1, e);
            assert(r[i] == rf[i - 1]);
            assert(shows_one_of(rf[i - 1], f, e));
            let j = choose|j: int| 0 <= j < f.len() && row_shows(rf[i - 1], #[trigger] f[j], e);
            assert(p[j + 1] == f[j]);
        }
    }
}

/// `lemma_rows_show_tree_nodes` over a sequence of trees.
proof fn lemma_forest_rows_show_tree_nodes(s: Seq<FileNode>, depth: int, e: Set<Seq<char>>)
    ensures
        forall|i: int|
            0 <= i < forest_visible_rows(s, depth, e).len() ==> shows_one_of(
                #[trigger] forest_visible_rows(s, depth, e)[i],
                forest_preorder(s),
                e,
            ),
    decreases s,
{
    if s.len() > 0 {
        lemma_forest_rows_show_tree_nodes(s.drop_last(), depth, e);
        lemma_rows_show_tree_nodes(s.last(), depth, e);
        let a = forest_visible_rows(s.drop_last(), depth, e);
        let b = visible_rows(s.last(), depth, e);
        let pa = forest_preorder(s.drop_last());
        let pb = preorder(s.last());
        let r = forest_visible_rows(s, depth, e);
        let p = forest_preorder(s);
        assert(r == a + b);
        assert(p == pa + pb);
        assert forall|i: int| 0 <= i < r.len() implies shows_one_of(#[trigger] r[i], p, e) by {
            if i < a.len() {
                assert(r[i] == a[i]);
                assert(shows_one_of(a[i], pa, e));
                let j = choose|j: int| 0 <= j < pa.len() && row_shows(a[i], #[trigger] pa[j], e);
                assert(p[j] == pa[j]);
            } else {
                assert(r[i] == b[i - a.len()]);
                assert(shows_one_of(b[i - a.len()], pb, e));
                let j = choose|j: int| 0 <= j < pb.len() && row_shows(b[i - a.len()], #[trigger] pb[j], e);
                assert(p[pa.len() + j] == pb[j]);
            }
        }
    }
}

proof fn lemma_forest_rows_unchanged(s: Seq<FileNode>, depth: int, e1: Set<Seq<char>>, e2: Set<Seq<char>>, p: Seq<char>)
    requires
        agree_except(e1, e2, p),
        no_path_before(forest_visible_rows(s, depth, e1), p, forest_visible_rows(s, depth, e1).len() as int),
    ensures
        forest_visible_rows(s, depth, e2) == forest_visible_rows(s, depth, e1),
    decreases s,
{
    if s.len() > 0 {
        let a = forest_visible_rows(s.drop_last(), depth, e1);
        let b = visible_rows(s.last(), depth, e1);
        assert forall|j: int| 0 <= j < a.len() implies (#[trigger] a[j]).path@ != p by {
            assert((a + b)[j] == a[j]);
        }
        assert forall|j: int| 0 <= j < b.len() implies (#[trigger] b[j]).path@ != p by {
            assert((a + b)[a.len() + j] == b[j]);
        }
        lemma_forest_rows_unchanged(s.drop_last(), depth, e1, e2, p);
        lemma_rows_unchanged(s.last(), depth, e1, e2, p);
    }
}

/// Rows in which the path `p` does not occur stay as they are whatever is
/// said of `p`.
pub proof fn lemma_rows_unchanged(node: FileNode, depth: int, e1: Set<Seq<char>>, e2: Set<Seq<char>>, p: Seq<char>)
    requires
        agree_except(e1, e2, p),
        no_path_before(visible_rows(node, depth, e1), p, visible_rows(node, depth, e1).len() as int),
    ensures
        visible_rows(node, depth, e2) == visible_rows(node, depth, e1),
    decreases node,
{
    let r = visible_rows(node, depth, e1);
    assert(r[0].path == node.path);
    assert(e1.contains(node.path@) == e2.contains(node.path@));
    if node.node_type == NodeType::Directory && e1.contains(node.path@) {
        let f = forest_visible_rows(node.children@, depth + 1, e1);
        assert forall|j: int| 0 <= j < f.len() implies (#[trigger] f[j]).path@ != p by {
            assert(r[j + 1] == f[j]);
        }
        lemma_forest_rows_unchanged(node.children@, depth + 1, e1, e2, p);
    }
}

proof fn lemma_forest_rows_prefix(
    s: Seq<FileNode>,
    depth: int,
    e1: Set<Seq<char>>,
    e2: Set<Seq<char>>,
    p: Seq<char>,
    k: int,
)
    requires
        agree_except(e1, e2, p),
        0 <= k < forest_visible_rows(s, depth, e1).len(),
        forest_visible_rows(s, depth, e1)[k].path@ == p,
        no_path_before(forest_visible_rows(s, depth, e1), p, k),
    ensures
        k < forest_visible_rows(s, depth, e2).len(),
        forest_visible_rows(s, depth, e2).take(k) == forest_visible_rows(s, depth, e1).take(k),
        forest_visible_rows(s, depth, e2)[k] == (TreeRow {
            is_expanded: e2.contains(p),
            ..forest_visible_rows(s, depth, e1)[k]
        }),
    decreases s,
{
    let a = forest_visible_rows(s.drop_last(), depth, e1);
    let b = visible_rows(s.last(), depth, e1);
    let a2 = forest_visible_rows(s.drop_last(), depth, e2);
    let b2 = visible_rows(s.last(), depth, e2);
    if k < a.len() {
        assert((a + b)[k] == a[k]);
        assert forall|j: int| 0 <= j < k implies (#[trigger] a[j]).path@ != p by {
            assert((a + b)[j] == a[j]);
        }
        lemma_forest_rows_prefix(s.drop_last(), depth, e1, e2, p, k);
        assert((a2 + b2).take(k) =~= a2.take(k));
        assert((a + b).take(k) =~= a.take(k));
        assert((a2 + b2)[k] == a2[k]);
    } else {
        assert forall|j: int| 0 <= j < a.len() implies (#[trigger] a[j]).path@ != p by {
            assert((a + b)[j] == a[j]);
        }
        lemma_forest_rows_unchanged(s.drop_last(), depth, e1, e2, p);
        let kb = k - a.len();
        assert((a + b)[k] == b[kb]);
        assert forall|j: int| 0 <= j < kb implies (#[trigger] b[j]).path@ != p by {
            assert((a + b)[a.len() + j] == b[j]);
        }
        lemma_rows_prefix(s.last(), depth, e1, e2, p, kb);
        assert((a2 + b2).take(k) =~= a2 + b2.take(kb));
        assert((a + b).take(k) =~= a + b.take(kb));
        assert((a2 + b2)[k] == b2[kb]);
    }
}

/// Saying otherwise of the path `p`, which first occurs at row `k`, leaves
/// the rows before it as they were and flips only that row's flag.
pub proof fn lemma_rows_prefix(node: FileNode, depth: int, e1: Set<Seq<char>>, e2: Set<Seq<char>>, p: Seq<char>, k: int)
    requires
        agree_except(e1, e2, p),
        0 <= k < visible_rows(node, depth, e1).len(),
        visible_rows(node, depth, e1)[k].path@ == p,
        no_path_before(visible_rows(node, depth, e1), p, k),
    ensures
        k < visible_rows(node, depth, e2).len(),
        visible_rows(node, depth, e2).take(k) == visible_rows(node, depth, e1).take(k),
        visible_rows(node, depth, e2)[k] == (TreeRow {
            is_expanded: e2.contains(p),
            ..visible_rows(node, depth, e1)[k]
        }),
    decreases node,
{
    let r = visible_rows(node, depth, e1);
    let r2 = visible_rows(node, depth, e2);
    assert(r[0].path == node.path);
    if node.path@ == p {
        assert(k == 0) by {
            if k > 0 {
                assert(r[0].path@ != p);
            }
        }
        assert(r2.take(0) =~= r.take(0));
    } else {
        assert(e1.contains(node.path@) == e2.contains(node.path@));
        assert(k > 0);
        let f = forest_visible_rows(node.children@, depth + 1, e1);
        let f2 = forest_visible_rows(node.children@, depth + 1, e2);
        assert(node.node_type == NodeType::Directory && e1.contains(node.path@));
        assert(r[k] == f[k - 1]);
        assert forall|j: int| 0 <= j < k - 1 implies (#[trigger] f[j]).path@ != p by {
            assert(r[j + 1] == f[j]);
        }
        lemma_forest_rows_prefix(node.children@, depth + 1, e1, e2, p, k - 1);
        assert(r2 == seq![r[0]] + f2);
        assert(r2.take(k) =~= seq![r[0]] + f2.take(k - 1));
        assert(r.take(k) =~= seq![r[0]] + f.take(k - 1));
        assert(r2[k] == f2[k - 1]);
    }
}

// ---------------------------------------------------------------------------
// What sorting does to the rows on display
// ---------------------------------------------------------------------------

proof fn lemma_insert_sorted_row_count(
    t: Seq<FileNode>,
    x: FileNode,
    key_of: spec_fn(FileNode) -> KeyView,
    depth: int,
    expanded: Set<Seq<char>>,
)
    ensures
        forest_visible_rows(insert_sorted(t, x, key_of), depth, expanded).len() == forest_visible_rows(
            t,
            depth,
            expanded,
        ).len() + visible_rows(x, depth, expanded).len(),
    decreases t.len(),
{
    let r = insert_sorted(t, x, key_of);
    if t.len() == 0 || !key_less_spec(key_of(x), key_of(t.last())) {
        assert(r.drop_last() =~= t);
    } else {
        let u = t.drop_last();
        lemma_insert_sorted_row_count(u, x, key_of, depth, expanded);
        assert(r.drop_last() =~= insert_sorted(u, x, key_of));
    }
}

proof fn lemma_sort_seq_row_count(
    s: Seq<FileNode>,
    key_of: spec_fn(FileNode) -> KeyView,
    depth: int,
    expanded: Set<Seq<char>>,
)
    ensures
        forest_visible_rows(sort_seq(s, key_of), depth, expanded).len() == forest_visible_rows(
            s,
            depth,
            expanded,
        ).len(),
    decreases s.len(),
{
    if s.len() > 0 {
        let u = s.drop_last();
        lemma_sort_seq_row_count(u, key_of, depth, expanded);
        lemma_insert_sorted_row_count(sort_seq(u, key_of), s.last(), key_of, depth, expanded);
    }
}

/// Sorting a tree keeps the number of rows that show it, whatever is expanded.
pub proof fn lemma_sorted_row_count(
    old: FileNode,
    new: FileNode,
    mode: SortMode,
    depth: int,
    expanded: Set<Seq<char>>,
)
    requires
        tree_sorted(old, new, mode),
    ensures
        visible_rows(new, depth, expanded).len() == visible_rows(old, depth, expanded).len(),
    decreases new,
{
    if old.node_type == NodeType::Directory && expanded.contains(old.path@) {
        lemma_forest_sorted_row_count(
            sort_seq(old.children@, mode_order(mode)),
            new.children@,
            mode,
            depth + 1,
            expanded,
        );
        lemma_sort_seq_row_count(old.children@, mode_order(mode), depth + 1, expanded);
    }
}

proof fn lemma_forest_sorted_row_count(
    olds: Seq<FileNode>,
    news: Seq<FileNode>,
    mode: SortMode,
    depth: int,
    expanded: Set<Seq<char>>,
)
    requires
        forest_tree_sorted(olds, news, mode),
    ensures
        forest_visible_rows(news, depth, expanded).len() == forest_visible_rows(
            olds,
            depth,
            expanded,
        ).len(),
    decreases news,
{
    if news.len() > 0 {
        lemma_forest_sorted_row_count(olds.drop_last(), news.drop_last(), mode, depth, expanded);
        lemma_sorted_row_count(olds.last(), news.last(), mode, depth, expanded);
    }
}

// ---------------------------------------------------------------------------
// The set of expanded paths
// ---------------------------------------------------------------------------

proof fn lemma_path_set_push(s: Seq<String>, x: String)
    ensures
        path_set(s.push(x)) == path_set(s).insert(x@),
{
    let t = s.push(x);
    assert forall|q: Seq<char>| path_set(t).contains(q) <==> path_set(s).insert(x@).contains(q) by {
        if path_set(t).contains(q) {
            let i = choose|i: int| 0 <= i < t.len() && (#[trigger] t[i])@ == q;
            if i < s.len() {
                assert(s[i]@ == q);
            }
        }
        if path_set(s).contains(q) {
            let i = choose|i: int| 0 <= i < s.len() && (#[trigger] s[i])@ == q;
            assert(t[i] == s[i]);
        }
        if q == x@ {
            assert(t[s.len() as int] == x);
        }
    }
    assert(path_set(t) =~= path_set(s).insert(x@));
}

/// Adds `path` to the expanded paths, unless it is there already.
pub fn insert_path(paths: &mut Vec<String>, path: String)
    ensures
        path_set(final(paths)@) == path_set(old(paths)@).insert(path@),
{
    if contains_path(paths, &path) {
        assert(path_set(old(paths)@).insert(path@) =~= path_set(old(paths)@));
    } else {
        proof {
            lemma_path_set_push(paths@, path);
        }
        paths.push(path);
    }
}

/// Takes `path` out of the expanded paths.
pub fn remove_path(paths: &mut Vec<String>, path: &String)
    ensures
        path_set(final(paths)@) == path_set(old(paths)@).remove(path@),
{
    let ghost input = paths@;
    let mut kept: Vec<String> = Vec::new();
    let n = paths.len();
    let mut i: usize = 0;
    proof {
        assert(path_set(input.subrange(0, 0)) =~= Set::<Seq<char>>::empty());
        assert(path_set(kept@) =~= Set::<Seq<char>>::empty());
    }
    while i < n
        invariant
            n == paths@.len(),
            input == paths@,
            0 <= i <= n,
            path_set(kept@) == path_set(input.subrange(0, i as int)).remove(path@),
        decreases n - i,
    {
        let ghost before = kept@;
        proof {
            assert(input.subrange(0, i + 1) =~= input.subrange(0, i as int).push(input[i as int]));
            lemma_path_set_push(input.subrange(0, i as int), input[i as int]);
        }
        if paths[i] != *path {
            proof {
                lemma_path_set_push(before, paths@[i as int]);
            }
            kept.push(paths[i].clone());
            proof {
                assert(path_set(kept@) =~= path_set(input.subrange(0, i + 1)).remove(path@));
            }
        } else {
            proof {
                assert(path_set(kept@) =~= path_set(input.subrange(0, i + 1)).remove(path@));
            }
        }
        i = i + 1;
    }
    proof {
        assert(input.subrange(0, n as int) =~= input);
    }
    *paths = kept;
}


// ---------------------------------------------------------------------------
// Checking the limits
// ---------------------------------------------------------------------------

/// The size of the tree, or nothing if it does not fit in a `u64`.
pub fn checked_tree_size(node: &FileNode) -> (r: Option<u64>)
    ensures
        match r {
            Some(x) => x == tree_size(*node),
            None => tree_size(*node) > u64::MAX,
        },
    decreases *node,
{
    if node.node_type != NodeType::Directory {
        return Some(node.size);
    }
    let n = node.children.len();
    let mut total: u64 = 0;
    let mut i: usize = 0;
    while i < n
        invariant
            n == node.children@.len(),
            node.node_type == NodeType::Directory,
            0 <= i <= n,
            total == forest_size(node.children@.subrange(0, i as int)),
        decreases n - i,
    {
        proof {
            assert(decreases_to!(*node => node.children@[i as int]));
            lemma_forest_prefix_bounds(node.children@, i as int);
            lemma_forest_step(node.children@, i as int);
        }
        let child = match checked_tree_size(&node.children[i]) {
            Some(x) => x,
            None => return None,
        };
        total = match total.checked_add(child) {
            Some(x) => x,
            None => return None,
        };
        i = i + 1;
    }
    proof {
        assert(node.children@.subrange(0, n as int) =~= node.children@);
    }
    Some(total)
}

/// The number of nodes of the tree, or nothing if it does not fit in a `u64`.
pub fn checked_node_count(node: &FileNode) -> (r: Option<u64>)
    ensures
        match r {
            Some(x) => x == node_count(*node),
            None => node_count(*node) > u64::MAX,
        },
    decreases *node,
{
    let n = node.children.len();
    let mut total: u64 = 0;
    let mut i: usize = 0;
    while i < n
        invariant
            n == node.children@.len(),
            0 <= i <= n,
            total == forest_count(node.children@.subrange(0, i as int)),
        decreases n - i,
    {
        proof {
            assert(decreases_to!(*node => node.children@[i as int]));
            lemma_forest_prefix_bounds(node.children@, i as int);
            lemma_forest_step(node.children@, i as int);
        }
        let child = match checked_node_count(&node.children[i]) {
            Some(x) => x,
            None => return None,
        };
        total = match total.checked_add(child) {
            Some(x) => x,
            None => return None,
        };
        i = i + 1;
    }
    proof {
        assert(node.children@.subrange(0, n as int) =~= node.children@);
    }
    total.checked_add(1)
}

/// The total size of the files of category `c` in the tree, or nothing if it
/// does not fit in a `u64`.
pub fn checked_category_size(node: &FileNode, c: FileCategory) -> (r: Option<u64>)
    ensures
        match r {
            Some(x) => x == sizes_sum(category_files(*node, c)),
            None => sizes_sum(category_files(*node, c)) > u64::MAX,
        },
    decreases *node,
{
    let ghost keep = file_in(c);
    let mut total: u64 = if node.node_type == NodeType::File && effective_category_of(node) == c {
        node.size
    } else {
        0
    };
    proof {
        lemma_head_size(*node, keep);
    }
    let n = node.children.len();
    let mut i: usize = 0;
    while i < n
        invariant
            n == node.children@.len(),
            0 <= i <= n,
            keep == file_in(c),
            sizes_sum(preorder_where(*node, keep)) == (if keep(*node) { node.size as nat } else { 0nat })
                + sizes_sum(forest_preorder_where(node.children@, keep)),
            total == (if keep(*node) { node.size as nat } else { 0nat }) + sizes_sum(
                forest_preorder_where(node.children@.subrange(0, i as int), keep),
            ),
        decreases n - i,
    {
        proof {
            assert(decreases_to!(*node => node.children@[i as int]));
            lemma_forest_where_prefix(node.children@, keep, i as int);
            lemma_forest_where_step(node.children@, i as int, keep);
            lemma_sizes_sum_concat(
                forest_preorder_where(node.children@.subrange(0, i as int), keep),
                preorder_where(node.children@[i as int], keep),
            );
        }
        let child = match checked_category_size(&node.children[i], c) {
            Some(x) => x,
            None => return None,
        };
        total = match total.checked_add(child) {
            Some(x) => x,
            None => return None,
        };
        i = i + 1;
    }
    proof {
        assert(node.children@.subrange(0, n as int) =~= node.children@);
    }
    Some(total)
}

/// Whether the tree is within the limits of the machine's integers.
pub fn fits_within_limits(node: &FileNode) -> (r: bool)
    ensures
        r == within_limits(*node),
{
    if checked_tree_size(node).is_none() {
        return false;
    }
    let count = match checked_node_count(node) {
        Some(x) => x,
        None => return false,
    };
    if count as u128 > usize::MAX as u128 {
        return false;
    }
    let mut total: u128 = 0;
    let mut k: usize = 0;
    while k < 8
        invariant
            0 <= k <= 8,
            total == categories_total(*node, k as int),
            total <= u64::MAX,
        decreases 8 - k,
    {
        let c = category_by_rank_exec(k);
        proof {
            lemma_categories_total_monotone(*node, k as int);
        }
        let size = match checked_category_size(node, c) {
            Some(x) => x,
            None => return false,
        };
        total = total + size as u128;
        if total > u64::MAX as u128 {
            return false;
        }
        k = k + 1;
    }
    true
}

} // verus!

//! What the statistics of a tree add up to.

use vstd::prelude::*;
use crate::models::{
    FileNode, FileCategory, FileStatistic, NodeType, sizes_sum, node_count, lemma_where_len,
    preorder_where, forest_preorder_where, lemma_sizes_sum_concat,
};
use crate::stat_services::statistics_service::{
    statistics_of, statistics_accurate, statistics_complete, category_statistic, category_files, categories_total, files_total, cat_size,
    cat_count, category_rank, category_by_rank, file_in, lemma_rank_roundtrip,
    lemma_categories_total_monotone, effective_category, forest_cat_count, forest_cat_size,
    lemma_node_contribution,
};
use crate::tui::app::SortMode;
use crate::tui::tree_ops::{tree_sorted, lemma_tree_sorted_measures};

verus! {

/// The sum of the sizes that the statistics give.
pub open spec fn stats_size_sum(stats: Seq<FileStatistic>) -> nat
    decreases stats.len(),
{
    if stats.len() == 0 {
        0
    } else {
        stats_size_sum(stats.drop_last()) + stats.last().total_size as nat
    }
}

/// The sum of the file counts that the statistics give.
pub open spec fn stats_count_sum(stats: Seq<FileStatistic>) -> nat
    decreases stats.len(),
{
    if stats.len() == 0 {
        0
    } else {
        stats_count_sum(stats.drop_last()) + stats.last().file_count as nat
    }
}

/// The sum of the numerators of the percentages that the statistics give.
pub open spec fn stats_percent_sum(stats: Seq<FileStatistic>) -> nat
    decreases stats.len(),
{
    if stats.len() == 0 {
        0
    } else {
        stats_percent_sum(stats.drop_last()) + stats.last().percentage.numerator as nat
    }
}

/// The number of files of the first `k` categories.
pub open spec fn categories_count(root: FileNode, k: int) -> nat
    decreases k,
{
    if k <= 0 {
        0
    } else {
        categories_count(root, k - 1) + category_files(root, category_by_rank(k - 1)).len()
    }
}

/// The number of files of a tree, over all categories.
pub open spec fn files_count(root: FileNode) -> nat {
    categories_count(root, 8)
}

/// The ranks of the categories that the statistics hold.
pub open spec fn stat_ranks(stats: Seq<FileStatistic>) -> Set<int> {
    Set::new(|m: int| exists|i: int| 0 <= i < stats.len() && category_rank((#[trigger] stats[i]).category) == m)
}

/// The sizes, and the counts, of the categories among the first `k` whose rank is in `p`.
spec fn selected_size(root: FileNode, p: Set<int>, k: int) -> nat
    decreases k,
{
    if k <= 0 {
        0
    } else {
        selected_size(root, p, k - 1) + if p.contains(k - 1) { cat_size(root, k - 1) } else { 0 }
    }
}

spec fn selected_count(root: FileNode, p: Set<int>, k: int) -> nat
    decreases k,
{
    if k <= 0 {
        0
    } else {
        selected_count(root, p, k - 1) + if p.contains(k - 1) { cat_count(root, k - 1) } else { 0 }
    }
}

proof fn lemma_selected_insert(root: FileNode, p: Set<int>, r: int, k: int)
    requires
        !p.contains(r),
    ensures
        selected_size(root, p.insert(r), k) == selected_size(root, p, k) + if 0 <= r < k {
            cat_size(root, r)
        } else {
            0
        },
        selected_count(root, p.insert(r), k) == selected_count(root, p, k) + if 0 <= r < k {
            cat_count(root, r)
        } else {
            0
        },
    decreases k,
{
    if k > 0 {
        lemma_selected_insert(root, p, r, k - 1);
    }
}

proof fn lemma_selected_all(root: FileNode, p: Set<int>, k: int)
    requires
        forall|m: int| 0 <= m < k && !p.contains(m) ==> #[trigger] cat_count(root, m) == 0,
    ensures
        selected_size(root, p, k) == categories_total(root, k),
        selected_count(root, p, k) == categories_count(root, k),
    decreases k,
{
    if k > 0 {
        lemma_selected_all(root, p, k - 1);
        if !p.contains(k - 1) {
            assert(cat_count(root, k - 1) == 0);
            assert(category_files(root, category_by_rank(k - 1)) =~= Seq::<FileNode>::empty());
        }
    }
}

proof fn lemma_sums_by_rank(root: FileNode, stats: Seq<FileStatistic>)
    requires
        forall|i: int| 0 <= i < stats.len() ==> #[trigger] stats[i] == category_statistic(root, stats[i].category),
        forall|i: int, j: int| 0 <= i < j < stats.len() ==> #[trigger] stats[i].category != #[trigger] stats[j].category,
        files_total(root) <= u64::MAX,
        node_count(root) <= usize::MAX,
    ensures
        stats_size_sum(stats) == selected_size(root, stat_ranks(stats), 8),
        stats_count_sum(stats) == selected_count(root, stat_ranks(stats), 8),
        files_total(root) > 0 ==> stats_percent_sum(stats) == 100 * stats_size_sum(stats),
    decreases stats.len(),
{
    if stats.len() == 0 {
        assert(stat_ranks(stats) =~= Set::<int>::empty());
        lemma_selected_empty(root, 8);
    } else {
        let u = stats.drop_last();
        let last = stats.last();
        assert forall|i: int| 0 <= i < u.len() implies #[trigger] u[i] == category_statistic(root, u[i].category) by {
            assert(u[i] == stats[i]);
        }
        assert forall|i: int, j: int| 0 <= i < j < u.len() implies #[trigger] u[i].category != #[trigger] u[j].category by {
            assert(u[i] == stats[i] && u[j] == stats[j]);
        }
        lemma_sums_by_rank(root, u);
        let r = category_rank(last.category);
        lemma_rank_roundtrip(last.category);
        assert(stats[stats.len() - 1] == last);
        assert(!stat_ranks(u).contains(r)) by {
            if stat_ranks(u).contains(r) {
                let i = choose|i: int| 0 <= i < u.len() && category_rank((#[trigger] u[i]).category) == r;
                assert(u[i] == stats[i]);
                lemma_rank_roundtrip(u[i].category);
            }
        }
        assert(stat_ranks(stats) =~= stat_ranks(u).insert(r)) by {
            assert forall|m: int| stat_ranks(stats).contains(m) implies stat_ranks(u).insert(r).contains(m) by {
                let i = choose|i: int| 0 <= i < stats.len() && category_rank((#[trigger] stats[i]).category) == m;
                if i < u.len() {
                    assert(u[i] == stats[i]);
                }
            }
            assert forall|m: int| stat_ranks(u).insert(r).contains(m) implies stat_ranks(stats).contains(m) by {
                if m != r {
                    let i = choose|i: int| 0 <= i < u.len() && category_rank((#[trigger] u[i]).category) == m;
                    assert(u[i] == stats[i]);
                    assert(category_rank(stats[i].category) == m);
                } else {
                    assert(category_rank(stats[stats.len() - 1].category) == m);
                }
            }
        }
        lemma_selected_insert(root, stat_ranks(u), r, 8);
        lemma_categories_total_monotone(root, r);
        lemma_where_len(root, file_in(last.category));
        assert(last == category_statistic(root, last.category));
    }
}

proof fn lemma_selected_empty(root: FileNode, k: int)
    ensures
        selected_size(root, Set::empty(), k) == 0,
        selected_count(root, Set::empty(), k) == 0,
    decreases k,
{
    if k > 0 {
        lemma_selected_empty(root, k - 1);
    }
}

proof fn lemma_missing_categories_empty(root: FileNode, stats: Seq<FileStatistic>)
    requires
        forall|c: FileCategory|
            category_files(root, c).len() > 0 ==> exists|i: int|
                0 <= i < stats.len() && #[trigger] stats[i].category == c,
    ensures
        forall|m: int| 0 <= m < 8 && !stat_ranks(stats).contains(m) ==> #[trigger] cat_count(root, m) == 0,
{
    assert forall|m: int| 0 <= m < 8 && !stat_ranks(stats).contains(m) implies #[trigger] cat_count(root, m) == 0 by {
        let c = category_by_rank(m);
        assert(category_rank(c) == m);
        if category_files(root, c).len() > 0 {
            let i = choose|i: int| 0 <= i < stats.len() && #[trigger] stats[i].category == c;
            assert(stat_ranks(stats).contains(m));
        }
    }
}

/// The statistics of a tree account for every file once: their sizes add up
/// to the total size of the files, their counts to the number of files, and,
/// when the files take any space, their percentages to one hundred.
pub proof fn lemma_statistics_add_up(root: FileNode, stats: Seq<FileStatistic>)
    requires
        statistics_of(root, stats),
        files_total(root) <= u64::MAX,
        node_count(root) <= usize::MAX,
    ensures
        stats_size_sum(stats) == files_total(root),
        stats_count_sum(stats) == files_count(root),
        files_total(root) > 0 ==> stats_percent_sum(stats) == 100 * files_total(root),
        files_total(root) > 0 ==> forall|i: int|
            0 <= i < stats.len() ==> (#[trigger] stats[i]).percentage.denominator == files_total(root),
{
    assert(forall|i: int| 0 <= i < stats.len() ==> #[trigger] stats[i] == category_statistic(root, stats[i].category));
    lemma_sums_by_rank(root, stats);
    lemma_missing_categories_empty(root, stats);
    lemma_selected_all(root, stat_ranks(stats), 8);
}


// ---------------------------------------------------------------------------
// Every file falls in exactly one category
// ---------------------------------------------------------------------------

/// A file (not a directory, not a symlink).
pub open spec fn is_file() -> spec_fn(FileNode) -> bool {
    |n: FileNode| n.node_type == NodeType::File
}

spec fn forest_categories_count(s: Seq<FileNode>, k: int) -> nat
    decreases k,
{
    if k <= 0 {
        0
    } else {
        forest_categories_count(s, k - 1) + forest_cat_count(s, k - 1)
    }
}

spec fn forest_categories_total(s: Seq<FileNode>, k: int) -> nat
    decreases k,
{
    if k <= 0 {
        0
    } else {
        forest_categories_total(s, k - 1) + forest_cat_size(s, k - 1)
    }
}

spec fn head_count(node: FileNode, k: int) -> nat
    decreases k,
{
    if k <= 0 {
        0
    } else {
        head_count(node, k - 1) + if file_in(category_by_rank(k - 1))(node) { 1nat } else { 0nat }
    }
}

spec fn head_size(node: FileNode, k: int) -> nat
    decreases k,
{
    if k <= 0 {
        0
    } else {
        head_size(node, k - 1) + if file_in(category_by_rank(k - 1))(node) {
            node.size as nat
        } else {
            0nat
        }
    }
}

proof fn lemma_node_split(node: FileNode, k: int)
    ensures
        categories_count(node, k) == head_count(node, k) + forest_categories_count(node.children@, k),
        categories_total(node, k) == head_size(node, k) + forest_categories_total(node.children@, k),
    decreases k,
{
    if k > 0 {
        lemma_node_split(node, k - 1);
        lemma_node_contribution(node, k - 1);
    }
}

proof fn lemma_head(node: FileNode, k: int)
    requires
        0 <= k <= 8,
    ensures
        head_count(node, k) == (if node.node_type == NodeType::File && category_rank(effective_category(node)) < k {
            1nat
        } else {
            0nat
        }),
        head_size(node, k) == (if node.node_type == NodeType::File && category_rank(effective_category(node)) < k {
            node.size as nat
        } else {
            0nat
        }),
    decreases k,
{
    if k > 0 {
        lemma_head(node, k - 1);
        let c = effective_category(node);
        lemma_rank_roundtrip(c);
        assert(category_rank(category_by_rank(k - 1)) == k - 1);
    }
}

proof fn lemma_forest_split(s: Seq<FileNode>, k: int)
    requires
        s.len() > 0,
    ensures
        forest_categories_count(s, k) == forest_categories_count(s.drop_last(), k) + categories_count(s.last(), k),
        forest_categories_total(s, k) == forest_categories_total(s.drop_last(), k) + categories_total(s.last(), k),
    decreases k,
{
    if k > 0 {
        lemma_forest_split(s, k - 1);
        let p = file_in(category_by_rank(k - 1));
        lemma_sizes_sum_concat(forest_preorder_where(s.drop_last(), p), preorder_where(s.last(), p));
    }
}

proof fn lemma_forest_categories_empty(s: Seq<FileNode>, k: int)
    requires
        s.len() == 0,
    ensures
        forest_categories_count(s, k) == 0,
        forest_categories_total(s, k) == 0,
    decreases k,
{
    if k > 0 {
        lemma_forest_categories_empty(s, k - 1);
    }
}

/// Each file of a tree falls in exactly one category: over all categories,
/// there are as many files as the tree has, and they take what its files take.
pub proof fn lemma_files_counted_once(node: FileNode)
    ensures
        files_count(node) == preorder_where(node, is_file()).len(),
        files_total(node) == sizes_sum(preorder_where(node, is_file())),
    decreases node,
{
    lemma_node_split(node, 8);
    lemma_head(node, 8);
    lemma_rank_roundtrip(effective_category(node));
    lemma_forest_counted_once(node.children@);
    let h: Seq<FileNode> = if is_file()(node) { seq![node] } else { seq![] };
    lemma_sizes_sum_concat(h, forest_preorder_where(node.children@, is_file()));
    if is_file()(node) {
        assert(h.drop_last() =~= Seq::<FileNode>::empty());
    }
    assert(sizes_sum(Seq::<FileNode>::empty()) == 0);
}

proof fn lemma_forest_counted_once(s: Seq<FileNode>)
    ensures
        forest_categories_count(s, 8) == forest_preorder_where(s, is_file()).len(),
        forest_categories_total(s, 8) == sizes_sum(forest_preorder_where(s, is_file())),
    decreases s,
{
    if s.len() == 0 {
        lemma_forest_categories_empty(s, 8);
        assert(sizes_sum(Seq::<FileNode>::empty()) == 0);
    } else {
        lemma_forest_counted_once(s.drop_last());
        lemma_files_counted_once(s.last());
        lemma_forest_split(s, 8);
        lemma_sizes_sum_concat(forest_preorder_where(s.drop_last(), is_file()), preorder_where(s.last(), is_file()));
    }
}


// ---------------------------------------------------------------------------
// Sorting does not change the statistics
// ---------------------------------------------------------------------------

proof fn lemma_sorted_categories_total(a: FileNode, b: FileNode, mode: SortMode, k: int)
    requires
        tree_sorted(a, b, mode),
    ensures
        categories_total(b, k) == categories_total(a, k),
    decreases k,
{
    if k > 0 {
        lemma_sorted_categories_total(a, b, mode, k - 1);
        lemma_tree_sorted_measures(a, b, mode, category_by_rank(k - 1));
    }
}

proof fn lemma_accurate_transfer(a: FileNode, b: FileNode, stats: Seq<FileStatistic>)
    requires
        forall|c: FileCategory| #[trigger] category_statistic(a, c) == category_statistic(b, c),
        statistics_accurate(a, stats),
    ensures
        statistics_accurate(b, stats),
{
    assert forall|i: int| 0 <= i < stats.len() implies #[trigger] stats[i] == category_statistic(b, stats[i].category)
        && stats[i].file_count > 0 by {
        assert(category_statistic(a, stats[i].category) == category_statistic(b, stats[i].category));
    }
}

proof fn lemma_complete_transfer(a: FileNode, b: FileNode, stats: Seq<FileStatistic>)
    requires
        forall|c: FileCategory| #[trigger] category_files(a, c).len() == category_files(b, c).len(),
        statistics_complete(a, stats),
    ensures
        statistics_complete(b, stats),
{
    assert forall|c: FileCategory| #[trigger] category_files(b, c).len() > 0 implies exists|i: int|
        0 <= i < stats.len() && #[trigger] stats[i].category == c by {
        assert(category_files(a, c).len() == category_files(b, c).len());
    }
}

proof fn lemma_sorted_same_categories(a: FileNode, b: FileNode, mode: SortMode)
    requires
        tree_sorted(a, b, mode),
    ensures
        forall|c: FileCategory| #[trigger] category_statistic(a, c) == category_statistic(b, c),
        forall|c: FileCategory| #[trigger] category_files(a, c).len() == category_files(b, c).len(),
{
    lemma_sorted_categories_total(a, b, mode, 8);
    assert forall|c: FileCategory| #[trigger] category_statistic(a, c) == category_statistic(b, c) by {
        lemma_tree_sorted_measures(a, b, mode, c);
    }
    assert forall|c: FileCategory| #[trigger] category_files(a, c).len() == category_files(b, c).len() by {
        lemma_tree_sorted_measures(a, b, mode, c);
    }
}

/// Sorting the children of every node of a tree does not change its
/// statistics.
pub proof fn lemma_sorting_keeps_statistics(a: FileNode, b: FileNode, mode: SortMode, stats: Seq<FileStatistic>)
    requires
        tree_sorted(a, b, mode),
    ensures
        statistics_of(a, stats) == statistics_of(b, stats),
{
    lemma_sorted_same_categories(a, b, mode);
    if statistics_accurate(a, stats) {
        lemma_accurate_transfer(a, b, stats);
    }
    if statistics_accurate(b, stats) {
        lemma_accurate_transfer(b, a, stats);
    }
    if statistics_complete(a, stats) {
        lemma_complete_transfer(a, b, stats);
    }
    if statistics_complete(b, stats) {
        lemma_complete_transfer(b, a, stats);
    }
}

} // verus!

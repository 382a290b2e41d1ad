//! Saving a tree: the rows to write, in the order in which they are
//! written, each pointing to the row of its parent; and what reading the
//! written rows back gives.

use vstd::prelude::*;
use crate::models::{FileNode, NodeType, node_count, forest_count, lemma_child_bounds};
use crate::stat_services::saved_records::{
    DbFileNode, child_ids, tree_of_rows, forest_of_rows, node_of_row, row_index, ids_distinct, has_id,
    ranked_by, acyclic,
};

verus! {

/// One node to write when a tree is saved: its fields, and the position in
/// the plan of the step that writes its parent (none for the root).
pub struct SaveStep {
    pub parent: Option<usize>,
    pub path: String,
    pub name: String,
    pub extension: Option<String>,
    pub size: u64,
    pub node_type: NodeType,
}

/// The step that writes `node` under the step at `parent`.
pub open spec fn step_of(node: FileNode, parent: Option<usize>) -> SaveStep {
    SaveStep {
        parent,
        path: node.path,
        name: node.name,
        extension: node.extension,
        size: node.size,
        node_type: node.node_type,
    }
}

/// The steps that write a tree whose first step stands at position `base`:
/// the node, then the steps of each child in turn, in pre-order.
pub open spec fn plan_of(node: FileNode, base: int, parent: Option<usize>) -> Seq<SaveStep>
    decreases node,
{
    seq![step_of(node, parent)] + forest_plan_of(node.children@, base + 1, base)
}

/// The steps that write a sequence of trees under the step at `parent`, the
/// first step at position `base`.
pub open spec fn forest_plan_of(s: Seq<FileNode>, base: int, parent: int) -> Seq<SaveStep>
    decreases s,
{
    if s.len() == 0 {
        Seq::empty()
    } else {
        forest_plan_of(s.drop_last(), base, parent) + plan_of(
            s.last(),
            base + forest_count(s.drop_last()),
            Some(parent as usize),
        )
    }
}

proof fn lemma_forest_plan_len(s: Seq<FileNode>, base: int, parent: int)
    ensures
        forest_plan_of(s, base, parent).len() == forest_count(s),
    decreases s,
{
    if s.len() > 0 {
        lemma_forest_plan_len(s.drop_last(), base, parent);
        lemma_plan_len(s.last(), base + forest_count(s.drop_last()), Some(parent as usize));
    }
}

/// A tree takes one step per node.
pub proof fn lemma_plan_len(node: FileNode, base: int, parent: Option<usize>)
    ensures
        plan_of(node, base, parent).len() == node_count(node),
    decreases node,
{
    lemma_forest_plan_len(node.children@, base + 1, base);
}

fn step_for(node: &FileNode, parent: Option<usize>) -> (s: SaveStep)
    ensures
        s == step_of(*node, parent),
{
    SaveStep {
        parent,
        path: node.path.clone(),
        name: node.name.clone(),
        extension: match &node.extension {
            Some(e) => Some(e.clone()),
            None => None,
        },
        size: node.size,
        node_type: node.node_type,
    }
}

fn append_plan(node: &FileNode, parent: Option<usize>, steps: &mut Vec<SaveStep>)
    requires
        old(steps)@.len() + node_count(*node) <= usize::MAX,
    ensures
        final(steps)@ == old(steps)@ + plan_of(*node, old(steps)@.len() as int, parent),
    decreases *node,
{
    let ghost start = steps@;
    let base = steps.len();
    steps.push(step_for(node, parent));
    let n = node.children.len();
    let mut i: usize = 0;
    while i < n
        invariant
            n == node.children@.len(),
            0 <= i <= n,
            base == start.len(),
            base + node_count(*node) <= usize::MAX,
            steps@ == start + seq![step_of(*node, parent)] + forest_plan_of(
                node.children@.take(i as int),
                base + 1,
                base as int,
            ),
        decreases n - i,
    {
        proof {
            lemma_forest_plan_len(node.children@.take(i as int), base + 1, base as int);
            crate::models::lemma_forest_prefix_bounds(node.children@, i as int);
            assert(node.children@.subrange(0, i as int) == node.children@.take(i as int));
            assert(decreases_to!(*node => node.children@[i as int]));
        }
        let ghost before = steps@;
        append_plan(&node.children[i], Some(base), steps);
        proof {
            let s = node.children@;
            assert(s.take(i + 1).drop_last() =~= s.take(i as int));
            assert(s.take(i + 1).last() == s[i as int]);
            assert(steps@ =~= start + seq![step_of(*node, parent)] + forest_plan_of(
                s.take(i + 1),
                base + 1,
                base as int,
            ));
        }
        i = i + 1;
    }
    proof {
        assert(node.children@.take(n as int) =~= node.children@);
        assert(steps@ =~= start + plan_of(*node, base as int, parent));
    }
}

/// The steps that save a tree, in the order in which they are written.
pub fn save_plan(root: &FileNode) -> (steps: Vec<SaveStep>)
    requires
        node_count(*root) <= usize::MAX,
    ensures
        steps@ == plan_of(*root, 0, None),
{
    let mut steps: Vec<SaveStep> = Vec::new();
    append_plan(root, None, &mut steps);
    assert(steps@ =~= plan_of(*root, 0, None));
    steps
}


// ---------------------------------------------------------------------------
// The shape of a plan
// ---------------------------------------------------------------------------

/// Where each step of a forest's plan points: at `parent` for the root of a
/// tree, else at an earlier step of the same forest.
proof fn lemma_forest_plan_parents(s: Seq<FileNode>, base: int, parent: int)
    requires
        0 <= parent < base,
        base + forest_count(s) <= usize::MAX,
    ensures
        forall|j: int|
            0 <= j < forest_count(s) ==> ((#[trigger] forest_plan_of(s, base, parent)[j]).parent matches Some(x)
                && (x == parent || base <= x < base + j)),
    decreases s,
{
    lemma_forest_plan_len(s, base, parent);
    if s.len() > 0 {
        let u = s.drop_last();
        let bl = base + forest_count(u);
        lemma_forest_plan_parents(u, base, parent);
        lemma_plan_parents(s.last(), bl, Some(parent as usize));
        lemma_forest_plan_len(u, base, parent);
        lemma_plan_len(s.last(), bl, Some(parent as usize));
        let f = forest_plan_of(s, base, parent);
        assert forall|j: int| 0 <= j < forest_count(s) implies (#[trigger] f[j]).parent matches Some(x) && (x
            == parent || base <= x < base + j) by {
            if j < forest_count(u) {
                assert(f[j] == forest_plan_of(u, base, parent)[j]);
            } else {
                assert(f[j] == plan_of(s.last(), bl, Some(parent as usize))[j - forest_count(u)]);
            }
        }
    }
}

/// Where each step of a tree's plan points: the first at `parent`, every
/// other at an earlier step of the same tree.
proof fn lemma_plan_parents(node: FileNode, base: int, parent: Option<usize>)
    requires
        0 <= base,
        base + node_count(node) <= usize::MAX,
    ensures
        plan_of(node, base, parent)[0].parent == parent,
        forall|j: int|
            0 < j < node_count(node) ==> ((#[trigger] plan_of(node, base, parent)[j]).parent matches Some(x)
                && base <= x < base + j),
    decreases node,
{
    lemma_forest_plan_parents(node.children@, base + 1, base);
    lemma_plan_len(node, base, parent);
    let q = plan_of(node, base, parent);
    assert forall|j: int| 0 < j < node_count(node) implies (#[trigger] q[j]).parent matches Some(x) && base <= x
        < base + j by {
        assert(q[j] == forest_plan_of(node.children@, base + 1, base)[j - 1]);
    }
}

/// The plan of a forest holds, at the offset of each tree, the plan of that tree.
proof fn lemma_forest_plan_at(s: Seq<FileNode>, base: int, parent: int, i: int, j: int)
    requires
        0 <= i < s.len(),
        0 <= j < node_count(s[i]),
    ensures
        forest_count(s.take(i)) + node_count(s[i]) <= forest_count(s),
        forest_plan_of(s, base, parent)[forest_count(s.take(i)) + j] == plan_of(
            s[i],
            base + forest_count(s.take(i)),
            Some(parent as usize),
        )[j],
    decreases s.len(),
{
    let u = s.drop_last();
    lemma_forest_plan_len(u, base, parent);
    lemma_plan_len(s.last(), base + forest_count(u), Some(parent as usize));
    if i < s.len() - 1 {
        assert(u.take(i) =~= s.take(i));
        assert(u[i] == s[i]);
        lemma_forest_plan_at(u, base, parent, i, j);
    } else {
        assert(s.take(i) =~= u);
    }
}

// ---------------------------------------------------------------------------
// The steps that point at a given step
// ---------------------------------------------------------------------------

/// The positions in `[lo, hi)` of the steps that point at the step `k`, in order.
pub open spec fn kids_between(plan: Seq<SaveStep>, k: int, lo: int, hi: int) -> Seq<int>
    decreases hi - lo,
{
    if hi <= lo {
        Seq::empty()
    } else {
        kids_between(plan, k, lo, hi - 1) + if plan[hi - 1].parent == Some(k as usize) {
            seq![hi - 1]
        } else {
            Seq::empty()
        }
    }
}

proof fn lemma_kids_split(plan: Seq<SaveStep>, k: int, lo: int, mid: int, hi: int)
    requires
        lo <= mid <= hi,
    ensures
        kids_between(plan, k, lo, hi) == kids_between(plan, k, lo, mid) + kids_between(plan, k, mid, hi),
    decreases hi - mid,
{
    if hi > mid {
        lemma_kids_split(plan, k, lo, mid, hi - 1);
        assert(kids_between(plan, k, lo, mid) + kids_between(plan, k, mid, hi) =~= kids_between(
            plan,
            k,
            lo,
            mid,
        ) + kids_between(plan, k, mid, hi - 1) + if plan[hi - 1].parent == Some(k as usize) {
            seq![hi - 1]
        } else {
            Seq::<int>::empty()
        });
    } else {
        assert(kids_between(plan, k, lo, mid) + Seq::<int>::empty() =~= kids_between(plan, k, lo, mid));
    }
}

proof fn lemma_kids_none(plan: Seq<SaveStep>, k: int, lo: int, hi: int)
    requires
        forall|q: int| lo <= q < hi ==> (#[trigger] plan[q]).parent != Some(k as usize),
    ensures
        kids_between(plan, k, lo, hi) == Seq::<int>::empty(),
    decreases hi - lo,
{
    if hi > lo {
        lemma_kids_none(plan, k, lo, hi - 1);
    }
}

// ---------------------------------------------------------------------------
// What the store holds after a plan was written
// ---------------------------------------------------------------------------

/// The rows that the store holds after the steps of `plan` were written, in
/// order, and were given the ids `ids`: each row points at the id of the row
/// of its parent step.
pub open spec fn stored_rows(plan: Seq<SaveStep>, ids: Seq<i64>) -> Seq<DbFileNode> {
    Seq::new(
        plan.len(),
        |i: int|
            DbFileNode {
                id: ids[i],
                parent_id: match plan[i].parent {
                    Some(p) => Some(ids[p as int]),
                    None => None,
                },
                path: plan[i].path,
                name: plan[i].name,
                extension: plan[i].extension,
                size: plan[i].size,
                node_type: plan[i].node_type,
            },
    )
}

/// Each id is greater than the ones before it.
pub open spec fn ids_rising(ids: Seq<i64>) -> bool {
    forall|i: int, j: int| 0 <= i < j < ids.len() ==> ids[i] < ids[j]
}

/// Every step points at an earlier step, if at any.
pub open spec fn parents_earlier(plan: Seq<SaveStep>) -> bool {
    forall|q: int| 0 <= q < plan.len() ==> match (#[trigger] plan[q]).parent {
        Some(x) => x < q,
        None => true,
    }
}

/// `read` holds what `saved` held, ids and categories aside: the same path,
/// name, extension, size and type, and the same children in the same order.
pub open spec fn same_content(saved: FileNode, read: FileNode) -> bool
    decreases saved,
{
    &&& read.path == saved.path
    &&& read.name == saved.name
    &&& read.extension == saved.extension
    &&& read.size == saved.size
    &&& read.node_type == saved.node_type
    &&& forest_same_content(saved.children@, read.children@)
}

/// `same_content` position by position.
pub open spec fn forest_same_content(saved: Seq<FileNode>, read: Seq<FileNode>) -> bool
    decreases saved,
{
    &&& saved.len() == read.len()
    &&& saved.len() > 0 ==> {
        &&& forest_same_content(saved.drop_last(), read.drop_last())
        &&& same_content(saved.last(), read.last())
    }
}

proof fn lemma_child_ids_kids(plan: Seq<SaveStep>, ids: Seq<i64>, k: int, m: int)
    requires
        0 <= m <= plan.len() <= ids.len(),
        plan.len() <= usize::MAX,
        ids_rising(ids),
        parents_earlier(plan),
        0 <= k < ids.len(),
        k <= usize::MAX,
    ensures
        child_ids(stored_rows(plan.take(m), ids), ids[k]) == kids_between(plan, k, 0, m).map_values(
            |j: int| ids[j],
        ),
    decreases m,
{
    let rows = stored_rows(plan.take(m), ids);
    if m > 0 {
        lemma_child_ids_kids(plan, ids, k, m - 1);
        assert(rows.drop_last() =~= stored_rows(plan.take(m - 1), ids));
        let q = m - 1;
        assert(rows.last() == rows[q]);
        assert(plan.take(m)[q] == plan[q]);
        match plan[q].parent {
            Some(x) => {
                assert(x < q);
                assert((ids[x as int] == ids[k]) == (x as int == k));
            },
            None => {},
        }
        assert(child_ids(rows, ids[k]) =~= kids_between(plan, k, 0, m).map_values(|j: int| ids[j]));
    } else {
        assert(kids_between(plan, k, 0, m).map_values(|j: int| ids[j]) =~= Seq::<i64>::empty());
    }
}

/// The positions of the first steps of the trees of a forest whose plan
/// starts at `base`.
pub open spec fn bases_of(s: Seq<FileNode>, base: int) -> Seq<int> {
    Seq::new(s.len(), |i: int| base + forest_count(s.take(i)))
}

/// `plan` holds the plan of the forest `s`, under `parent`, from position `base` on.
pub open spec fn placed_forest(plan: Seq<SaveStep>, s: Seq<FileNode>, base: int, parent: int) -> bool {
    &&& 0 <= base
    &&& base + forest_count(s) <= plan.len()
    &&& forall|j: int|
        0 <= j < forest_count(s) ==> plan[base + j] == #[trigger] forest_plan_of(s, base, parent)[j]
}

/// `plan` holds the plan of the tree `node`, under `parent`, from position `base` on.
pub open spec fn placed(plan: Seq<SaveStep>, node: FileNode, base: int, parent: Option<usize>) -> bool {
    &&& 0 <= base
    &&& base + node_count(node) <= plan.len()
    &&& forall|j: int| 0 <= j < node_count(node) ==> plan[base + j] == #[trigger] plan_of(node, base, parent)[j]
}

/// No step outside `[lo, hi)` points at a step inside it.
pub open spec fn no_refs_into(plan: Seq<SaveStep>, lo: int, hi: int) -> bool {
    forall|q: int|
        0 <= q < plan.len() && !(lo <= q < hi) ==> !((#[trigger] plan[q]).parent matches Some(x) && lo <= x
            < hi)
}

proof fn lemma_forest_kids(plan: Seq<SaveStep>, s: Seq<FileNode>, base: int, parent: int)
    requires
        placed_forest(plan, s, base, parent),
        0 <= parent < base,
        plan.len() <= usize::MAX,
    ensures
        kids_between(plan, parent, base, base + forest_count(s)) == bases_of(s, base),
    decreases s.len(),
{
    if s.len() == 0 {
        assert(bases_of(s, base) =~= Seq::<int>::empty());
    } else {
        let u = s.drop_last();
        let l = s.last();
        let bl = base + forest_count(u);
        let nl = node_count(l);
        lemma_forest_plan_len(u, base, parent);
        lemma_plan_len(l, bl, Some(parent as usize));
        assert forall|j: int| 0 <= j < forest_count(u) implies plan[base + j] == #[trigger] forest_plan_of(
            u,
            base,
            parent,
        )[j] by {
            assert(forest_plan_of(s, base, parent)[j] == forest_plan_of(u, base, parent)[j]);
        }
        lemma_forest_kids(plan, u, base, parent);
        lemma_kids_split(plan, parent, base, bl, bl + nl);
        lemma_plan_parents(l, bl, Some(parent as usize));
        assert forall|j: int| 0 <= j < nl implies plan[bl + j] == #[trigger] plan_of(l, bl, Some(parent as usize))[j] by {
            assert(plan[base + (forest_count(u) + j)] == forest_plan_of(s, base, parent)[forest_count(u) + j]);
        }
        assert forall|q: int| bl + 1 <= q < bl + nl implies (#[trigger] plan[q]).parent != Some(parent as usize) by {
            assert(plan[q] == plan_of(l, bl, Some(parent as usize))[q - bl]);
        }
        lemma_kids_none(plan, parent, bl + 1, bl + nl);
        lemma_kids_split(plan, parent, bl, bl + 1, bl + nl);
        assert(plan[bl] == plan_of(l, bl, Some(parent as usize))[0]);
        assert(plan[bl].parent == Some(parent as usize));
        assert(kids_between(plan, parent, bl, bl) == Seq::<int>::empty());
        assert(kids_between(plan, parent, bl, bl + 1) == kids_between(plan, parent, bl, bl) + seq![bl]);
        assert(kids_between(plan, parent, bl, bl + 1) =~= seq![bl]);
        assert(bases_of(s, base) =~= bases_of(u, base).push(bl)) by {
            assert forall|i: int| 0 <= i < u.len() implies bases_of(s, base)[i] == bases_of(u, base)[i] by {
                assert(s.take(i) =~= u.take(i));
            }
            assert(s.take(u.len() as int) =~= u);
        }
    }
}

proof fn lemma_tree_reads_back(
    plan: Seq<SaveStep>,
    ids: Seq<i64>,
    node: FileNode,
    base: int,
    parent: Option<usize>,
    read: FileNode,
)
    requires
        plan.len() <= ids.len(),
        plan.len() <= usize::MAX,
        ids_rising(ids),
        parents_earlier(plan),
        placed(plan, node, base, parent),
        parent matches Some(x) ==> x < base,
        no_refs_into(plan, base, base + node_count(node)),
        tree_of_rows(stored_rows(plan, ids), ids[base], read),
    ensures
        same_content(node, read),
    decreases node,
{
    let rows = stored_rows(plan, ids);
    let n = node_count(node);
    let kids = node.children@;
    lemma_plan_len(node, base, parent);
    // The row of the node is the one at `base`.
    let i = row_index(rows, ids[base]);
    assert(rows[base].id == ids[base]);
    assert(0 <= i < rows.len() && rows[i].id == ids[base]);
    if i != base {
        if i < base {
            assert(ids[i] < ids[base]);
        } else {
            assert(ids[base] < ids[i]);
        }
    }
    assert(plan[base + 0] == plan_of(node, base, parent)[0]);
    assert(node_of_row(rows[base], read));
    // The rows that point at it are the first rows of its children.
    lemma_child_ids_kids(plan, ids, base, plan.len() as int);
    assert(plan.take(plan.len() as int) =~= plan);
    lemma_plan_parents(node, base, parent);
    lemma_kids_split(plan, base, 0, base + 1, plan.len() as int);
    lemma_kids_split(plan, base, base + 1, base + n, plan.len() as int);
    assert forall|q: int| 0 <= q < base + 1 implies (#[trigger] plan[q]).parent != Some(base as usize) by {
        if q == base {
            assert(plan[base] == plan_of(node, base, parent)[0]);
        }
    }
    lemma_kids_none(plan, base, 0, base + 1);
    assert forall|q: int| base + n <= q < plan.len() implies (#[trigger] plan[q]).parent != Some(base as usize) by {
    }
    lemma_kids_none(plan, base, base + n, plan.len() as int);
    lemma_forest_plan_len(kids, base + 1, base);
    assert forall|j: int| 0 <= j < forest_count(kids) implies plan[base + 1 + j] == #[trigger] forest_plan_of(
        kids,
        base + 1,
        base,
    )[j] by {
        assert(plan[base + (1 + j)] == plan_of(node, base, parent)[1 + j]);
    }
    lemma_forest_kids(plan, kids, base + 1, base);
    assert(child_ids(rows, ids[base]) =~= bases_of(kids, base + 1).map_values(|j: int| ids[j]));
    // Each child reads back.
    lemma_forest_plan_parents(kids, base + 1, base);
    lemma_forest_reads_back(plan, ids, kids, base + 1, base, read.children@);
}

proof fn lemma_forest_reads_back(
    plan: Seq<SaveStep>,
    ids: Seq<i64>,
    s: Seq<FileNode>,
    base: int,
    parent: int,
    reads: Seq<FileNode>,
)
    requires
        plan.len() <= ids.len(),
        plan.len() <= usize::MAX,
        ids_rising(ids),
        parents_earlier(plan),
        placed_forest(plan, s, base, parent),
        0 <= parent < base,
        no_refs_into(plan, base, base + forest_count(s)),
        forest_of_rows(stored_rows(plan, ids), bases_of(s, base).map_values(|j: int| ids[j]), reads),
    ensures
        forest_same_content(s, reads),
    decreases s,
{
    if s.len() > 0 {
        let rows = stored_rows(plan, ids);
        let u = s.drop_last();
        let l = s.last();
        let bl = base + forest_count(u);
        let nl = node_count(l);
        lemma_forest_plan_len(u, base, parent);
        lemma_plan_len(l, bl, Some(parent as usize));
        let x = bases_of(s, base).map_values(|j: int| ids[j]);
        assert(x.drop_last() =~= bases_of(u, base).map_values(|j: int| ids[j])) by {
            assert forall|i: int| 0 <= i < u.len() implies x.drop_last()[i] == bases_of(u, base).map_values(
                |j: int| ids[j],
            )[i] by {
                assert(s.take(i) =~= u.take(i));
            }
        }
        assert(x.last() == ids[bl]) by {
            assert(s.take(u.len() as int) =~= u);
        }
        // The forest before the last tree.
        assert forall|j: int| 0 <= j < forest_count(u) implies plan[base + j] == #[trigger] forest_plan_of(
            u,
            base,
            parent,
        )[j] by {
            assert(forest_plan_of(s, base, parent)[j] == forest_plan_of(u, base, parent)[j]);
        }
        lemma_plan_parents(l, bl, Some(parent as usize));
        assert forall|j: int| 0 <= j < nl implies plan[bl + j] == #[trigger] plan_of(l, bl, Some(parent as usize))[j] by {
            assert(plan[base + (forest_count(u) + j)] == forest_plan_of(s, base, parent)[forest_count(u) + j]);
        }
        assert forall|q: int| 0 <= q < plan.len() && !(base <= q < bl) implies !((#[trigger] plan[q]).parent matches Some(y)
            && base <= y < bl) by {
            if bl <= q < bl + nl {
                assert(plan[q] == plan_of(l, bl, Some(parent as usize))[q - bl]);
            }
        }
        lemma_forest_reads_back(plan, ids, u, base, parent, reads.drop_last());
        // The last tree.
        lemma_forest_plan_parents(u, base, parent);
        assert forall|q: int| 0 <= q < plan.len() && !(bl <= q < bl + nl) implies !((#[trigger] plan[q]).parent matches Some(y)
            && bl <= y < bl + nl) by {
            if base <= q < bl {
                assert(plan[q] == forest_plan_of(u, base, parent)[q - base]);
            }
        }
        lemma_tree_reads_back(plan, ids, l, bl, Some(parent as usize), reads.last());
    }
}

/// The rows written for a tree can be read back: their ids are distinct,
/// the root's id is among them, and no parent link leads round in a circle.
pub proof fn lemma_saved_rows_readable(root: FileNode, ids: Seq<i64>)
    requires
        node_count(root) <= usize::MAX,
        ids.len() == node_count(root),
        ids_rising(ids),
    ensures
        ids_distinct(stored_rows(plan_of(root, 0, None), ids)),
        has_id(stored_rows(plan_of(root, 0, None), ids), ids[0]),
        acyclic(stored_rows(plan_of(root, 0, None), ids)),
{
    let plan = plan_of(root, 0, None);
    let rows = stored_rows(plan, ids);
    lemma_plan_len(root, 0, None);
    lemma_plan_parents(root, 0, None);
    assert(rows[0].id == ids[0]);
    let rank = |x: i64| (i64::MAX - x) as nat;
    assert forall|i: int| 0 <= i < rows.len() implies match (#[trigger] rows[i]).parent_id {
        Some(p) => rank(rows[i].id) < rank(p),
        None => true,
    } by {
        if i > 0 {
            let x = plan[i].parent.unwrap();
            assert(ids[x as int] < ids[i]);
        }
    }
    assert(ranked_by(rows, rank));
}

/// Reading back the rows that saving a tree wrote gives the tree again, ids
/// and categories aside, whatever rising ids the store gave the rows.
pub proof fn lemma_saved_tree_reads_back(root: FileNode, ids: Seq<i64>, read: FileNode)
    requires
        node_count(root) <= usize::MAX,
        ids.len() == node_count(root),
        ids_rising(ids),
        tree_of_rows(stored_rows(plan_of(root, 0, None), ids), ids[0], read),
    ensures
        same_content(root, read),
{
    let plan = plan_of(root, 0, None);
    lemma_plan_len(root, 0, None);
    lemma_plan_parents(root, 0, None);
    assert forall|q: int| 0 <= q < plan.len() implies match (#[trigger] plan[q]).parent {
        Some(x) => x < q,
        None => true,
    } by {
        assert(plan[q] == plan[q]);
    }
    assert forall|j: int| 0 <= j < node_count(root) implies plan[0 + j] == #[trigger] plan_of(root, 0, None)[j] by {
    }
    lemma_tree_reads_back(plan, ids, root, 0, None, read);
}
} // verus!

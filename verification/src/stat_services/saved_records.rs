//! The logic of the saved scans that does not touch the database itself:
//! how paths are compared and matched, how node types are stored, and how
//! the saved rows of a scan become a tree again.

use vstd::prelude::*;
use crate::models::{FileNode, NodeType, node_type_name};
use crate::text::{chars_of, push_char};
use std::collections::HashMap;

verus! {

// ---------------------------------------------------------------------------
// Paths
// ---------------------------------------------------------------------------

/// `s` without the slashes at its end.
pub open spec fn trim_trailing_slashes(s: Seq<char>) -> Seq<char>
    decreases s.len(),
{
    if s.len() > 0 && s.last() == '/' {
        trim_trailing_slashes(s.drop_last())
    } else {
        s
    }
}

/// The form in which paths are compared: the root stays `/`, any other path
/// loses its trailing slashes.
pub open spec fn normalized_path(p: Seq<char>) -> Seq<char> {
    if p == "/"@ {
        "/"@
    } else {
        trim_trailing_slashes(p)
    }
}

/// The SQL `LIKE` pattern that matches the paths strictly below `p`.
pub open spec fn descendant_pattern_of(p: Seq<char>) -> Seq<char> {
    trim_trailing_slashes(normalized_path(p)) + "/%"@
}

proof fn lemma_trim_at(s: Seq<char>, k: int)
    requires
        0 <= k <= s.len(),
        forall|i: int| k <= i < s.len() ==> s[i] == '/',
        k == 0 || s[k - 1] != '/',
    ensures
        trim_trailing_slashes(s) == s.take(k),
    decreases s.len(),
{
    if s.len() > k {
        lemma_trim_at(s.drop_last(), k);
        assert(s.drop_last().take(k) =~= s.take(k));
    } else {
        assert(s.take(k) =~= s);
    }
}

/// The characters of `chars` before position `k`, as a string.
fn string_of_prefix(chars: &Vec<char>, k: usize) -> (r: String)
    requires
        k <= chars@.len(),
    ensures
        r@ == chars@.take(k as int),
{
    let mut r = String::new();
    let mut i: usize = 0;
    while i < k
        invariant
            0 <= i <= k <= chars@.len(),
            r@ == chars@.take(i as int),
        decreases k - i,
    {
        push_char(&mut r, chars[i]);
        assert(chars@.take(i + 1) =~= chars@.take(i as int).push(chars@[i as int]));
        i = i + 1;
    }
    r
}

fn trimmed(s: &str) -> (r: String)
    ensures
        r@ == trim_trailing_slashes(s@),
{
    let chars = chars_of(s);
    let mut k: usize = chars.len();
    while k > 0 && chars[k - 1] == '/'
        invariant
            0 <= k <= chars@.len(),
            chars@ == s@,
            forall|i: int| k <= i < chars@.len() ==> chars@[i] == '/',
        decreases k,
    {
        k = k - 1;
    }
    proof {
        lemma_trim_at(s@, k as int);
    }
    string_of_prefix(&chars, k)
}

fn str_eq(a: &str, b: &str) -> (r: bool)
    ensures
        r == (a@ == b@),
{
    a.to_owned() == b.to_owned()
}

/// The form in which a path is compared with the saved ones.
pub fn normalize_path(path: &str) -> (r: String)
    ensures
        r@ == normalized_path(path@),
{
    if str_eq(path, "/") {
        "/".to_owned()
    } else {
        trimmed(path)
    }
}

/// The pattern that matches the saved paths strictly below `path`.
pub fn descendant_pattern(path: &str) -> (r: String)
    ensures
        r@ == descendant_pattern_of(path@),
{
    let normalized = normalize_path(path);
    let mut r = trimmed(normalized.as_str());
    push_char(&mut r, '/');
    push_char(&mut r, '%');
    proof {
        reveal_strlit("/%");
        assert(r@ =~= descendant_pattern_of(path@));
    }
    r
}

proof fn lemma_trim_idempotent(s: Seq<char>)
    ensures
        trim_trailing_slashes(trim_trailing_slashes(s)) == trim_trailing_slashes(s),
        trim_trailing_slashes(s).len() == 0 || trim_trailing_slashes(s).last() != '/',
    decreases s.len(),
{
    if s.len() > 0 && s.last() == '/' {
        lemma_trim_idempotent(s.drop_last());
    }
}

/// Normalizing a normalized path changes nothing, and a normalized path
/// other than the root does not end with a slash.
pub proof fn lemma_normalize_idempotent(p: Seq<char>)
    ensures
        normalized_path(normalized_path(p)) == normalized_path(p),
        normalized_path(p) != "/"@ ==> normalized_path(p).len() == 0 || normalized_path(p).last() != '/',
{
    lemma_trim_idempotent(p);
    reveal_strlit("/");
    if p != "/"@ && trim_trailing_slashes(p) == "/"@ {
        assert("/"@.last() == '/');
    }
}

// ---------------------------------------------------------------------------
// Node types
// ---------------------------------------------------------------------------

/// The node type stored under a name; an unknown name reads as a file.
pub open spec fn node_type_of_name(s: Seq<char>) -> NodeType {
    if s == "directory"@ {
        NodeType::Directory
    } else if s == "symlink"@ {
        NodeType::Symlink
    } else {
        NodeType::File
    }
}

/// The node type that a stored name stands for.
pub fn parse_node_type(value: &str) -> (t: NodeType)
    ensures
        t == node_type_of_name(value@),
{
    proof {
        reveal_strlit("file");
        reveal_strlit("directory");
        reveal_strlit("symlink");
        assert("file"@.len() == 4 && "directory"@.len() == 9 && "symlink"@.len() == 7);
    }
    if str_eq(value, "file") {
        NodeType::File
    } else if str_eq(value, "directory") {
        NodeType::Directory
    } else if str_eq(value, "symlink") {
        NodeType::Symlink
    } else {
        NodeType::File
    }
}

/// Reading back the name under which a node type is stored gives the node type.
pub proof fn lemma_node_type_name_roundtrip(t: NodeType)
    ensures
        node_type_of_name(node_type_name(t)) == t,
{
    reveal_strlit("file");
    reveal_strlit("directory");
    reveal_strlit("symlink");
    assert("file"@.len() == 4 && "directory"@.len() == 9 && "symlink"@.len() == 7);
}


// ---------------------------------------------------------------------------
// The saved rows of a scan, read back as a tree
// ---------------------------------------------------------------------------

/// A node as the database holds it.
#[derive(Debug, Clone)]
pub struct DbFileNode {
    pub id: i64,
    pub parent_id: Option<i64>,
    pub path: String,
    pub name: String,
    pub extension: Option<String>,
    pub size: u64,
    pub node_type: NodeType,
}

/// The ids of the rows whose parent is `parent`, in the order of the rows.
pub open spec fn child_ids(rows: Seq<DbFileNode>, parent: i64) -> Seq<i64>
    decreases rows.len(),
{
    if rows.len() == 0 {
        Seq::empty()
    } else {
        child_ids(rows.drop_last(), parent) + if rows.last().parent_id == Some(parent) {
            seq![rows.last().id]
        } else {
            Seq::empty()
        }
    }
}

/// No id occurs twice.
pub open spec fn ids_distinct(rows: Seq<DbFileNode>) -> bool {
    forall|i: int, j: int| 0 <= i < j < rows.len() ==> #[trigger] rows[i].id != #[trigger] rows[j].id
}

/// Some row has the id `id`.
pub open spec fn has_id(rows: Seq<DbFileNode>, id: i64) -> bool {
    exists|i: int| 0 <= i < rows.len() && (#[trigger] rows[i]).id == id
}

/// Every link from a row to its parent goes up in `rank`.
pub open spec fn ranked_by(rows: Seq<DbFileNode>, rank: spec_fn(i64) -> nat) -> bool {
    forall|i: int|
        0 <= i < rows.len() ==> match (#[trigger] rows[i]).parent_id {
            Some(p) => rank(rows[i].id) < rank(p),
            None => true,
        }
}

/// Following parents never leads back to where it started.
pub open spec fn acyclic(rows: Seq<DbFileNode>) -> bool {
    exists|rank: spec_fn(i64) -> nat| ranked_by(rows, rank)
}

/// The position of the row with id `id`.
pub open spec fn row_index(rows: Seq<DbFileNode>, id: i64) -> int {
    choose|i: int| 0 <= i < rows.len() && (#[trigger] rows[i]).id == id
}

/// `node` holds the fields of `row`, no category, and children still to be said.
pub open spec fn node_of_row(row: DbFileNode, node: FileNode) -> bool {
    &&& node.id == Some(row.id)
    &&& node.parent_id == row.parent_id
    &&& node.path == row.path
    &&& node.name == row.name
    &&& node.extension == row.extension
    &&& node.size == row.size
    &&& node.node_type == row.node_type
    &&& node.category is None
}

/// `node` is the tree that the rows hold below `id`: the row with that id,
/// with the trees below the rows whose parent it is as children, in the
/// order of the rows.
pub open spec fn tree_of_rows(rows: Seq<DbFileNode>, id: i64, node: FileNode) -> bool
    decreases node,
{
    &&& node_of_row(rows[row_index(rows, id)], node)
    &&& forest_of_rows(rows, child_ids(rows, id), node.children@)
}

/// `tree_of_rows` position by position.
pub open spec fn forest_of_rows(rows: Seq<DbFileNode>, ids: Seq<i64>, nodes: Seq<FileNode>) -> bool
    decreases nodes,
{
    &&& ids.len() == nodes.len()
    &&& nodes.len() > 0 ==> {
        &&& forest_of_rows(rows, ids.drop_last(), nodes.drop_last())
        &&& tree_of_rows(rows, ids.last(), nodes.last())
    }
}

proof fn lemma_child_id_row(rows: Seq<DbFileNode>, parent: i64, k: int)
    requires
        0 <= k < child_ids(rows, parent).len(),
    ensures
        exists|j: int|
            0 <= j < rows.len() && (#[trigger] rows[j]).id == child_ids(rows, parent)[k]
                && rows[j].parent_id == Some(parent),
    decreases rows.len(),
{
    let u = rows.drop_last();
    if k < child_ids(u, parent).len() {
        lemma_child_id_row(u, parent, k);
        let j = choose|j: int|
            0 <= j < u.len() && (#[trigger] u[j]).id == child_ids(u, parent)[k]
                && u[j].parent_id == Some(parent);
        assert(rows[j] == u[j]);
    } else {
        assert(rows[rows.len() - 1] == rows.last());
    }
}

/// The row positions by id, and the ids of the children by parent id, that
/// `rows` give.
pub open spec fn indexes_rows(
    rows: Seq<DbFileNode>,
    positions: Map<i64, usize>,
    children: Map<i64, Vec<i64>>,
) -> bool {
    &&& forall|j: int|
        0 <= j < rows.len() ==> positions.contains_key(#[trigger] rows[j].id) && positions[rows[j].id] == j
    &&& forall|id: i64|
        #[trigger] positions.contains_key(id) ==> (positions[id] as int) < rows.len() && rows[positions[id] as int].id
            == id
    &&& forall|p: i64| #[trigger] children.contains_key(p) ==> children[p]@ == child_ids(rows, p)
    &&& forall|p: i64| !children.contains_key(p) ==> #[trigger] child_ids(rows, p) == Seq::<i64>::empty()
}

/// Indexes the rows: the position of the row of each id, and the ids of the
/// rows under each parent id, in the order of the rows.
fn index_rows(rows: &Vec<DbFileNode>) -> (r: (HashMap<i64, usize>, HashMap<i64, Vec<i64>>))
    requires
        ids_distinct(rows@),
    ensures
        indexes_rows(rows@, r.0@, r.1@),
{
    let mut positions: HashMap<i64, usize> = HashMap::new();
    let mut children: HashMap<i64, Vec<i64>> = HashMap::new();
    let mut i: usize = 0;
    while i < rows.len()
        invariant
            0 <= i <= rows@.len(),
            ids_distinct(rows@),
            indexes_rows(rows@.take(i as int), positions@, children@),
        decreases rows@.len() - i,
    {
        let ghost before = rows@.take(i as int);
        let ghost after = rows@.take(i + 1);
        proof {
            assert(after.drop_last() =~= before);
            assert(after.last() == rows@[i as int]);
        }
        let id = rows[i].id;
        positions.insert(id, i);
        let ghost old_children = children@;
        match rows[i].parent_id {
            Some(p) => {
                let mut kids = match children.remove(&p) {
                    Some(v) => v,
                    None => Vec::new(),
                };
                proof {
                    if old_children.contains_key(p) {
                        assert(kids@ == child_ids(before, p));
                    } else {
                        assert(kids@ =~= child_ids(before, p));
                    }
                }
                kids.push(id);
                children.insert(p, kids);
                proof {
                    assert forall|q: i64| #[trigger] children@.contains_key(q) implies children@[q]@ == child_ids(after, q) by {
                        if q != p {
                            assert(child_ids(after, q) =~= child_ids(before, q));
                        } else {
                            assert(child_ids(after, q) =~= child_ids(before, q).push(id));
                        }
                    }
                    assert forall|q: i64| !children@.contains_key(q) implies #[trigger] child_ids(after, q) == Seq::<i64>::empty() by {
                        assert(q != p);
                        assert(child_ids(after, q) =~= child_ids(before, q));
                    }
                }
            },
            None => {
                proof {
                    assert forall|q: i64| #[trigger] children@.contains_key(q) implies children@[q]@ == child_ids(after, q) by {
                        assert(child_ids(after, q) =~= child_ids(before, q));
                    }
                    assert forall|q: i64| !children@.contains_key(q) implies #[trigger] child_ids(after, q) == Seq::<i64>::empty() by {
                        assert(child_ids(after, q) =~= child_ids(before, q));
                    }
                }
            },
        }
        proof {
            assert forall|j: int| 0 <= j < after.len() implies positions@.contains_key(#[trigger] after[j].id)
                && positions@[after[j].id] == j by {
                if j < i {
                    assert(after[j] == before[j]);
                    assert(rows@[j].id != rows@[i as int].id);
                }
            }
            assert forall|q: i64| #[trigger] positions@.contains_key(q) implies (positions@[q] as int) < after.len()
                && after[positions@[q] as int].id == q by {
                if q != id {
                    assert(after[positions@[q] as int] == before[positions@[q] as int]);
                }
            }
        }
        i = i + 1;
    }
    proof {
        assert(rows@.take(rows@.len() as int) =~= rows@);
    }
    (positions, children)
}

fn build_below(
    node_id: i64,
    rows: &Vec<DbFileNode>,
    positions: &HashMap<i64, usize>,
    children: &HashMap<i64, Vec<i64>>,
    Ghost(rank): Ghost<spec_fn(i64) -> nat>,
) -> (node: FileNode)
    requires
        ids_distinct(rows@),
        has_id(rows@, node_id),
        ranked_by(rows@, rank),
        indexes_rows(rows@, positions@, children@),
    ensures
        tree_of_rows(rows@, node_id, node),
    decreases rank(node_id),
{
    proof {
        let j = choose|j: int| 0 <= j < rows@.len() && (#[trigger] rows@[j]).id == node_id;
        assert(positions@.contains_key(rows@[j].id));
    }
    let i: usize = match positions.get(&node_id) {
        Some(position) => *position,
        None => 0,
    };
    let empty: Vec<i64> = Vec::new();
    let ids: &Vec<i64> = match children.get(&node_id) {
        Some(kids) => kids,
        None => &empty,
    };
    proof {
        if !children@.contains_key(node_id) {
            assert(child_ids(rows@, node_id) == Seq::<i64>::empty());
        }
    }
    let mut kids: Vec<FileNode> = Vec::new();
    let mut k: usize = 0;
    while k < ids.len()
        invariant
            0 <= k <= ids@.len(),
            ids@ == child_ids(rows@, node_id),
            ids_distinct(rows@),
            ranked_by(rows@, rank),
            indexes_rows(rows@, positions@, children@),
            forest_of_rows(rows@, ids@.take(k as int), kids@),
        decreases ids@.len() - k,
    {
        proof {
            lemma_child_id_row(rows@, node_id, k as int);
            let j = choose|j: int|
                0 <= j < rows@.len() && (#[trigger] rows@[j]).id == child_ids(rows@, node_id)[k as int]
                    && rows@[j].parent_id == Some(node_id);
            assert(rank(rows@[j].id) < rank(node_id));
        }
        let child = build_below(ids[k], rows, positions, children, Ghost(rank));
        let ghost before = kids@;
        kids.push(child);
        proof {
            assert(ids@.take(k + 1).drop_last() =~= ids@.take(k as int));
            assert(kids@.drop_last() =~= before);
        }
        k = k + 1;
    }
    proof {
        assert(ids@.take(ids@.len() as int) =~= ids@);
        let j = row_index(rows@, node_id);
        assert(0 <= j < rows@.len() && rows@[j].id == node_id);
        assert(rows@[i as int].id == node_id);
        if j != i {
            if j < i {
                assert(rows@[j].id != rows@[i as int].id);
            } else {
                assert(rows@[i as int].id != rows@[j].id);
            }
        }
    }
    let row = &rows[i];
    FileNode {
        id: Some(row.id),
        parent_id: row.parent_id,
        path: row.path.clone(),
        name: row.name.clone(),
        extension: match &row.extension {
            Some(e) => Some(e.clone()),
            None => None,
        },
        size: row.size,
        node_type: row.node_type,
        children: kids,
        category: None,
    }
}

/// The tree that the saved rows of a scan hold below the node `node_id`.
/// The rows hold each id once, hold `node_id`, and no parent link leads
/// round in a circle. The rows are indexed by id and by parent id first.
pub fn build_tree_from_db_nodes(node_id: i64, rows: &Vec<DbFileNode>) -> (node: FileNode)
    requires
        ids_distinct(rows@),
        has_id(rows@, node_id),
        acyclic(rows@),
    ensures
        tree_of_rows(rows@, node_id, node),
{
    let ghost rank = choose|rank: spec_fn(i64) -> nat| ranked_by(rows@, rank);
    let (positions, children) = index_rows(rows);
    build_below(node_id, rows, &positions, &children, Ghost(rank))
}

/// The ids of the rows rise strictly, row after row.
pub open spec fn ids_rise(rows: Seq<DbFileNode>) -> bool {
    forall|a: int, b: int| 0 <= a < b < rows.len() ==> #[trigger] rows[a].id < #[trigger] rows[b].id
}

/// Every parent id is smaller than the id of its child.
pub open spec fn parents_precede(rows: Seq<DbFileNode>) -> bool {
    forall|a: int| 0 <= a < rows.len() ==> match (#[trigger] rows[a]).parent_id {
        Some(p) => p < rows[a].id,
        None => true,
    }
}

/// Whether the rows can be read back below `root_id`: their ids rise
/// strictly (so none occurs twice), `root_id` is among them, and every
/// parent id is smaller than the id of its child (so no parent link leads
/// round in a circle). Rows saved by a scan are like this.
pub fn rows_readable(rows: &Vec<DbFileNode>, root_id: i64) -> (r: bool)
    ensures
        r == (ids_rise(rows@) && parents_precede(rows@) && has_id(rows@, root_id)),
        r ==> ids_distinct(rows@) && has_id(rows@, root_id) && acyclic(rows@),
{
    let mut found = false;
    let mut i: usize = 0;
    while i < rows.len()
        invariant
            0 <= i <= rows@.len(),
            forall|a: int, b: int| 0 <= a < b < i ==> #[trigger] rows@[a].id < #[trigger] rows@[b].id,
            forall|a: int| 0 <= a < i ==> match (#[trigger] rows@[a]).parent_id {
                Some(p) => p < rows@[a].id,
                None => true,
            },
            found == (exists|a: int| 0 <= a < i && (#[trigger] rows@[a]).id == root_id),
        decreases rows@.len() - i,
    {
        if i > 0 && rows[i - 1].id >= rows[i].id {
            proof {
                assert(!ids_rise(rows@)) by {
                    assert(rows@[i - 1].id >= rows@[i as int].id);
                }
            }
            return false;
        }
        match rows[i].parent_id {
            Some(p) => if p >= rows[i].id {
                proof {
                    assert(!parents_precede(rows@)) by {
                        assert(rows@[i as int].parent_id == Some(p));
                    }
                }
                return false;
            },
            None => {},
        }
        if rows[i].id == root_id {
            found = true;
        }
        proof {
            assert forall|a: int, b: int| 0 <= a < b < i + 1 implies #[trigger] rows@[a].id < #[trigger] rows@[b].id by {
                if b == i && a < i - 1 {
                    assert(rows@[a].id < rows@[i - 1].id);
                }
            }
            if rows@[i as int].id == root_id {
                assert(exists|a: int| 0 <= a < i + 1 && (#[trigger] rows@[a]).id == root_id);
            }
            if found {
                assert(exists|a: int| 0 <= a < i + 1 && (#[trigger] rows@[a]).id == root_id);
            } else {
                assert forall|a: int| 0 <= a < i + 1 implies (#[trigger] rows@[a]).id != root_id by {
                    if a < i {
                        assert(!(0 <= a < i && rows@[a].id == root_id));
                    }
                }
            }
        }
        i = i + 1;
    }
    if !found {
        proof {
            assert(!has_id(rows@, root_id)) by {
                if has_id(rows@, root_id) {
                    let j = choose|j: int| 0 <= j < rows@.len() && (#[trigger] rows@[j]).id == root_id;
                    assert(0 <= j < i && rows@[j].id == root_id);
                }
            }
        }
        return false;
    }
    proof {
        let rank = |x: i64| (i64::MAX - x) as nat;
        assert(ranked_by(rows@, rank));
        let a = choose|a: int| 0 <= a < i && (#[trigger] rows@[a]).id == root_id;
        assert(has_id(rows@, root_id));
    }
    true
}

} // verus!

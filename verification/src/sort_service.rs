//! Stable sorting of sibling nodes by name, by size or by type.

use vstd::prelude::*;
use crate::models::{FileNode, NodeType};
use crate::text::{
    lowercase, to_lowercase, chars_of, lex_less, lex_less_chars, lemma_lex_irreflexive,
    lemma_lex_transitive, lemma_lex_total, lemma_lex_asymmetric,
};

verus! {

/// A sort key as the specifications see it: a rank, then a text.
pub type KeyView = (int, Seq<char>);

/// `a` sorts strictly before `b`: a smaller rank, or the same rank and a text
/// that comes first in lexicographic order.
pub open spec fn key_less(a: KeyView, b: KeyView) -> bool {
    a.0 < b.0 || (a.0 == b.0 && lex_less(a.1, b.1))
}

/// A sort key: nodes are ordered by `rank`, then by `text`.
pub struct SortKey {
    pub rank: u64,
    pub text: Vec<char>,
}

impl View for SortKey {
    type V = KeyView;

    open spec fn view(&self) -> KeyView {
        (self.rank as int, self.text@)
    }
}

pub open spec fn keys_view(keys: Seq<SortKey>) -> Seq<KeyView> {
    keys.map_values(|k: SortKey| k@)
}

/// `output` is `input` rearranged by `pos` (`output[k] == input[pos[k]]`, no
/// position taken twice), in an order where no key comes after a greater
/// one, and where items with equal keys keep their order.
pub open spec fn sorted_arrangement<T>(
    input: Seq<T>,
    keys: Seq<KeyView>,
    output: Seq<T>,
    pos: Seq<int>,
) -> bool {
    &&& keys.len() == input.len()
    &&& output.len() == input.len()
    &&& pos.len() == input.len()
    &&& forall|k: int|
        0 <= k < pos.len() ==> 0 <= #[trigger] pos[k] < input.len() && output[k] == input[pos[k]]
    &&& forall|k1: int, k2: int| 0 <= k1 < k2 < pos.len() ==> #[trigger] pos[k1] != #[trigger] pos[k2]
    &&& forall|k1: int, k2: int|
        0 <= k1 < k2 < pos.len() ==> !key_less(keys[#[trigger] pos[k2]], keys[#[trigger] pos[k1]])
    &&& forall|k1: int, k2: int|
        0 <= k1 < k2 < pos.len() && keys[#[trigger] pos[k1]] == keys[#[trigger] pos[k2]]
            ==> pos[k1] < pos[k2]
}

/// `output` is a stable sort of `input` by the key `key_of`.
pub open spec fn stably_sorted_by(
    input: Seq<FileNode>,
    output: Seq<FileNode>,
    key_of: spec_fn(FileNode) -> KeyView,
) -> bool {
    exists|pos: Seq<int>| sorted_arrangement(input, input.map_values(key_of), output, pos)
}

/// `x` inserted into `s` after every item whose key is not greater than its own.
pub open spec fn insert_sorted<T>(s: Seq<T>, x: T, key_of: spec_fn(T) -> KeyView) -> Seq<T>
    decreases s.len(),
{
    if s.len() == 0 || !key_less(key_of(x), key_of(s.last())) {
        s.push(x)
    } else {
        insert_sorted(s.drop_last(), x, key_of).push(s.last())
    }
}

/// The stable sort of `s` by `key_of`: its items inserted one after the other.
pub open spec fn sort_seq<T>(s: Seq<T>, key_of: spec_fn(T) -> KeyView) -> Seq<T>
    decreases s.len(),
{
    if s.len() == 0 {
        Seq::empty()
    } else {
        insert_sorted(sort_seq(s.drop_last(), key_of), s.last(), key_of)
    }
}

/// Inserting at a position that follows every key not greater than `x`'s and
/// precedes every greater key is `insert_sorted`.
proof fn lemma_insert_at<T>(s: Seq<T>, x: T, key_of: spec_fn(T) -> KeyView, j: int)
    requires
        0 <= j <= s.len(),
        forall|m: int| j <= m < s.len() ==> key_less(key_of(x), key_of(#[trigger] s[m])),
        j > 0 ==> !key_less(key_of(x), key_of(s[j - 1])),
    ensures
        s.insert(j, x) == insert_sorted(s, x, key_of),
    decreases s.len() - j,
{
    if j == s.len() {
        assert(s.insert(j, x) =~= s.push(x));
    } else {
        assert(key_less(key_of(x), key_of(s[s.len() - 1])));
        let t = s.drop_last();
        assert forall|m: int| j <= m < t.len() implies key_less(key_of(x), key_of(#[trigger] t[m])) by {
            assert(t[m] == s[m]);
        }
        if j > 0 {
            assert(t[j - 1] == s[j - 1]);
        }
        lemma_insert_at(t, x, key_of, j);
        assert(s.insert(j, x) =~= t.insert(j, x).push(s.last()));
    }
}

/// The items of `insert_sorted(t, x)` are `x` and the items of `t`.
pub proof fn lemma_insert_sorted_elements<T>(t: Seq<T>, x: T, key_of: spec_fn(T) -> KeyView)
    ensures
        insert_sorted(t, x, key_of).len() == t.len() + 1,
        forall|k: int|
            #![trigger insert_sorted(t, x, key_of)[k]]
            0 <= k < t.len() + 1 ==> insert_sorted(t, x, key_of)[k] == x || exists|j: int|
                0 <= j < t.len() && insert_sorted(t, x, key_of)[k] == #[trigger] t[j],
    decreases t.len(),
{
    if t.len() == 0 || !key_less(key_of(x), key_of(t.last())) {
        assert forall|k: int| #![trigger insert_sorted(t, x, key_of)[k]] 0 <= k < t.len() + 1 implies insert_sorted(t, x, key_of)[k] == x
            || exists|j: int| 0 <= j < t.len() && insert_sorted(t, x, key_of)[k] == #[trigger] t[j] by {
            if k < t.len() {
                assert(insert_sorted(t, x, key_of)[k] == t[k]);
            }
        }
    } else {
        let u = t.drop_last();
        lemma_insert_sorted_elements(u, x, key_of);
        assert forall|k: int| #![trigger insert_sorted(t, x, key_of)[k]] 0 <= k < t.len() + 1 implies insert_sorted(t, x, key_of)[k] == x
            || exists|j: int| 0 <= j < t.len() && insert_sorted(t, x, key_of)[k] == #[trigger] t[j] by {
            if k == t.len() {
                assert(insert_sorted(t, x, key_of)[k] == t[t.len() - 1]);
            } else {
                assert(insert_sorted(t, x, key_of)[k] == insert_sorted(u, x, key_of)[k]);
                if insert_sorted(u, x, key_of)[k] != x {
                    let j = choose|j: int| 0 <= j < u.len() && insert_sorted(u, x, key_of)[k] == #[trigger] u[j];
                    assert(u[j] == t[j]);
                }
            }
        }
    }
}

/// The items of `sort_seq(s)` are items of `s`, as many as `s` has.
pub proof fn lemma_sort_seq_elements<T>(s: Seq<T>, key_of: spec_fn(T) -> KeyView)
    ensures
        sort_seq(s, key_of).len() == s.len(),
        forall|k: int|
            #![trigger sort_seq(s, key_of)[k]]
            0 <= k < s.len() ==> exists|j: int|
                0 <= j < s.len() && sort_seq(s, key_of)[k] == #[trigger] s[j],
    decreases s.len(),
{
    if s.len() > 0 {
        let u = s.drop_last();
        lemma_sort_seq_elements(u, key_of);
        lemma_insert_sorted_elements(sort_seq(u, key_of), s.last(), key_of);
        assert forall|k: int| #![trigger sort_seq(s, key_of)[k]] 0 <= k < s.len() implies exists|j: int|
            0 <= j < s.len() && sort_seq(s, key_of)[k] == #[trigger] s[j] by {
            let v = sort_seq(u, key_of);
            if sort_seq(s, key_of)[k] == s.last() {
                assert(s[s.len() - 1] == s.last());
            } else {
                let j1 = choose|j: int| 0 <= j < v.len() && sort_seq(s, key_of)[k] == #[trigger] v[j];
                let j2 = choose|j: int| 0 <= j < u.len() && v[j1] == #[trigger] u[j];
                assert(u[j2] == s[j2]);
            }
        }
    }
}

/// No item of `s` has a key greater than the key of an item after it.
pub open spec fn in_key_order<T>(s: Seq<T>, key_of: spec_fn(T) -> KeyView) -> bool {
    forall|i: int, j: int| 0 <= i < j < s.len() ==> !key_less(key_of(#[trigger] s[j]), key_of(#[trigger] s[i]))
}

proof fn lemma_sort_seq_of_ordered<T>(s: Seq<T>, key_of: spec_fn(T) -> KeyView)
    requires
        in_key_order(s, key_of),
    ensures
        sort_seq(s, key_of) == s,
    decreases s.len(),
{
    if s.len() > 0 {
        let u = s.drop_last();
        assert forall|i: int, j: int| 0 <= i < j < u.len() implies !key_less(key_of(#[trigger] u[j]), key_of(#[trigger] u[i])) by {
            assert(u[i] == s[i] && u[j] == s[j]);
        }
        lemma_sort_seq_of_ordered(u, key_of);
        if u.len() > 0 {
            assert(u.last() == s[s.len() - 2]);
            assert(s.last() == s[s.len() - 1]);
        }
        assert(u.push(s.last()) =~= s);
    }
}

/// Sorting what a stable sort returned changes nothing: sorting twice by the
/// same key is sorting once.
pub proof fn lemma_sort_idempotent(input: Seq<FileNode>, output: Seq<FileNode>, key_of: spec_fn(FileNode) -> KeyView)
    requires
        stably_sorted_by(input, output, key_of),
    ensures
        sort_seq(output, key_of) == output,
{
    let pos = choose|pos: Seq<int>| sorted_arrangement(input, input.map_values(key_of), output, pos);
    assert forall|i: int, j: int| 0 <= i < j < output.len() implies !key_less(key_of(#[trigger] output[j]), key_of(#[trigger] output[i])) by {
        assert(output[i] == input[pos[i]]);
        assert(output[j] == input[pos[j]]);
        assert(!key_less(input.map_values(key_of)[pos[j]], input.map_values(key_of)[pos[i]]));
    }
    lemma_sort_seq_of_ordered(output, key_of);
}

/// The key that sorts by name, letter case ignored.
pub open spec fn name_key(node: FileNode) -> KeyView {
    (0, lowercase(node.name@))
}

/// The key that sorts by size, largest first.
pub open spec fn size_key(node: FileNode) -> KeyView {
    (u64::MAX - node.size, Seq::empty())
}

/// The order by name, as a key function.
pub open spec fn name_order() -> spec_fn(FileNode) -> KeyView {
    |n: FileNode| name_key(n)
}

/// The order by size, as a key function.
pub open spec fn size_order() -> spec_fn(FileNode) -> KeyView {
    |n: FileNode| size_key(n)
}

/// The order by type, as a key function.
pub open spec fn type_order() -> spec_fn(FileNode) -> KeyView {
    |n: FileNode| type_key(n)
}

/// The place of a node type when sorting by type.
pub open spec fn type_rank(node_type: NodeType) -> int {
    match node_type {
        NodeType::Directory => 0,
        NodeType::File => 1,
        NodeType::Symlink => 2,
    }
}

/// The key that sorts directories first, then files, then symlinks, each
/// group by name with letter case ignored.
pub open spec fn type_key(node: FileNode) -> KeyView {
    (type_rank(node.node_type), lowercase(node.name@))
}

/// An arrangement uses every position of the input: it is a permutation.
pub proof fn lemma_arrangement_onto<T>(
    input: Seq<T>,
    keys: Seq<KeyView>,
    output: Seq<T>,
    pos: Seq<int>,
    i: int,
)
    requires
        sorted_arrangement(input, keys, output, pos),
        0 <= i < input.len(),
    ensures
        exists|k: int| 0 <= k < pos.len() && pos[k] == i,
{
    let n = input.len() as int;
    assert(pos.no_duplicates()) by {
        assert forall|a: int, b: int| 0 <= a < pos.len() && 0 <= b < pos.len() && a != b implies pos[a]
            != pos[b] by {
            if a < b {
                assert(pos[a] != pos[b]);
            } else {
                assert(pos[b] != pos[a]);
            }
        }
    }
    pos.unique_seq_to_set();
    vstd::set_lib::lemma_int_range(0, n);
    let range = vstd::set_lib::set_int_range(0, n);
    assert(pos.to_set().subset_of(range)) by {
        assert forall|x: int| pos.to_set().contains(x) implies range.contains(x) by {
            let k = choose|k: int| 0 <= k < pos.len() && pos[k] == x;
            assert(0 <= pos[k] < n);
        }
    }
    vstd::set_lib::lemma_len_subset(pos.to_set(), range);
    vstd::set_lib::lemma_subset_equality(pos.to_set(), range);
    assert(range.contains(i));
    assert(pos.to_set().contains(i));
}

proof fn lemma_key_irreflexive(a: KeyView)
    ensures
        !key_less(a, a),
{
    lemma_lex_irreflexive(a.1);
}

proof fn lemma_key_transitive(a: KeyView, b: KeyView, c: KeyView)
    requires
        key_less(a, b),
        key_less(b, c),
    ensures
        key_less(a, c),
{
    if a.0 == b.0 && b.0 == c.0 {
        lemma_lex_transitive(a.1, b.1, c.1);
    }
}

/// Not-after is transitive: if `a` is not after `b` and `b` not after `c`, then
/// `a` is not after `c`.
proof fn lemma_key_not_less_transitive(a: KeyView, b: KeyView, c: KeyView)
    requires
        !key_less(b, a),
        !key_less(c, b),
    ensures
        !key_less(c, a),
{
    lemma_lex_total(a.1, b.1);
    lemma_lex_total(b.1, c.1);
    if key_less(c, a) {
        if a == b {
            assert(key_less(c, b));
        } else if b == c {
            assert(key_less(b, a));
        } else {
            assert(key_less(a, b));
            assert(key_less(b, c));
            lemma_key_transitive(a, b, c);
            lemma_key_transitive(c, a, c);
            lemma_key_irreflexive(c);
        }
    }
}

pub(crate) fn key_less_exec(a: &SortKey, b: &SortKey) -> (r: bool)
    ensures
        r == key_less(a@, b@),
{
    if a.rank != b.rank {
        a.rank < b.rank
    } else {
        lex_less_chars(&a.text, &b.text)
    }
}

/// Sorts `items` by `keys` (one key for each item), keeping items with equal
/// keys in their order: each item is inserted after every item whose key is
/// not greater than its own.
pub(crate) fn stable_sort<T>(
    items: Vec<T>,
    keys: Vec<SortKey>,
    Ghost(key_of): Ghost<spec_fn(T) -> KeyView>,
) -> (r: Vec<T>)
    requires
        items@.len() == keys@.len(),
        forall|k: int| 0 <= k < items@.len() ==> (#[trigger] keys@[k])@ == key_of(items@[k]),
    ensures
        exists|pos: Seq<int>| sorted_arrangement(items@, keys_view(keys@), r@, pos),
        r@ == sort_seq(items@, key_of),
{
    let ghost input = items@;
    let ghost kv = keys_view(keys@);
    let n = items.len();
    let mut rest = items;
    let mut rest_keys = keys;
    let mut out: Vec<T> = Vec::new();
    let mut out_keys: Vec<SortKey> = Vec::new();
    let ghost mut pos: Seq<int> = Seq::empty();
    let mut i: usize = 0;
    while i < n
        invariant
            n == input.len(),
            kv.len() == n,
            0 <= i <= n,
            rest@ == input.subrange(i as int, n as int),
            keys_view(rest_keys@) == kv.subrange(i as int, n as int),
            rest_keys@.len() == n - i,
            out@.len() == i,
            out_keys@.len() == i,
            pos.len() == i,
            forall|k: int| 0 <= k < n ==> kv[k] == key_of(#[trigger] input[k]),
            out@ == sort_seq(input.subrange(0, i as int), key_of),
            forall|k: int|
                0 <= k < i ==> 0 <= #[trigger] pos[k] < i && out@[k] == input[pos[k]]
                    && out_keys@[k]@ == kv[pos[k]],
            forall|k1: int, k2: int| 0 <= k1 < k2 < i ==> #[trigger] pos[k1] != #[trigger] pos[k2],
            forall|k1: int, k2: int|
                0 <= k1 < k2 < i ==> !key_less(#[trigger] out_keys@[k2]@, #[trigger] out_keys@[k1]@),
            forall|k1: int, k2: int|
                0 <= k1 < k2 < i && #[trigger] out_keys@[k1]@ == #[trigger] out_keys@[k2]@
                    ==> pos[k1] < pos[k2],
        decreases n - i,
    {
        let ghost old_rk = rest_keys@;
        let x = rest.remove(0);
        let xk = rest_keys.remove(0);
        proof {
            assert(rest@ =~= input.subrange(i + 1, n as int));
            assert forall|k: int| 0 <= k < rest_keys@.len() implies #[trigger] keys_view(rest_keys@)[k]
                == kv.subrange(i + 1, n as int)[k] by {
                assert(rest_keys@[k] == old_rk[k + 1]);
                assert(keys_view(old_rk)[k + 1] == old_rk[k + 1]@);
                assert(kv.subrange(i as int, n as int)[k + 1] == kv[i + 1 + k]);
            }
            assert(keys_view(rest_keys@) =~= kv.subrange(i + 1, n as int));
            assert(xk@ == kv[i as int]) by {
                assert(keys_view(old_rk)[0] == old_rk[0]@);
                assert(kv.subrange(i as int, n as int)[0] == kv[i as int]);
            }
            assert(x == input[i as int]);
        }
        let mut j = out.len();
        while j > 0 && key_less_exec(&xk, &out_keys[j - 1])
            invariant
                0 <= j <= i,
                out_keys@.len() == i,
                forall|m: int| j <= m < i ==> key_less(xk@, #[trigger] out_keys@[m]@),
            decreases j,
        {
            j = j - 1;
        }
        proof {
            // Every key before the insertion point is not greater than `xk`.
            assert forall|m: int| 0 <= m < j implies !key_less(xk@, #[trigger] out_keys@[m]@) by {
                if m < j - 1 {
                    lemma_key_not_less_transitive(out_keys@[m]@, out_keys@[j - 1]@, xk@);
                }
            }
        }
        let ghost old_out = out@;
        let ghost old_keys = out_keys@;
        let ghost old_pos = pos;
        proof {
            assert forall|m: int| 0 <= m < i implies (#[trigger] out_keys@[m])@ == key_of(out@[m]) by {
                assert(out_keys@[m]@ == kv[pos[m]]);
            }
            assert(xk@ == key_of(x));
            assert forall|m: int| j <= m < out@.len() implies key_less(key_of(x), key_of(#[trigger] out@[m])) by {
                assert(key_less(xk@, out_keys@[m]@));
            }
            if j > 0 {
                assert(!key_less(xk@, out_keys@[j - 1]@));
            }
            lemma_insert_at(out@, x, key_of, j as int);
            assert(input.subrange(0, i + 1).drop_last() =~= input.subrange(0, i as int));
            assert(input.subrange(0, i + 1).last() == x);
        }
        out.insert(j, x);
        out_keys.insert(j, xk);
        proof {
            pos = pos.insert(j as int, i as int);
            let jj = j as int;
            assert forall|k: int|
                0 <= k < i + 1 implies 0 <= #[trigger] pos[k] < i + 1 && out@[k] == input[pos[k]]
                && out_keys@[k]@ == kv[pos[k]] by {
                if k < jj {
                    assert(pos[k] == old_pos[k]);
                } else if k > jj {
                    assert(pos[k] == old_pos[k - 1]);
                }
            }
            assert forall|k1: int, k2: int|
                0 <= k1 < k2 < i + 1 implies #[trigger] pos[k1] != #[trigger] pos[k2] by {
                if k1 != jj && k2 != jj {
                    let a = if k1 < jj { k1 } else { k1 - 1 };
                    let b = if k2 < jj { k2 } else { k2 - 1 };
                    assert(old_pos[a] != old_pos[b]);
                }
            }
            assert forall|k1: int, k2: int|
                0 <= k1 < k2 < i + 1 implies !key_less(
                #[trigger] out_keys@[k2]@,
                #[trigger] out_keys@[k1]@,
            ) by {
                if k1 == jj {
                    lemma_key_asym_helper(xk@, old_keys[k2 - 1]@);
                } else if k2 == jj {
                    assert(!key_less(xk@, old_keys[k1]@));
                } else {
                    let a = if k1 < jj { k1 } else { k1 - 1 };
                    let b = if k2 < jj { k2 } else { k2 - 1 };
                    assert(!key_less(old_keys[b]@, old_keys[a]@));
                }
            }
            assert forall|k1: int, k2: int|
                0 <= k1 < k2 < i + 1 && #[trigger] out_keys@[k1]@ == #[trigger] out_keys@[k2]@
                    implies pos[k1] < pos[k2] by {
                if k1 == jj {
                    lemma_key_irreflexive(xk@);
                    assert(key_less(xk@, old_keys[k2 - 1]@));
                } else if k2 == jj {
                    assert(old_pos[k1] < i);
                } else {
                    let a = if k1 < jj { k1 } else { k1 - 1 };
                    let b = if k2 < jj { k2 } else { k2 - 1 };
                    assert(old_keys[a]@ == old_keys[b]@);
                }
            }
        }
        i = i + 1;
    }
    proof {
        assert forall|k1: int, k2: int|
            0 <= k1 < k2 < pos.len() implies !key_less(kv[#[trigger] pos[k2]], kv[#[trigger] pos[k1]]) by {
            assert(!key_less(out_keys@[k2]@, out_keys@[k1]@));
        }
        assert forall|k1: int, k2: int|
            0 <= k1 < k2 < pos.len() && kv[#[trigger] pos[k1]] == kv[#[trigger] pos[k2]]
                implies pos[k1] < pos[k2] by {
            assert(out_keys@[k1]@ == out_keys@[k2]@);
        }
        assert(sorted_arrangement(input, kv, out@, pos));
        assert(input.subrange(0, n as int) =~= input);
    }
    out
}

proof fn lemma_key_asym_helper(a: KeyView, b: KeyView)
    requires
        key_less(a, b),
    ensures
        !key_less(b, a),
{
    if a.0 == b.0 {
        lemma_lex_asymmetric(a.1, b.1);
    }
}

/// Which of the three orders a key is built for.
enum KeyKind {
    Name,
    Size,
    Type,
}

spec fn kind_order(kind: KeyKind) -> spec_fn(FileNode) -> KeyView {
    match kind {
        KeyKind::Name => name_order(),
        KeyKind::Size => size_order(),
        KeyKind::Type => type_order(),
    }
}

spec fn key_for(kind: KeyKind, node: FileNode) -> KeyView {
    kind_order(kind)(node)
}

spec fn keys_of(kind: KeyKind, nodes: Seq<FileNode>) -> Seq<KeyView> {
    nodes.map_values(kind_order(kind))
}

fn lowercase_name_chars(node: &FileNode) -> (v: Vec<char>)
    ensures
        v@ == lowercase(node.name@),
{
    let lower = to_lowercase(node.name.as_str());
    chars_of(lower.as_str())
}

fn compute_keys(nodes: &Vec<FileNode>, kind: KeyKind) -> (keys: Vec<SortKey>)
    ensures
        keys@.len() == nodes@.len(),
        forall|k: int| 0 <= k < nodes@.len() ==> (#[trigger] keys@[k])@ == key_for(kind, nodes@[k]),
{
    let mut keys: Vec<SortKey> = Vec::new();
    let mut i: usize = 0;
    while i < nodes.len()
        invariant
            0 <= i <= nodes@.len(),
            keys@.len() == i,
            forall|k: int| 0 <= k < i ==> (#[trigger] keys@[k])@ == key_for(kind, nodes@[k]),
        decreases nodes@.len() - i,
    {
        let node = &nodes[i];
        let key = match kind {
            KeyKind::Name => SortKey { rank: 0, text: lowercase_name_chars(node) },
            KeyKind::Size => SortKey { rank: u64::MAX - node.size, text: Vec::new() },
            KeyKind::Type => SortKey {
                rank: SortService::node_type_order(&node.node_type) as u64,
                text: lowercase_name_chars(node),
            },
        };
        keys.push(key);
        i = i + 1;
    }
    keys
}

fn sort_by_kind(nodes: Vec<FileNode>, kind: KeyKind) -> (r: Vec<FileNode>)
    ensures
        exists|pos: Seq<int>|
            #[trigger] sorted_arrangement(nodes@, keys_of(kind, nodes@), r@, pos),
        r@ == sort_seq(nodes@, kind_order(kind)),
{
    let keys = compute_keys(&nodes, kind);
    let ghost input = nodes@;
    let r = stable_sort(nodes, keys, Ghost(kind_order(kind)));
    proof {
        assert(keys_view(keys@) =~= keys_of(kind, input));
    }
    r
}

pub struct SortService;

impl SortService {
    /// Sorts nodes by name, ignoring letter case; nodes whose lower-cased
    /// names are equal keep their order.
    pub fn by_name(nodes: Vec<FileNode>) -> (r: Vec<FileNode>)
        ensures
            stably_sorted_by(nodes@, r@, name_order()),
            r@ == sort_seq(nodes@, name_order()),
            forall|i: int, j: int|
                0 <= i < j < r@.len() ==> !lex_less(
                    lowercase(#[trigger] r@[j].name@),
                    lowercase(#[trigger] r@[i].name@),
                ),
    {
        let ghost input = nodes@;
        let r = sort_by_kind(nodes, KeyKind::Name);
        proof {
            let pos = choose|pos: Seq<int>|
                sorted_arrangement(input, keys_of(KeyKind::Name, input), r@, pos);

            assert forall|i: int, j: int| 0 <= i < j < r@.len() implies !lex_less(
                lowercase(#[trigger] r@[j].name@),
                lowercase(#[trigger] r@[i].name@),
            ) by {
                assert(!key_less(name_key(input[pos[j]]), name_key(input[pos[i]])));
            }
        }
        r
    }

    /// Sorts nodes by size, largest first; nodes of equal size keep their order.
    pub fn by_size(nodes: Vec<FileNode>) -> (r: Vec<FileNode>)
        ensures
            stably_sorted_by(nodes@, r@, size_order()),
            r@ == sort_seq(nodes@, size_order()),
            forall|i: int, j: int| 0 <= i < j < r@.len() ==> #[trigger] r@[i].size >= #[trigger] r@[j].size,
    {
        let ghost input = nodes@;
        let r = sort_by_kind(nodes, KeyKind::Size);
        proof {
            let pos = choose|pos: Seq<int>|
                sorted_arrangement(input, keys_of(KeyKind::Size, input), r@, pos);

            assert forall|i: int, j: int| 0 <= i < j < r@.len() implies #[trigger] r@[i].size >= #[trigger] r@[j].size by {
                assert(!key_less(size_key(input[pos[j]]), size_key(input[pos[i]])));
                lemma_lex_irreflexive(Seq::<char>::empty());
            }
        }
        r
    }

    /// Sorts directories first, then files, then symlinks; inside each group by
    /// name, ignoring letter case; nodes with equal keys keep their order.
    pub fn by_type(nodes: Vec<FileNode>) -> (r: Vec<FileNode>)
        ensures
            stably_sorted_by(nodes@, r@, type_order()),
            r@ == sort_seq(nodes@, type_order()),
            forall|i: int, j: int|
                0 <= i < j < r@.len() ==> type_rank(#[trigger] r@[i].node_type) <= type_rank(
                    #[trigger] r@[j].node_type,
                ),
            forall|i: int, j: int|
                0 <= i < j < r@.len() && r@[i].node_type == r@[j].node_type ==> !lex_less(
                    lowercase(#[trigger] r@[j].name@),
                    lowercase(#[trigger] r@[i].name@),
                ),
    {
        let ghost input = nodes@;
        let r = sort_by_kind(nodes, KeyKind::Type);
        proof {
            let pos = choose|pos: Seq<int>|
                sorted_arrangement(input, keys_of(KeyKind::Type, input), r@, pos);

            assert forall|i: int, j: int| 0 <= i < j < r@.len() implies type_rank(#[trigger] r@[i].node_type) <= type_rank(
                #[trigger] r@[j].node_type,
            ) by {
                assert(!key_less(type_key(input[pos[j]]), type_key(input[pos[i]])));
            }
            assert forall|i: int, j: int|
                0 <= i < j < r@.len() && r@[i].node_type == r@[j].node_type implies !lex_less(
                lowercase(#[trigger] r@[j].name@),
                lowercase(#[trigger] r@[i].name@),
            ) by {
                assert(!key_less(type_key(input[pos[j]]), type_key(input[pos[i]])));
            }
        }
        r
    }

    /// The place of a node type when sorting by type.
    fn node_type_order(node_type: &NodeType) -> (r: u8)
        ensures
            r as int == type_rank(*node_type),
    {
        match node_type {
            NodeType::Directory => 0,
            NodeType::File => 1,
            NodeType::Symlink => 2,
        }
    }
}

} // verus!

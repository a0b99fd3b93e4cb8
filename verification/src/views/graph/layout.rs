//! The integer part of the layered layout: which column each node goes to,
//! empty columns closed up, and the initial order of each column. The
//! barycentre sweeps and the vertical alignment that follow work on floating
//! point coordinates and are left to the drawing code.
use vstd::prelude::*;

use crate::text::{lemma_lex_sign_flip, lex_compare, lex_sign};
use crate::views::graph::{column_of, Graph, GraphNode, NodeKind};

verus! {

/// Number of columns of the layered layout, empty ones included.
pub const COLUMN_COUNT: usize = 7;

/// Position of a family in the declaration order of `NodeKind`.
pub open spec fn kind_rank(k: NodeKind) -> int {
    match k {
        NodeKind::Ingress => 0,
        NodeKind::Service => 1,
        NodeKind::Deployment => 2,
        NodeKind::StatefulSet => 3,
        NodeKind::DaemonSet => 4,
        NodeKind::CronJob => 5,
        NodeKind::ReplicaSet => 6,
        NodeKind::Job => 7,
        NodeKind::Pod => 8,
        NodeKind::VolumeClaim => 9,
        NodeKind::ConfigMap => 10,
        NodeKind::Secret => 11,
        NodeKind::Node => 12,
    }
}

fn rank_of(k: NodeKind) -> (r: u8)
    ensures
        r == kind_rank(k),
{
    match k {
        NodeKind::Ingress => 0,
        NodeKind::Service => 1,
        NodeKind::Deployment => 2,
        NodeKind::StatefulSet => 3,
        NodeKind::DaemonSet => 4,
        NodeKind::CronJob => 5,
        NodeKind::ReplicaSet => 6,
        NodeKind::Job => 7,
        NodeKind::Pod => 8,
        NodeKind::VolumeClaim => 9,
        NodeKind::ConfigMap => 10,
        NodeKind::Secret => 11,
        NodeKind::Node => 12,
    }
}

/// The namespace of a node, empty for a cluster node.
pub open spec fn namespace_text(n: GraphNode) -> Seq<char> {
    match n.key.namespace {
        Some(ns) => ns@,
        None => Seq::empty(),
    }
}

/// Order of nodes within a column: namespace, then family, then name.
pub open spec fn key_sign(a: GraphNode, b: GraphNode) -> int {
    let s = lex_sign(namespace_text(a), namespace_text(b));
    if s != 0 {
        s
    } else if kind_rank(a.key.kind) < kind_rank(b.key.kind) {
        -1
    } else if kind_rank(a.key.kind) > kind_rank(b.key.kind) {
        1
    } else {
        lex_sign(a.key.name@, b.key.name@)
    }
}

proof fn lemma_key_sign_flip(a: GraphNode, b: GraphNode)
    ensures
        key_sign(a, b) == -key_sign(b, a),
        -1 <= key_sign(a, b) <= 1,
{
    lemma_lex_sign_flip(namespace_text(a), namespace_text(b));
    lemma_lex_sign_flip(a.key.name@, b.key.name@);
}

fn text_sign(o: &Option<String>, p: &Option<String>) -> (s: i8)
    ensures
        s == lex_sign(
            match *o {
                Some(x) => x@,
                None => Seq::<char>::empty(),
            },
            match *p {
                Some(x) => x@,
                None => Seq::<char>::empty(),
            },
        ),
{
    let a = match o {
        Some(x) => x.as_str(),
        None => "",
    };
    let b = match p {
        Some(x) => x.as_str(),
        None => "",
    };
    proof {
        reveal_strlit("");
        assert(""@ =~= Seq::<char>::empty());
    }
    lex_compare(a, b)
}

fn node_order(a: &GraphNode, b: &GraphNode) -> (s: i8)
    ensures
        s == key_sign(*a, *b),
{
    let s = text_sign(&a.key.namespace, &b.key.namespace);
    if s != 0 {
        return s;
    }
    let ra = rank_of(a.key.kind);
    let rb = rank_of(b.key.kind);
    if ra < rb {
        -1
    } else if ra > rb {
        1
    } else {
        lex_compare(a.key.name.as_str(), b.key.name.as_str())
    }
}

/// Some node of the graph goes to column `c`.
pub open spec fn present(nodes: Seq<GraphNode>, c: int) -> bool {
    exists|i: int| 0 <= i < nodes.len() && column_of(#[trigger] nodes[i].key.kind) == c
}

/// Number of columns below `c` that hold a node: where column `c` is drawn
/// once the empty ones are closed up.
pub open spec fn column_rank(nodes: Seq<GraphNode>, c: int) -> int
    decreases c,
{
    if c <= 0 {
        0
    } else {
        column_rank(nodes, c - 1) + if present(nodes, c - 1) {
            1int
        } else {
            0int
        }
    }
}

/// `order` lists nodes in the order of their keys, stably.
pub open spec fn keys_in_order(nodes: Seq<GraphNode>, order: Seq<usize>) -> bool {
    forall|i: int|
        0 <= i < order.len() - 1 ==> {
            let s = key_sign(nodes[order[i] as int], nodes[#[trigger] order[i + 1] as int]);
            s < 0 || (s == 0 && order[i] < order[i + 1])
        }
}

/// The columns of the layered layout: each node's column once the empty ones
/// are closed up, and the nodes of each column in the order of their keys.
pub open spec fn columns_laid(nodes: Seq<GraphNode>, col: Seq<usize>, columns: Seq<Vec<usize>>) -> bool {
    &&& col.len() == nodes.len()
    &&& forall|i: int| 0 <= i < nodes.len() ==> col[i] == column_rank(nodes, column_of(#[trigger] nodes[i].key.kind) as int)
    &&& columns.len() == column_rank(nodes, COLUMN_COUNT as int)
    &&& forall|c: int, k: usize|
        0 <= c < columns.len() ==> (#[trigger] columns[c]@.contains(k) <==> (k < nodes.len() && col[k as int] == c))
    &&& forall|c: int, a: int, b: int|
        0 <= c < columns.len() && 0 <= a < b < columns[c]@.len() ==> columns[c]@[a] != columns[c]@[b]
    &&& forall|c: int| 0 <= c < columns.len() ==> keys_in_order(nodes, #[trigger] columns[c]@)
}

proof fn lemma_rank_monotone(nodes: Seq<GraphNode>, a: int, b: int)
    requires
        0 <= a <= b,
    ensures
        column_rank(nodes, a) <= column_rank(nodes, b),
        present(nodes, a) && a < b ==> column_rank(nodes, a) < column_rank(nodes, b),
    decreases b - a,
{
    if a < b {
        lemma_rank_monotone(nodes, a, b - 1);
    }
}

/// Column of each node and nodes of each column, for the layered layout.
pub fn layout_columns(graph: &Graph) -> (r: (Vec<usize>, Vec<Vec<usize>>))
    ensures
        columns_laid(graph.nodes@, r.0@, r.1@),
{
    let nodes = &graph.nodes;
    let ghost ns = nodes@;
    // Columns that hold a node.
    let mut used: Vec<bool> = Vec::new();
    let mut c: usize = 0;
    while c < COLUMN_COUNT
        invariant
            c <= COLUMN_COUNT,
            used@.len() == c,
            forall|k: int| 0 <= k < c ==> !used@[k],
        decreases COLUMN_COUNT - c,
    {
        used.push(false);
        c += 1;
    }
    let mut i: usize = 0;
    while i < nodes.len()
        invariant
            i <= ns.len(),
            ns == nodes@,
            used@.len() == COLUMN_COUNT,
            forall|k: int|
                0 <= k < COLUMN_COUNT ==> (used@[k] <==> exists|j: int|
                    0 <= j < i && column_of(#[trigger] ns[j].key.kind) == k),
        decreases ns.len() - i,
    {
        let k = nodes[i].key.kind.column();
        used.set(k, true);
        proof {
            assert forall|m: int| 0 <= m < COLUMN_COUNT implies (used@[m] <==> exists|j: int|
                0 <= j < i + 1 && column_of(#[trigger] ns[j].key.kind) == m) by {
                if m == k {
                    assert(column_of(ns[i as int].key.kind) == m);
                }
                if exists|j: int| 0 <= j < i + 1 && column_of(#[trigger] ns[j].key.kind) == m {
                    let j = choose|j: int| 0 <= j < i + 1 && column_of(#[trigger] ns[j].key.kind) == m;
                    if j < i {
                    } else {
                        assert(m == k);
                    }
                }
            }
        }
        i += 1;
    }
    // Where each column is drawn.
    let mut rank: Vec<usize> = Vec::new();
    let mut count: usize = 0;
    let mut c: usize = 0;
    while c < COLUMN_COUNT
        invariant
            c <= COLUMN_COUNT,
            used@.len() == COLUMN_COUNT,
            forall|k: int| 0 <= k < COLUMN_COUNT ==> (used@[k] <==> present(ns, k)),
            rank@.len() == c,
            count == column_rank(ns, c as int),
            count <= c,
            forall|k: int| 0 <= k < c ==> rank@[k] == column_rank(ns, k),
        decreases COLUMN_COUNT - c,
    {
        rank.push(count);
        if used[c] {
            count += 1;
        }
        c += 1;
    }
    let mut col: Vec<usize> = Vec::new();
    let mut i: usize = 0;
    while i < nodes.len()
        invariant
            i <= ns.len(),
            ns == nodes@,
            rank@.len() == COLUMN_COUNT,
            forall|k: int| 0 <= k < COLUMN_COUNT ==> rank@[k] == column_rank(ns, k),
            col@.len() == i,
            forall|j: int| 0 <= j < i ==> col@[j] == column_rank(ns, column_of(#[trigger] ns[j].key.kind) as int),
        decreases ns.len() - i,
    {
        col.push(rank[nodes[i].key.kind.column()]);
        i += 1;
    }
    // The nodes of each column, in the order of their keys.
    let mut columns: Vec<Vec<usize>> = Vec::new();
    let mut c: usize = 0;
    while c < count
        invariant
            c <= count,
            count == column_rank(ns, COLUMN_COUNT as int),
            ns == nodes@,
            col@.len() == ns.len(),
            columns@.len() == c,
            forall|d: int, k: usize|
                0 <= d < c ==> (#[trigger] columns@[d]@.contains(k) <==> (k < ns.len() && col@[k as int] == d)),
            forall|d: int, a: int, b: int|
                0 <= d < c && 0 <= a < b < columns@[d]@.len() ==> columns@[d]@[a] != columns@[d]@[b],
            forall|d: int| 0 <= d < c ==> keys_in_order(ns, #[trigger] columns@[d]@),
        decreases count - c,
    {
        let members = column_members(nodes, &col, c);
        columns.push(members);
        c += 1;
    }
    proof {
        assert forall|j: int| 0 <= j < ns.len() implies col@[j] == column_rank(
            ns,
            column_of(#[trigger] ns[j].key.kind) as int,
        ) by {}
    }
    (col, columns)
}

/// The nodes whose column is `c`, in the order of their keys.
fn column_members(nodes: &Vec<GraphNode>, col: &Vec<usize>, c: usize) -> (v: Vec<usize>)
    requires
        col@.len() == nodes@.len(),
    ensures
        forall|k: usize| #[trigger] v@.contains(k) <==> (k < nodes@.len() && col@[k as int] == c),
        forall|a: int, b: int| 0 <= a < b < v@.len() ==> v@[a] != v@[b],
        keys_in_order(nodes@, v@),
{
    let ghost ns = nodes@;
    let mut v: Vec<usize> = Vec::new();
    let mut i: usize = 0;
    while i < nodes.len()
        invariant
            i <= ns.len(),
            ns == nodes@,
            col@.len() == ns.len(),
            forall|j: int| 0 <= j < v@.len() ==> v@[j] < i,
            forall|k: usize| #[trigger] v@.contains(k) <==> (k < i && col@[k as int] == c),
            forall|a: int, b: int| 0 <= a < b < v@.len() ==> v@[a] != v@[b],
            keys_in_order(ns, v@),
        decreases ns.len() - i,
    {
        let ghost pre = v@;
        if col[i] == c {
            let mut pos = v.len();
            while pos > 0 && node_order(&nodes[v[pos - 1]], &nodes[i]) > 0
                invariant
                    pos <= v@.len(),
                    i < ns.len(),
                    ns == nodes@,
                    v@ == pre,
                    forall|j: int| 0 <= j < v@.len() ==> v@[j] < i,
                    forall|j: int| pos <= j < v@.len() ==> key_sign(ns[v@[j] as int], ns[i as int]) > 0,
                decreases pos,
            {
                pos -= 1;
            }
            v.insert(pos, i);
            proof {
                let after = v@;
                assert forall|j: int| 0 <= j < after.len() - 1 implies {
                    let s = key_sign(ns[after[j] as int], ns[#[trigger] after[j + 1] as int]);
                    s < 0 || (s == 0 && after[j] < after[j + 1])
                } by {
                    if j < pos as int - 1 {
                        assert(after[j] == pre[j]);
                        assert(after[j + 1] == pre[j + 1]);
                    } else if j == pos as int - 1 {
                        assert(after[j] == pre[j]);
                        assert(after[j + 1] == i);
                    } else if j == pos {
                        assert(after[j] == i);
                        assert(after[j + 1] == pre[j]);
                        lemma_key_sign_flip(ns[pre[j] as int], ns[i as int]);
                    } else {
                        assert(after[j] == pre[j - 1]);
                        assert(after[j + 1] == pre[j]);
                        let t = j - 1;
                        assert(pre[t + 1] == pre[j]);
                    }
                }
                assert forall|a: int, b: int| 0 <= a < b < after.len() implies after[a] != after[b] by {
                    if a < pos && b < pos {
                    } else if a < pos && b == pos {
                    } else if a < pos {
                        assert(after[b] == pre[b - 1]);
                    } else if a == pos {
                        assert(after[b] == pre[b - 1]);
                    } else {
                        assert(after[a] == pre[a - 1]);
                        assert(after[b] == pre[b - 1]);
                    }
                }
                assert forall|k: usize| #[trigger] after.contains(k) <==> (k < i + 1 && col@[k as int] == c) by {
                    if after.contains(k) {
                        let j = choose|j: int| 0 <= j < after.len() && after[j] == k;
                        if j < pos {
                            assert(pre[j] == k);
                            assert(pre.contains(k));
                        } else if j > pos {
                            assert(pre[j - 1] == k);
                            assert(pre.contains(k));
                        }
                    }
                    if k < i && col@[k as int] == c {
                        assert(pre.contains(k));
                        let j = choose|j: int| 0 <= j < pre.len() && pre[j] == k;
                        if j < pos {
                            assert(after[j] == k);
                        } else {
                            assert(after[j + 1] == k);
                        }
                    }
                    if k == i {
                        assert(after[pos as int] == k);
                    }
                }
            }
        } else {
            proof {
                assert forall|k: usize| #[trigger] v@.contains(k) <==> (k < i + 1 && col@[k as int] == c) by {
                    if k == i {
                        if v@.contains(k) {
                            let j = choose|j: int| 0 <= j < v@.len() && v@[j] == k;
                        }
                    }
                }
            }
        }
        i += 1;
    }
    v
}

} // verus!

//! Construction of the topology graph from a snapshot of objects, and the
//! state of the screen that asks for the snapshot.
use vstd::prelude::*;

use crate::text::{opt_view, same_opt_text, same_text};
use crate::views::graph::{
    adjacency_matches, default_layers, drawn_from, edges_distinct, graph_wf, edges_valid, keys_unique, kind_of_name, key_of,
    layer_shows, neighbours, placeholder_of, EdgeKind, Graph, GraphEdge, GraphNode, KeyView, Layers,
    LayoutMode, NodeKey, NodeKind, ObjectSummary, OwnerRef,
};

verus! {

// ---------------------------------------------------------------------------
// Selectors
// ---------------------------------------------------------------------------

/// Value of the first label named `k`.
pub open spec fn label_value(labels: Seq<(String, String)>, k: Seq<char>) -> Option<Seq<char>>
    decreases labels.len(),
{
    if labels.len() == 0 {
        None
    } else if labels[0].0@ == k {
        Some(labels[0].1@)
    } else {
        label_value(labels.drop_first(), k)
    }
}

/// True when every pair of a non-empty selector is found in the labels; a
/// value that is not a string matches nothing.
pub open spec fn selector_holds(selector: Seq<(String, Option<String>)>, labels: Seq<(String, String)>) -> bool {
    &&& selector.len() > 0
    &&& forall|i: int|
        0 <= i < selector.len() ==> (#[trigger] selector[i]).1 is Some && label_value(labels, selector[i].0@)
            == Some(selector[i].1->0@)
}

fn find_label(labels: &Vec<(String, String)>, k: &String) -> (r: Option<usize>)
    ensures
        match r {
            Some(i) => i < labels@.len() && label_value(labels@, k@) == Some(labels@[i as int].1@),
            None => label_value(labels@, k@) is None,
        },
{
    let mut i: usize = 0;
    assert(labels@.skip(0) == labels@);
    while i < labels.len()
        invariant
            i <= labels@.len(),
            label_value(labels@, k@) == label_value(labels@.skip(i as int), k@),
        decreases labels@.len() - i,
    {
        assert(labels@.skip(i as int).drop_first() == labels@.skip(i + 1));
        if same_text(labels[i].0.as_str(), k.as_str()) {
            return Some(i);
        }
        i += 1;
    }
    None
}

/// True when every pair of the selector is found in the labels.
///
/// An empty selector selects nothing: that is how a service without a
/// selector behaves (headless, `ExternalName`).
pub fn selector_matches(selector: &Vec<(String, Option<String>)>, labels: &Vec<(String, String)>) -> (b: bool)
    ensures
        b == selector_holds(selector@, labels@),
{
    if selector.len() == 0 {
        return false;
    }
    let mut i: usize = 0;
    while i < selector.len()
        invariant
            i <= selector@.len(),
            forall|j: int|
                0 <= j < i ==> (#[trigger] selector@[j]).1 is Some && label_value(labels@, selector@[j].0@)
                    == Some(selector@[j].1->0@),
        decreases selector@.len() - i,
    {
        let wanted = match &selector[i].1 {
            Some(v) => v,
            None => {
                return false;
            },
        };
        match find_label(labels, &selector[i].0) {
            Some(at) => {
                if !same_text(labels[at].1.as_str(), wanted.as_str()) {
                    return false;
                }
            },
            None => {
                return false;
            },
        }
        i += 1;
    }
    true
}

// ---------------------------------------------------------------------------
// Objects of the snapshot
// ---------------------------------------------------------------------------

/// Family under which a listed object is drawn, `None` when it is not drawn.
pub open spec fn family(o: ObjectSummary) -> Option<NodeKind> {
    kind_of_name(o.kind@)
}

/// Key of object `j` of the snapshot.
pub open spec fn vkey(objs: Seq<ObjectSummary>, j: int) -> KeyView {
    key_of(family(objs[j])->0, opt_view(objs[j].namespace), objs[j].name@)
}

/// True when object `j` is drawn and carries key `kv`.
pub open spec fn listed_as(objs: Seq<ObjectSummary>, j: int, kv: KeyView) -> bool {
    family(objs[j]) == Some(kv.0) && key_of(kv.0, opt_view(objs[j].namespace), objs[j].name@) == kv
}

/// The last of the first `n` objects listed under `kv`.
pub open spec fn last_listed(objs: Seq<ObjectSummary>, kv: KeyView, n: int) -> Option<int>
    decreases n,
{
    if n <= 0 {
        None
    } else if listed_as(objs, n - 1, kv) {
        Some(n - 1)
    } else {
        last_listed(objs, kv, n - 1)
    }
}

/// The object listed under `kv`; when several are, the last one.
pub open spec fn lookup(objs: Seq<ObjectSummary>, kv: KeyView) -> Option<int> {
    last_listed(objs, kv, objs.len() as int)
}

/// An index as an integer.
pub open spec fn as_int(o: Option<usize>) -> Option<int> {
    match o {
        Some(i) => Some(i as int),
        None => None,
    }
}

/// The families of the objects, in order.
pub open spec fn families_of(objs: Seq<ObjectSummary>, kinds: Seq<Option<NodeKind>>) -> bool {
    &&& kinds.len() == objs.len()
    &&& forall|j: int| 0 <= j < objs.len() ==> #[trigger] kinds[j] == family(objs[j])
}

fn object_kinds(objects: &[ObjectSummary]) -> (r: Vec<Option<NodeKind>>)
    ensures
        families_of(objects@, r@),
{
    let mut r: Vec<Option<NodeKind>> = Vec::new();
    let mut j: usize = 0;
    while j < objects.len()
        invariant
            j <= objects@.len(),
            r@.len() == j,
            forall|k: int| 0 <= k < j ==> #[trigger] r@[k] == family(objects@[k]),
        decreases objects@.len() - j,
    {
        r.push(NodeKind::from_kind(objects[j].kind.as_str()));
        j += 1;
    }
    r
}

proof fn lemma_last_listed(objs: Seq<ObjectSummary>, kv: KeyView, n: int)
    requires
        0 <= n <= objs.len(),
    ensures
        last_listed(objs, kv, n) matches Some(j) ==> 0 <= j < n && listed_as(objs, j, kv),
    decreases n,
{
    if n > 0 {
        lemma_last_listed(objs, kv, n - 1);
    }
}

/// The object listed under the key built from `kind`, `ns` and `name`.
fn find_object(
    objects: &[ObjectSummary],
    kinds: &Vec<Option<NodeKind>>,
    kind: NodeKind,
    ns: &Option<String>,
    name: &String,
) -> (r: Option<usize>)
    requires
        families_of(objects@, kinds@),
    ensures
        as_int(r) == lookup(objects@, key_of(kind, opt_view(*ns), name@)),
        r matches Some(j) ==> j < objects@.len() && listed_as(objects@, j as int, key_of(kind, opt_view(*ns), name@)),
{
    let ghost kv = key_of(kind, opt_view(*ns), name@);
    let mut j: usize = objects.len();
    while j > 0
        invariant
            j <= objects@.len(),
            families_of(objects@, kinds@),
            kv == key_of(kind, opt_view(*ns), name@),
            lookup(objects@, kv) == last_listed(objects@, kv, j as int),
        decreases j,
    {
        let o = &objects[j - 1];
        let same_ns = kind == NodeKind::Node || same_opt_text(&o.namespace, ns);
        if kinds[j - 1] == Some(kind) && same_ns && same_text(o.name.as_str(), name.as_str()) {
            proof {
                assert(listed_as(objects@, j - 1, kv));
            }
            return Some(j - 1);
        }
        proof {
            assert(!listed_as(objects@, j - 1, kv));
        }
        j -= 1;
    }
    None
}

/// Pod `p` names, through its owner `w`, the ReplicaSet listed as object `j`.
pub open spec fn pod_owned_by(objs: Seq<ObjectSummary>, p: int, w: int, j: int) -> bool {
    &&& 0 <= p < objs.len()
    &&& family(objs[p]) == Some(NodeKind::Pod)
    &&& 0 <= w < objs[p].owners@.len()
    &&& objs[p].owners@[w].kind@ == "ReplicaSet"@
    &&& lookup(objs, key_of(NodeKind::ReplicaSet, opt_view(objs[p].namespace), objs[p].owners@[w].name@))
        == Some(j)
}

/// True when some pod of the snapshot belongs to the ReplicaSet `j`.
pub open spec fn has_pods(objs: Seq<ObjectSummary>, j: int) -> bool {
    exists|p: int, w: int| #[trigger] pod_owned_by(objs, p, w, j)
}

/// True when some owner of `o` is its managing controller.
pub open spec fn controlled(o: ObjectSummary) -> bool {
    exists|w: int| 0 <= w < o.owners@.len() && (#[trigger] o.owners@[w]).controller
}

/// True when object `j` gets a node of its own.
///
/// A ReplicaSet without controller is always drawn: it is the workload. Else
/// a hidden family is not drawn, and a shown ReplicaSet is drawn when it owns
/// a pod or wants replicas (each rollout leaves empty ones behind).
pub open spec fn visible(objs: Seq<ObjectSummary>, layers: Layers, j: int) -> bool {
    match family(objs[j]) {
        None => false,
        Some(k) => if k == NodeKind::ReplicaSet && !controlled(objs[j]) {
            true
        } else if !layer_shows(layers, k) {
            false
        } else if k == NodeKind::ReplicaSet {
            has_pods(objs, j) || objs[j].desired > 0
        } else {
            true
        },
    }
}

fn replica_sets_with_pods(objects: &[ObjectSummary], kinds: &Vec<Option<NodeKind>>) -> (r: Vec<bool>)
    requires
        families_of(objects@, kinds@),
    ensures
        r@.len() == objects@.len(),
        forall|j: int| 0 <= j < objects@.len() ==> #[trigger] r@[j] == has_pods(objects@, j),
{
    let n = objects.len();
    let mut r: Vec<bool> = Vec::new();
    let mut j: usize = 0;
    while j < n
        invariant
            j <= n == objects@.len(),
            r@.len() == j,
            forall|k: int| 0 <= k < j ==> !r@[k],
        decreases n - j,
    {
        r.push(false);
        j += 1;
    }
    let mut p: usize = 0;
    while p < n
        invariant
            p <= n == objects@.len(),
            families_of(objects@, kinds@),
            r@.len() == n,
            forall|j: int|
                0 <= j < n ==> (#[trigger] r@[j] <==> exists|p2: int, w: int|
                    p2 < p && #[trigger] pod_owned_by(objects@, p2, w, j)),
        decreases n - p,
    {
        if kinds[p] == Some(NodeKind::Pod) {
            let owners = &objects[p].owners;
            let mut w: usize = 0;
            while w < owners.len()
                invariant
                    p < n == objects@.len(),
                    families_of(objects@, kinds@),
                    kinds@[p as int] == Some(NodeKind::Pod),
                    owners == objects@[p as int].owners,
                    w <= owners@.len(),
                    r@.len() == n,
                    forall|j: int|
                        0 <= j < n ==> (#[trigger] r@[j] <==> (exists|p2: int, w2: int|
                            p2 < p && #[trigger] pod_owned_by(objects@, p2, w2, j)) || exists|w2: int|
                            w2 < w && #[trigger] pod_owned_by(objects@, p as int, w2, j)),
                decreases owners@.len() - w,
            {
                if same_text(owners[w].kind.as_str(), "ReplicaSet") {
                    let found = find_object(objects, kinds, NodeKind::ReplicaSet, &objects[p].namespace, &owners[w].name);
                    if let Some(i) = found {
                        proof {
                            assert(pod_owned_by(objects@, p as int, w as int, i as int));
                        }
                        r.set(i, true);
                    }
                }
                proof {
                    assert forall|j: int| 0 <= j < n && #[trigger] pod_owned_by(objects@, p as int, w as int, j) implies r@[j] by {
                    }
                }
                w += 1;
            }
        }
        p += 1;
    }
    r
}

fn has_controller(owners: &Vec<OwnerRef>) -> (b: bool)
    ensures
        b == exists|w: int| 0 <= w < owners@.len() && (#[trigger] owners@[w]).controller,
{
    let mut w: usize = 0;
    while w < owners.len()
        invariant
            w <= owners@.len(),
            forall|k: int| 0 <= k < w ==> !(#[trigger] owners@[k]).controller,
        decreases owners@.len() - w,
    {
        if owners[w].controller {
            return true;
        }
        w += 1;
    }
    false
}

fn visibility(objects: &[ObjectSummary], kinds: &Vec<Option<NodeKind>>, layers: &Layers) -> (r: Vec<bool>)
    requires
        families_of(objects@, kinds@),
    ensures
        r@.len() == objects@.len(),
        forall|j: int| 0 <= j < objects@.len() ==> #[trigger] r@[j] == visible(objects@, *layers, j),
{
    let with_pods = replica_sets_with_pods(objects, kinds);
    let mut r: Vec<bool> = Vec::new();
    let mut j: usize = 0;
    while j < objects.len()
        invariant
            j <= objects@.len(),
            families_of(objects@, kinds@),
            with_pods@.len() == objects@.len(),
            forall|k: int| 0 <= k < objects@.len() ==> #[trigger] with_pods@[k] == has_pods(objects@, k),
            r@.len() == j,
            forall|k: int| 0 <= k < j ==> #[trigger] r@[k] == visible(objects@, *layers, k),
        decreases objects@.len() - j,
    {
        let v = match kinds[j] {
            None => false,
            Some(k) => if k == NodeKind::ReplicaSet && !has_controller(&objects[j].owners) {
                true
            } else if !layers.shows(k) {
                false
            } else if k == NodeKind::ReplicaSet {
                with_pods[j] || objects[j].desired > 0
            } else {
                true
            },
        };
        r.push(v);
        j += 1;
    }
    r
}

// ---------------------------------------------------------------------------
// Growing a graph
// ---------------------------------------------------------------------------

/// Adds a node, or gives the index of the node that already has its key.
fn push_node(g: &mut Graph, node: GraphNode) -> (i: usize)
    requires
        keys_unique(old(g).nodes@),
    ensures
        keys_unique(final(g).nodes@),
        i < final(g).nodes@.len(),
        final(g).nodes@[i as int].key@ == node.key@,
        final(g).edges == old(g).edges,
        final(g).adjacency == old(g).adjacency,
        (exists|j: int| 0 <= j < old(g).nodes@.len() && #[trigger] old(g).nodes@[j].key@ == node.key@) ==> (
        final(g).nodes@ == old(g).nodes@),
        (forall|j: int| 0 <= j < old(g).nodes@.len() ==> #[trigger] old(g).nodes@[j].key@ != node.key@) ==> (
        final(g).nodes@ == old(g).nodes@.push(node)),
{
    match g.position(&node.key) {
        Some(i) => i,
        None => {
            let i = g.nodes.len();
            g.nodes.push(node);
            proof {
                assert forall|a: int, b: int| 0 <= a < b < g.nodes@.len() implies #[trigger] g.nodes@[a].key@
                    != #[trigger] g.nodes@[b].key@ by {
                    if b == i {
                        assert(g.nodes@[a] == old(g).nodes@[a]);
                    } else {
                        assert(g.nodes@[a] == old(g).nodes@[a]);
                        assert(g.nodes@[b] == old(g).nodes@[b]);
                    }
                }
            }
            i
        },
    }
}

/// Adds a link, unless it would loop on one node.
fn link(g: &mut Graph, from: usize, to: usize, kind: EdgeKind)
    ensures
        final(g).nodes == old(g).nodes,
        final(g).adjacency == old(g).adjacency,
        from != to ==> final(g).edges@ == old(g).edges@.push(GraphEdge { from, to, kind }),
        from == to ==> final(g).edges@ == old(g).edges@,
{
    if from != to {
        g.edges.push(GraphEdge { from, to, kind });
    }
}

// ---------------------------------------------------------------------------
// What the graph holds
// ---------------------------------------------------------------------------

/// A link read as keys: source, target, nature.
pub type EdgeView = (KeyView, KeyView, EdgeKind);

/// The keys and nature of a link.
pub open spec fn edge_keys(nodes: Seq<GraphNode>, e: GraphEdge) -> EdgeView {
    (nodes[e.from as int].key@, nodes[e.to as int].key@, e.kind)
}

/// True when the graph holds a link from `t.0` to `t.1` of nature `t.2`.
pub open spec fn has_edge(g: Graph, t: EdgeView) -> bool {
    exists|e: int| 0 <= e < g.edges@.len() && edge_keys(g.nodes@, #[trigger] g.edges@[e]) == t
}

/// Object `p` is a drawn pod.
pub open spec fn pod_drawn(objs: Seq<ObjectSummary>, layers: Layers, p: int) -> bool {
    0 <= p < objs.len() && visible(objs, layers, p) && family(objs[p]) == Some(NodeKind::Pod)
}

/// First owner of the first `n` that is the managing controller.
pub open spec fn first_controller(owners: Seq<OwnerRef>, n: int) -> Option<int>
    decreases n,
{
    if n <= 0 {
        None
    } else {
        match first_controller(owners, n - 1) {
            Some(w) => Some(w),
            None => if owners[n - 1].controller {
                Some(n - 1)
            } else {
                None
            },
        }
    }
}

/// The owner followed upwards: the controller, or else the first owner.
pub open spec fn followed_owner(owners: Seq<OwnerRef>) -> Option<int> {
    match first_controller(owners, owners.len() as int) {
        Some(w) => Some(w),
        None => if owners.len() > 0 {
            Some(0)
        } else {
            None
        },
    }
}

/// The listed object that owns object `idx`, through its followed owner.
pub open spec fn parent_of(objs: Seq<ObjectSummary>, idx: int) -> Option<int> {
    let o = objs[idx];
    match followed_owner(o.owners@) {
        None => None,
        Some(w) => match kind_of_name(o.owners@[w].kind@) {
            None => None,
            Some(wk) => lookup(objs, key_of(wk, opt_view(o.namespace), o.owners@[w].name@)),
        },
    }
}

/// The first drawn object met when climbing from `cur` up the owners, at most
/// three steps up.
pub open spec fn climb(objs: Seq<ObjectSummary>, layers: Layers, cur: Option<int>, depth: int) -> Option<int>
    decreases 3 - depth,
{
    match cur {
        None => None,
        Some(idx) => if !(0 <= idx < objs.len()) {
            None
        } else if visible(objs, layers, idx) {
            Some(idx)
        } else if depth >= 3 {
            None
        } else {
            climb(objs, layers, parent_of(objs, idx), depth + 1)
        },
    }
}

/// The drawn object that stands as owner `w` of object `c`: the owner
/// itself, or its first drawn ancestor when it is hidden. Nodes owning static
/// pods are left out: the scheduling link says it already.
pub open spec fn owner_drawn(objs: Seq<ObjectSummary>, layers: Layers, c: int, w: int) -> Option<int> {
    let o = objs[c];
    match kind_of_name(o.owners@[w].kind@) {
        None => None,
        Some(ok) => if ok == NodeKind::Node {
            None
        } else {
            climb(objs, layers, lookup(objs, key_of(ok, opt_view(o.namespace), o.owners@[w].name@)), 0)
        },
    }
}

/// Object `p` is drawn as the owner `w` of the drawn object `c`.
pub open spec fn owns_pair(objs: Seq<ObjectSummary>, layers: Layers, c: int, w: int, p: int) -> bool {
    &&& 0 <= c < objs.len()
    &&& visible(objs, layers, c)
    &&& 0 <= w < objs[c].owners@.len()
    &&& owner_drawn(objs, layers, c, w) == Some(p)
    &&& vkey(objs, p) != vkey(objs, c)
}

/// The drawn service `s` selects the drawn pod `p` of its namespace.
pub open spec fn selects_pair(objs: Seq<ObjectSummary>, layers: Layers, s: int, p: int) -> bool {
    &&& layers.services
    &&& layers.pods
    &&& 0 <= s < objs.len()
    &&& visible(objs, layers, s)
    &&& family(objs[s]) == Some(NodeKind::Service)
    &&& pod_drawn(objs, layers, p)
    &&& opt_view(objs[s].namespace) == opt_view(objs[p].namespace)
    &&& objs[s].selector matches Some(sel) && selector_holds(sel@, objs[p].labels@)
}

/// The drawn ingress `i` routes to its backend `b`.
pub open spec fn routes_pair(objs: Seq<ObjectSummary>, layers: Layers, i: int, b: int) -> bool {
    &&& layers.ingress
    &&& layers.services
    &&& 0 <= i < objs.len()
    &&& visible(objs, layers, i)
    &&& family(objs[i]) == Some(NodeKind::Ingress)
    &&& 0 <= b < objs[i].backends@.len()
}

/// Key of the service that backend `b` of ingress `i` names.
pub open spec fn backend_key(objs: Seq<ObjectSummary>, i: int, b: int) -> KeyView {
    key_of(NodeKind::Service, opt_view(objs[i].namespace), objs[i].backends@[b]@)
}

/// The drawn pod `p` runs on a named node.
pub open spec fn scheduled(objs: Seq<ObjectSummary>, layers: Layers, p: int) -> bool {
    &&& layers.nodes
    &&& pod_drawn(objs, layers, p)
    &&& objs[p].node matches Some(n) && n@.len() > 0
}

/// Key of the node pod `p` runs on.
pub open spec fn host_key(objs: Seq<ObjectSummary>, p: int) -> KeyView {
    key_of(NodeKind::Node, None, objs[p].node->0@)
}

/// The drawn pod `p` mounts its claim `c`.
pub open spec fn mounts_pair(objs: Seq<ObjectSummary>, layers: Layers, p: int, c: int) -> bool {
    layers.storage && pod_drawn(objs, layers, p) && 0 <= c < objs[p].volume_claims@.len()
}

/// Key of claim `c` of pod `p`.
pub open spec fn claim_key(objs: Seq<ObjectSummary>, p: int, c: int) -> KeyView {
    key_of(NodeKind::VolumeClaim, opt_view(objs[p].namespace), objs[p].volume_claims@[c]@)
}

/// The drawn pod `p` uses its ConfigMap `c`.
pub open spec fn uses_config(objs: Seq<ObjectSummary>, layers: Layers, p: int, c: int) -> bool {
    layers.config && pod_drawn(objs, layers, p) && 0 <= c < objs[p].config_maps@.len()
}

/// Key of ConfigMap `c` of pod `p`.
pub open spec fn config_key(objs: Seq<ObjectSummary>, p: int, c: int) -> KeyView {
    key_of(NodeKind::ConfigMap, opt_view(objs[p].namespace), objs[p].config_maps@[c]@)
}

/// The drawn pod `p` uses its Secret `c`.
pub open spec fn uses_secret(objs: Seq<ObjectSummary>, layers: Layers, p: int, c: int) -> bool {
    layers.config && pod_drawn(objs, layers, p) && 0 <= c < objs[p].secrets@.len()
}

/// Key of Secret `c` of pod `p`.
pub open spec fn secret_key(objs: Seq<ObjectSummary>, p: int, c: int) -> KeyView {
    key_of(NodeKind::Secret, opt_view(objs[p].namespace), objs[p].secrets@[c]@)
}

/// True when the snapshot gives a reason for the link `t`.
pub open spec fn edge_justified(objs: Seq<ObjectSummary>, layers: Layers, t: EdgeView) -> bool {
    match t.2 {
        EdgeKind::Owns => exists|c: int, w: int, p: int|
            #[trigger] owns_pair(objs, layers, c, w, p) && vkey(objs, p) == t.0 && vkey(objs, c) == t.1,
        EdgeKind::Selects => exists|s: int, p: int|
            #[trigger] selects_pair(objs, layers, s, p) && vkey(objs, s) == t.0 && vkey(objs, p) == t.1,
        EdgeKind::Routes => exists|i: int, b: int|
            #[trigger] routes_pair(objs, layers, i, b) && vkey(objs, i) == t.0 && backend_key(objs, i, b) == t.1,
        EdgeKind::Schedules => exists|p: int|
            #[trigger] scheduled(objs, layers, p) && vkey(objs, p) == t.0 && host_key(objs, p) == t.1,
        EdgeKind::Mounts => exists|p: int, c: int|
            #[trigger] mounts_pair(objs, layers, p, c) && vkey(objs, p) == t.0 && claim_key(objs, p, c) == t.1,
        EdgeKind::Uses => (exists|p: int, c: int|
            #[trigger] uses_config(objs, layers, p, c) && vkey(objs, p) == t.0 && config_key(objs, p, c) == t.1)
            || (exists|p: int, c: int|
            #[trigger] uses_secret(objs, layers, p, c) && vkey(objs, p) == t.0 && secret_key(objs, p, c) == t.1),
    }
}

/// Every link of the graph has a reason in the snapshot.
pub open spec fn edges_sound(objs: Seq<ObjectSummary>, layers: Layers, g: Graph) -> bool {
    forall|e: int| 0 <= e < g.edges@.len() ==> edge_justified(objs, layers, edge_keys(g.nodes@, #[trigger] g.edges@[e]))
}

/// True when a drawn object of the snapshot points at the key `kv` through
/// a link the layers show: a backend of an ingress, the node of a pod, or a
/// claim, ConfigMap or Secret a pod uses.
pub open spec fn referenced(objs: Seq<ObjectSummary>, layers: Layers, kv: KeyView) -> bool {
    ||| exists|i: int, b: int| #[trigger] routes_pair(objs, layers, i, b) && backend_key(objs, i, b) == kv
    ||| exists|p: int| #[trigger] scheduled(objs, layers, p) && host_key(objs, p) == kv
    ||| exists|p: int, c: int| #[trigger] mounts_pair(objs, layers, p, c) && claim_key(objs, p, c) == kv
    ||| exists|p: int, c: int| #[trigger] uses_config(objs, layers, p, c) && config_key(objs, p, c) == kv
    ||| exists|p: int, c: int| #[trigger] uses_secret(objs, layers, p, c) && secret_key(objs, p, c) == kv
}

/// A node is drawn from a visible object, or is a placeholder for a key that
/// a drawn object points at and no visible object carries.
pub open spec fn node_sound(objs: Seq<ObjectSummary>, layers: Layers, n: GraphNode) -> bool {
    if n.known {
        exists|j: int| 0 <= j < objs.len() && visible(objs, layers, j) && #[trigger] drawn_from(n, family(objs[j])->0, objs[j])
    } else {
        &&& placeholder_of(n, n.key@)
        &&& referenced(objs, layers, n.key@)
        &&& forall|j: int| 0 <= j < objs.len() && visible(objs, layers, j) ==> #[trigger] vkey(objs, j) != n.key@
    }
}

/// Every node is sound.
pub open spec fn nodes_sound(objs: Seq<ObjectSummary>, layers: Layers, nodes: Seq<GraphNode>) -> bool {
    forall|i: int| 0 <= i < nodes.len() ==> node_sound(objs, layers, #[trigger] nodes[i])
}

/// `node_of[j]` is the node drawn for object `j`, present exactly for the
/// visible ones.
pub open spec fn nodes_placed(objs: Seq<ObjectSummary>, layers: Layers, g: Graph, node_of: Seq<Option<usize>>) -> bool {
    &&& node_of.len() == objs.len()
    &&& forall|j: int| 0 <= j < objs.len() ==> (#[trigger] node_of[j] is Some <==> visible(objs, layers, j))
    &&& forall|j: int|
        0 <= j < objs.len() && #[trigger] node_of[j] is Some ==> {
            &&& node_of[j]->0 < g.nodes@.len()
            &&& g.nodes@[node_of[j]->0 as int].key@ == vkey(objs, j)
            &&& g.nodes@[node_of[j]->0 as int].known
        }
}

/// What holds of the nodes while links are added.
pub open spec fn linking_core(objs: Seq<ObjectSummary>, layers: Layers, g: Graph, node_of: Seq<Option<usize>>) -> bool {
    &&& keys_unique(g.nodes@)
    &&& edges_valid(g.nodes@.len(), g.edges@)
    &&& nodes_placed(objs, layers, g, node_of)
    &&& nodes_sound(objs, layers, g.nodes@)
    &&& g.adjacency@.len() == 0
}

/// What holds while links are added.
pub open spec fn linking(objs: Seq<ObjectSummary>, layers: Layers, g: Graph, node_of: Seq<Option<usize>>) -> bool {
    &&& linking_core(objs, layers, g, node_of)
    &&& edges_sound(objs, layers, g)
}

/// `b` holds `a` and maybe more nodes and links after them.
pub open spec fn grows(a: Graph, b: Graph) -> bool {
    &&& a.nodes@.len() <= b.nodes@.len()
    &&& forall|i: int| 0 <= i < a.nodes@.len() ==> #[trigger] b.nodes@[i] == a.nodes@[i]
    &&& a.edges@.len() <= b.edges@.len()
    &&& forall|e: int| 0 <= e < a.edges@.len() ==> #[trigger] b.edges@[e] == a.edges@[e]
}

proof fn lemma_grows_has_edge(a: Graph, b: Graph, t: EdgeView)
    requires
        grows(a, b),
        edges_valid(a.nodes@.len(), a.edges@),
        has_edge(a, t),
    ensures
        has_edge(b, t),
{
    let e = choose|e: int| 0 <= e < a.edges@.len() && edge_keys(a.nodes@, #[trigger] a.edges@[e]) == t;
    assert(b.edges@[e] == a.edges@[e]);
    assert(b.nodes@[a.edges@[e].from as int] == a.nodes@[a.edges@[e].from as int]);
    assert(b.nodes@[a.edges@[e].to as int] == a.nodes@[a.edges@[e].to as int]);
    assert(edge_keys(b.nodes@, b.edges@[e]) == t);
}

proof fn lemma_grows_keys(a: Graph, b: Graph)
    requires
        grows(a, b),
        edges_valid(a.nodes@.len(), a.edges@),
    ensures
        forall|e: int| 0 <= e < a.edges@.len() ==> edge_keys(b.nodes@, #[trigger] b.edges@[e]) == edge_keys(a.nodes@, a.edges@[e]),
{
    assert forall|e: int| 0 <= e < a.edges@.len() implies edge_keys(b.nodes@, #[trigger] b.edges@[e]) == edge_keys(a.nodes@, a.edges@[e]) by {
        let ed = a.edges@[e];
        assert(b.edges@[e] == ed);
        assert(b.nodes@[ed.from as int] == a.nodes@[ed.from as int]);
        assert(b.nodes@[ed.to as int] == a.nodes@[ed.to as int]);
    }
}

fn place_nodes(objects: &[ObjectSummary], kinds: &Vec<Option<NodeKind>>, layers: &Layers, vis: &Vec<bool>) -> (r: (Graph, Vec<Option<usize>>))
    requires
        families_of(objects@, kinds@),
        vis@.len() == objects@.len(),
        forall|j: int| 0 <= j < objects@.len() ==> #[trigger] vis@[j] == visible(objects@, *layers, j),
    ensures
        linking(objects@, *layers, r.0, r.1@),
        r.0.edges@.len() == 0,
{
    let mut g = empty_graph();
    let mut node_of: Vec<Option<usize>> = Vec::new();
    let mut j: usize = 0;
    while j < objects.len()
        invariant
            j <= objects@.len(),
            families_of(objects@, kinds@),
            vis@.len() == objects@.len(),
            forall|k: int| 0 <= k < objects@.len() ==> #[trigger] vis@[k] == visible(objects@, *layers, k),
            keys_unique(g.nodes@),
            g.edges@.len() == 0,
            g.adjacency@.len() == 0,
            node_of@.len() == j,
            forall|k: int| 0 <= k < j ==> (#[trigger] node_of@[k] is Some <==> visible(objects@, *layers, k)),
            forall|k: int|
                0 <= k < j && #[trigger] node_of@[k] is Some ==> {
                    &&& node_of@[k]->0 < g.nodes@.len()
                    &&& g.nodes@[node_of@[k]->0 as int].key@ == vkey(objects@, k)
                },
            forall|i: int| 0 <= i < g.nodes@.len() ==> (#[trigger] g.nodes@[i]).known,
            nodes_sound(objects@, *layers, g.nodes@),
        decreases objects@.len() - j,
    {
        if vis[j] {
            let kind = match kinds[j] {
                Some(k) => k,
                None => {
                    proof {
                        assert(false);
                    }
                    NodeKind::Pod
                },
            };
            let node = GraphNode::from_summary(kind, &objects[j]);
            let ghost before = g;
            let i = push_node(&mut g, node);
            proof {
                assert forall|x: int| 0 <= x < g.nodes@.len() implies node_sound(objects@, *layers, #[trigger] g.nodes@[x]) && g.nodes@[x].known by {
                    if x < before.nodes@.len() {
                        assert(g.nodes@[x] == before.nodes@[x]);
                    } else {
                        assert(g.nodes@[x] == node);
                        assert(drawn_from(node, family(objects@[j as int])->0, objects@[j as int]));
                    }
                }
            }
            node_of.push(Some(i));
            proof {
                assert forall|k: int| 0 <= k <= j && #[trigger] node_of@[k] is Some implies {
                    &&& node_of@[k]->0 < g.nodes@.len()
                    &&& g.nodes@[node_of@[k]->0 as int].key@ == vkey(objects@, k)
                } by {
                    if k < j {
                        let x = node_of@[k]->0 as int;
                        assert(x < before.nodes@.len());
                        assert(g.nodes@[x] == before.nodes@[x]);
                    }
                }
            }
        } else {
            node_of.push(None);
        }
        j += 1;
    }
    proof {
        assert(edges_valid(g.nodes@.len(), g.edges@));
        assert(edges_sound(objects@, *layers, g));
    }
    (g, node_of)
}

// ---------------------------------------------------------------------------
// Ownership links
// ---------------------------------------------------------------------------

proof fn lemma_first_controller(owners: Seq<OwnerRef>, n: int)
    requires
        0 <= n <= owners.len(),
    ensures
        first_controller(owners, n) matches Some(w) ==> 0 <= w < n && owners[w].controller,
        first_controller(owners, n) is None ==> forall|k: int| 0 <= k < n ==> !(#[trigger] owners[k]).controller,
    decreases n,
{
    if n > 0 {
        lemma_first_controller(owners, n - 1);
    }
}

proof fn lemma_first_controller_stays(owners: Seq<OwnerRef>, a: int, b: int)
    requires
        0 <= a <= b <= owners.len(),
        first_controller(owners, a) is Some,
    ensures
        first_controller(owners, b) == first_controller(owners, a),
    decreases b - a,
{
    if b > a {
        lemma_first_controller_stays(owners, a, b - 1);
    }
}

fn followed_owner_index(owners: &Vec<OwnerRef>) -> (r: Option<usize>)
    ensures
        as_int(r) == followed_owner(owners@),
        r matches Some(w) ==> w < owners@.len(),
{
    let mut w: usize = 0;
    while w < owners.len()
        invariant
            w <= owners@.len(),
            first_controller(owners@, w as int) is None,
        decreases owners@.len() - w,
    {
        if owners[w].controller {
            proof {
                assert(first_controller(owners@, w + 1) == Some(w as int));
                lemma_first_controller_stays(owners@, w + 1, owners@.len() as int);
            }
            return Some(w);
        }
        w += 1;
    }
    if owners.len() > 0 {
        Some(0)
    } else {
        None
    }
}

/// The listed owner of object `idx`, through its followed owner.
fn parent_index(objects: &[ObjectSummary], kinds: &Vec<Option<NodeKind>>, idx: usize) -> (r: Option<usize>)
    requires
        families_of(objects@, kinds@),
        idx < objects@.len(),
    ensures
        as_int(r) == parent_of(objects@, idx as int),
        r matches Some(p) ==> p < objects@.len(),
{
    let o = &objects[idx];
    match followed_owner_index(&o.owners) {
        None => None,
        Some(w) => match NodeKind::from_kind(o.owners[w].kind.as_str()) {
            None => None,
            Some(wk) => find_object(objects, kinds, wk, &o.namespace, &o.owners[w].name),
        },
    }
}

/// The first drawn object met climbing from `start` up the owners.
fn climb_to_drawn(
    objects: &[ObjectSummary],
    kinds: &Vec<Option<NodeKind>>,
    layers: &Layers,
    g: &Graph,
    node_of: &Vec<Option<usize>>,
    start: Option<usize>,
) -> (r: Option<usize>)
    requires
        families_of(objects@, kinds@),
        linking(objects@, *layers, *g, node_of@),
        start matches Some(i) ==> i < objects@.len(),
    ensures
        as_int(r) == climb(objects@, *layers, as_int(start), 0),
        r matches Some(p) ==> p < objects@.len() && visible(objects@, *layers, p as int),
{
    let mut cur = start;
    let mut depth: usize = 0;
    loop
        invariant
            families_of(objects@, kinds@),
            linking(objects@, *layers, *g, node_of@),
            depth <= 3,
            cur matches Some(i) ==> i < objects@.len(),
            climb(objects@, *layers, as_int(start), 0) == climb(objects@, *layers, as_int(cur), depth as int),
        decreases 3 - depth,
    {
        match cur {
            None => {
                return None;
            },
            Some(idx) => {
                if node_of[idx].is_some() {
                    return Some(idx);
                }
                if depth >= 3 {
                    return None;
                }
                cur = parent_index(objects, kinds, idx);
                depth += 1;
            },
        }
    }
}

/// Distinct nodes have distinct keys.
proof fn lemma_unique_index(nodes: Seq<GraphNode>, a: int, b: int)
    requires
        keys_unique(nodes),
        0 <= a < nodes.len(),
        0 <= b < nodes.len(),
    ensures
        (a == b) == (nodes[a].key@ == nodes[b].key@),
{
    if a < b {
        assert(nodes[a].key@ != nodes[b].key@);
    } else if b < a {
        assert(nodes[b].key@ != nodes[a].key@);
    }
}

/// Links each drawn object to the drawn object standing as each of its owners.
fn link_owners(
    g: &mut Graph,
    objects: &[ObjectSummary],
    kinds: &Vec<Option<NodeKind>>,
    layers: &Layers,
    node_of: &Vec<Option<usize>>,
)
    requires
        families_of(objects@, kinds@),
        linking(objects@, *layers, *old(g), node_of@),
    ensures
        linking(objects@, *layers, *final(g), node_of@),
        grows(*old(g), *final(g)),
        final(g).nodes == old(g).nodes,
        forall|c: int, w: int, p: int|
            #[trigger] owns_pair(objects@, *layers, c, w, p) ==> has_edge(
                *final(g),
                (vkey(objects@, p), vkey(objects@, c), EdgeKind::Owns),
            ),
{
    let ghost g0 = *g;
    let n = objects.len();
    let mut c: usize = 0;
    while c < n
        invariant
            n == objects@.len(),
            c <= n,
            families_of(objects@, kinds@),
            linking(objects@, *layers, *g, node_of@),
            grows(g0, *g),
            g.nodes == g0.nodes,
            forall|c2: int, w: int, p: int|
                c2 < c && #[trigger] owns_pair(objects@, *layers, c2, w, p) ==> has_edge(
                    *g,
                    (vkey(objects@, p), vkey(objects@, c2), EdgeKind::Owns),
                ),
        decreases n - c,
    {
        if let Some(child) = node_of[c] {
            let owners = &objects[c].owners;
            let mut w: usize = 0;
            while w < owners.len()
                invariant
                    n == objects@.len(),
                    c < n,
                    node_of@[c as int] == Some(child),
                    owners == objects@[c as int].owners,
                    w <= owners@.len(),
                    families_of(objects@, kinds@),
                    linking(objects@, *layers, *g, node_of@),
                    grows(g0, *g),
                    g.nodes == g0.nodes,
                    forall|c2: int, w2: int, p: int|
                        (c2 < c || (c2 == c && w2 < w)) && #[trigger] owns_pair(objects@, *layers, c2, w2, p)
                            ==> has_edge(*g, (vkey(objects@, p), vkey(objects@, c2), EdgeKind::Owns)),
                decreases owners@.len() - w,
            {
                let ghost before = *g;
                let target = match NodeKind::from_kind(owners[w].kind.as_str()) {
                    None => None,
                    Some(ok) => if ok == NodeKind::Node {
                        None
                    } else {
                        let start = find_object(objects, kinds, ok, &objects[c].namespace, &owners[w].name);
                        climb_to_drawn(objects, kinds, layers, g, node_of, start)
                    },
                };
                assert(as_int(target) == owner_drawn(objects@, *layers, c as int, w as int));
                if let Some(p) = target {
                    let parent = match node_of[p] {
                        Some(x) => x,
                        None => {
                            proof {
                                assert(false);
                            }
                            0
                        },
                    };
                    proof {
                        lemma_unique_index(g.nodes@, parent as int, child as int);
                    }
                    link(g, parent, child, EdgeKind::Owns);
                    proof {
                        if parent != child {
                            let e = g.edges@.len() - 1;
                            assert(g.edges@[e] == GraphEdge { from: parent, to: child, kind: EdgeKind::Owns });
                            assert(owns_pair(objects@, *layers, c as int, w as int, p as int));
                            assert(edge_justified(objects@, *layers, edge_keys(g.nodes@, g.edges@[e])));
                            assert(has_edge(*g, (vkey(objects@, p as int), vkey(objects@, c as int), EdgeKind::Owns)));
                        }
                    }
                }
                proof {
                    assert(grows(before, *g));
                    assert forall|c2: int, w2: int, p2: int|
                        (c2 < c || (c2 == c && w2 < w + 1)) && #[trigger] owns_pair(objects@, *layers, c2, w2, p2)
                            implies has_edge(*g, (vkey(objects@, p2), vkey(objects@, c2), EdgeKind::Owns)) by {
                        if c2 < c || w2 < w {
                            lemma_grows_has_edge(before, *g, (vkey(objects@, p2), vkey(objects@, c2), EdgeKind::Owns));
                        }
                    }
                    assert forall|e: int| 0 <= e < g.edges@.len() implies edge_justified(objects@, *layers, edge_keys(g.nodes@, #[trigger] g.edges@[e])) by {
                        if e < before.edges@.len() {
                            assert(g.edges@[e] == before.edges@[e]);
                        }
                    }
                }
                w += 1;
            }
        }
        c += 1;
    }
}

// ---------------------------------------------------------------------------
// Selection, routing and pod links
// ---------------------------------------------------------------------------

/// Links each drawn service to the drawn pods of its namespace that its
/// selector picks.
fn link_selectors(
    g: &mut Graph,
    objects: &[ObjectSummary],
    kinds: &Vec<Option<NodeKind>>,
    layers: &Layers,
    node_of: &Vec<Option<usize>>,
)
    requires
        families_of(objects@, kinds@),
        linking(objects@, *layers, *old(g), node_of@),
    ensures
        linking(objects@, *layers, *final(g), node_of@),
        grows(*old(g), *final(g)),
        final(g).nodes == old(g).nodes,
        forall|s: int, p: int|
            #[trigger] selects_pair(objects@, *layers, s, p) ==> has_edge(
                *final(g),
                (vkey(objects@, s), vkey(objects@, p), EdgeKind::Selects),
            ),
{
    if !(layers.services && layers.pods) {
        return;
    }
    let ghost g0 = *g;
    let n = objects.len();
    let mut s: usize = 0;
    while s < n
        invariant
            n == objects@.len(),
            s <= n,
            layers.services && layers.pods,
            families_of(objects@, kinds@),
            linking(objects@, *layers, *g, node_of@),
            grows(g0, *g),
            g.nodes == g0.nodes,
            forall|s2: int, p: int|
                s2 < s && #[trigger] selects_pair(objects@, *layers, s2, p) ==> has_edge(
                    *g,
                    (vkey(objects@, s2), vkey(objects@, p), EdgeKind::Selects),
                ),
        decreases n - s,
    {
        if kinds[s] == Some(NodeKind::Service) && node_of[s].is_some() {
            if let Some(selector) = &objects[s].selector {
                if selector.len() > 0 {
                    let src = match node_of[s] {
                        Some(x) => x,
                        None => 0,
                    };
                    let mut p: usize = 0;
                    while p < n
                        invariant
                            n == objects@.len(),
                            s < n,
                            p <= n,
                            layers.services && layers.pods,
                            kinds@[s as int] == Some(NodeKind::Service),
                            node_of@[s as int] == Some(src),
                            objects@[s as int].selector == Some(*selector),
                            families_of(objects@, kinds@),
                            linking(objects@, *layers, *g, node_of@),
                            grows(g0, *g),
                            g.nodes == g0.nodes,
                            forall|s2: int, p2: int|
                                (s2 < s || (s2 == s && p2 < p)) && #[trigger] selects_pair(objects@, *layers, s2, p2)
                                    ==> has_edge(*g, (vkey(objects@, s2), vkey(objects@, p2), EdgeKind::Selects)),
                        decreases n - p,
                    {
                        let ghost before = *g;
                        if kinds[p] == Some(NodeKind::Pod) && same_opt_text(&objects[p].namespace, &objects[s].namespace) {
                            if let Some(dst) = node_of[p] {
                                if selector_matches(selector, &objects[p].labels) {
                                    proof {
                                        lemma_unique_index(g.nodes@, src as int, dst as int);
                                        assert(selects_pair(objects@, *layers, s as int, p as int));
                                    }
                                    link(g, src, dst, EdgeKind::Selects);
                                    proof {
                                        let e = g.edges@.len() - 1;
                                        assert(edge_justified(objects@, *layers, edge_keys(g.nodes@, g.edges@[e])));
                                        assert(has_edge(*g, (vkey(objects@, s as int), vkey(objects@, p as int), EdgeKind::Selects)));
                                    }
                                }
                            }
                        }
                        proof {
                            assert forall|s2: int, p2: int|
                                (s2 < s || (s2 == s && p2 < p + 1)) && #[trigger] selects_pair(objects@, *layers, s2, p2)
                                    implies has_edge(*g, (vkey(objects@, s2), vkey(objects@, p2), EdgeKind::Selects)) by {
                                if s2 < s || p2 < p {
                                    lemma_grows_has_edge(before, *g, (vkey(objects@, s2), vkey(objects@, p2), EdgeKind::Selects));
                                }
                            }
                            assert forall|e: int| 0 <= e < g.edges@.len() implies edge_justified(objects@, *layers, edge_keys(g.nodes@, #[trigger] g.edges@[e])) by {
                                if e < before.edges@.len() {
                                    assert(g.edges@[e] == before.edges@[e]);
                                }
                            }
                        }
                        p += 1;
                    }
                }
            }
        }
        s += 1;
    }
}

/// Index of the node with `key`, created as a placeholder when absent.
fn ensure_node(
    g: &mut Graph,
    key: NodeKey,
    objects: &[ObjectSummary],
    layers: &Layers,
    node_of: &Vec<Option<usize>>,
) -> (i: usize)
    requires
        linking_core(objects@, *layers, *old(g), node_of@),
        referenced(objects@, *layers, key@),
    ensures
        linking_core(objects@, *layers, *final(g), node_of@),
        grows(*old(g), *final(g)),
        final(g).edges == old(g).edges,
        i < final(g).nodes@.len(),
        final(g).nodes@[i as int].key@ == key@,
{
    match g.position(&key) {
        Some(i) => i,
        None => {
            let ghost before = *g;
            let ghost kv = key@;
            let i = g.nodes.len();
            let node = GraphNode::placeholder(key);
            g.nodes.push(node);
            proof {
                assert forall|j: int| 0 <= j < objects@.len() && visible(objects@, *layers, j) implies #[trigger] vkey(objects@, j) != kv by {
                    assert(node_of@[j] is Some);
                    let x = node_of@[j]->0 as int;
                    assert(before.nodes@[x].key@ == vkey(objects@, j));
                }
                assert(node_sound(objects@, *layers, node));
                assert forall|a: int, b: int| 0 <= a < b < g.nodes@.len() implies #[trigger] g.nodes@[a].key@
                    != #[trigger] g.nodes@[b].key@ by {
                    assert(g.nodes@[a] == before.nodes@[a]);
                    if b < i {
                        assert(g.nodes@[b] == before.nodes@[b]);
                    }
                }
                assert forall|x: int| 0 <= x < g.nodes@.len() implies node_sound(objects@, *layers, #[trigger] g.nodes@[x]) by {
                    if x < i {
                        assert(g.nodes@[x] == before.nodes@[x]);
                    }
                }
                assert forall|j: int| 0 <= j < objects@.len() && #[trigger] node_of@[j] is Some implies {
                    &&& node_of@[j]->0 < g.nodes@.len()
                    &&& g.nodes@[node_of@[j]->0 as int].key@ == vkey(objects@, j)
                    &&& g.nodes@[node_of@[j]->0 as int].known
                } by {
                    assert(g.nodes@[node_of@[j]->0 as int] == before.nodes@[node_of@[j]->0 as int]);
                }
            }
            i
        },
    }
}

/// Every link added from `a` to `b` goes from `sk` to the node named by one
/// of `names`, as a key of family `kind` in namespace `ns`.
pub open spec fn new_edges_named(
    a: Graph,
    b: Graph,
    sk: KeyView,
    ns: Option<Seq<char>>,
    names: Seq<String>,
    kind: NodeKind,
    edge: EdgeKind,
) -> bool {
    forall|e: int| a.edges@.len() <= e < b.edges@.len() ==> #[trigger] named_edge(b, e, sk, ns, names, kind, edge)
}

/// Link `e` of `b` goes from `sk` to the node named by one of `names`.
pub open spec fn named_edge(
    b: Graph,
    e: int,
    sk: KeyView,
    ns: Option<Seq<char>>,
    names: Seq<String>,
    kind: NodeKind,
    edge: EdgeKind,
) -> bool {
    exists|c: int| 0 <= c < names.len() && edge_keys(b.nodes@, b.edges@[e]) == (sk, key_of(kind, ns, (#[trigger] names[c])@), edge)
}

/// Links `src` to the node of each of `names`, read as keys of family `kind`
/// in namespace `ns`.
fn link_names(
    g: &mut Graph,
    objects: &[ObjectSummary],
    layers: &Layers,
    node_of: &Vec<Option<usize>>,
    src: usize,
    ns: &Option<String>,
    names: &Vec<String>,
    kind: NodeKind,
    edge: EdgeKind,
)
    requires
        linking_core(objects@, *layers, *old(g), node_of@),
        src < old(g).nodes@.len(),
        old(g).nodes@[src as int].key@.0 != kind,
        forall|c: int| 0 <= c < names@.len() ==> referenced(objects@, *layers, key_of(kind, opt_view(*ns), (#[trigger] names@[c])@)),
    ensures
        linking_core(objects@, *layers, *final(g), node_of@),
        grows(*old(g), *final(g)),
        forall|c: int| 0 <= c < names@.len() ==> has_edge(
            *final(g),
            (old(g).nodes@[src as int].key@, key_of(kind, opt_view(*ns), (#[trigger] names@[c])@), edge),
        ),
        new_edges_named(*old(g), *final(g), old(g).nodes@[src as int].key@, opt_view(*ns), names@, kind, edge),
{
    let ghost g0 = *g;
    let ghost sk = g.nodes@[src as int].key@;
    let ghost base = g.edges@.len();
    let ghost mut wit: Seq<int> = Seq::empty();
    let mut c: usize = 0;
    while c < names.len()
        invariant
            c <= names@.len(),
            linking_core(objects@, *layers, *g, node_of@),
            grows(g0, *g),
            base == g0.edges@.len(),
            src < g.nodes@.len(),
            g.nodes@[src as int].key@ == sk,
            sk.0 != kind,
            forall|c2: int| 0 <= c2 < names@.len() ==> referenced(objects@, *layers, key_of(kind, opt_view(*ns), (#[trigger] names@[c2])@)),
            forall|c2: int| 0 <= c2 < c ==> has_edge(*g, (sk, key_of(kind, opt_view(*ns), (#[trigger] names@[c2])@), edge)),
            wit.len() + base == g.edges@.len(),
            forall|k: int| 0 <= k < wit.len() ==> 0 <= #[trigger] wit[k] < names@.len() && edge_keys(g.nodes@, g.edges@[base + k]) == (
                sk,
                key_of(kind, opt_view(*ns), names@[wit[k]]@),
                edge,
            ),
        decreases names@.len() - c,
    {
        let ghost before = *g;
        let key = NodeKey::new(kind, crate::text::clone_opt(ns), names[c].clone());
        assert(referenced(objects@, *layers, key_of(kind, opt_view(*ns), names@[c as int]@)));
        let dst = ensure_node(g, key, objects, layers, node_of);
        let ghost mid = *g;
        proof {
            assert(g.nodes@[src as int] == before.nodes@[src as int]);
            lemma_unique_index(g.nodes@, src as int, dst as int);
        }
        link(g, src, dst, edge);
        proof {
            lemma_grows_keys(before, mid);
            assert(grows(mid, *g));
            lemma_grows_keys(mid, *g);
            let e = g.edges@.len() - 1;
            assert(edge_keys(g.nodes@, g.edges@[e]) == (sk, key_of(kind, opt_view(*ns), names@[c as int]@), edge));
            assert forall|c2: int| 0 <= c2 < c + 1 implies has_edge(*g, (sk, key_of(kind, opt_view(*ns), (#[trigger] names@[c2])@), edge)) by {
                if c2 < c {
                    lemma_grows_has_edge(before, *g, (sk, key_of(kind, opt_view(*ns), names@[c2]@), edge));
                }
            }
            let old_wit = wit;
            wit = wit.push(c as int);
            assert forall|k: int| 0 <= k < wit.len() implies 0 <= #[trigger] wit[k] < names@.len() && edge_keys(g.nodes@, g.edges@[base + k]) == (
                sk,
                key_of(kind, opt_view(*ns), names@[wit[k]]@),
                edge,
            ) by {
                if k < old_wit.len() {
                    assert(wit[k] == old_wit[k]);
                    assert(edge_keys(g.nodes@, g.edges@[base + k]) == edge_keys(before.nodes@, before.edges@[base + k]));
                }
            }
        }
        c += 1;
    }
    assert forall|e: int| old(g).edges@.len() <= e < g.edges@.len() implies #[trigger] named_edge(*g, e, sk, opt_view(*ns), names@, kind, edge) by {
        let k = e - base;
        assert(0 <= wit[k] < names@.len());
        assert(base + k == e);
        assert(edge_keys(g.nodes@, g.edges@[e]) == (sk, key_of(kind, opt_view(*ns), names@[wit[k]]@), edge));
    }
    assert(new_edges_named(*old(g), *g, sk, opt_view(*ns), names@, kind, edge));
}

/// Links each drawn ingress to the services it routes to; a missing service
/// becomes a placeholder, which is the kind of error one comes here to see.
fn link_ingresses(
    g: &mut Graph,
    objects: &[ObjectSummary],
    kinds: &Vec<Option<NodeKind>>,
    layers: &Layers,
    node_of: &Vec<Option<usize>>,
)
    requires
        families_of(objects@, kinds@),
        linking(objects@, *layers, *old(g), node_of@),
    ensures
        linking(objects@, *layers, *final(g), node_of@),
        grows(*old(g), *final(g)),
        forall|i: int, b: int|
            #[trigger] routes_pair(objects@, *layers, i, b) ==> has_edge(
                *final(g),
                (vkey(objects@, i), backend_key(objects@, i, b), EdgeKind::Routes),
            ),
{
    if !(layers.ingress && layers.services) {
        return;
    }
    let ghost g0 = *g;
    let n = objects.len();
    let mut i: usize = 0;
    while i < n
        invariant
            n == objects@.len(),
            i <= n,
            layers.ingress && layers.services,
            families_of(objects@, kinds@),
            linking(objects@, *layers, *g, node_of@),
            grows(g0, *g),
            forall|i2: int, b: int|
                i2 < i && #[trigger] routes_pair(objects@, *layers, i2, b) ==> has_edge(
                    *g,
                    (vkey(objects@, i2), backend_key(objects@, i2, b), EdgeKind::Routes),
                ),
        decreases n - i,
    {
        let ghost before = *g;
        if kinds[i] == Some(NodeKind::Ingress) {
            if let Some(src) = node_of[i] {
                proof {
                    assert forall|c: int| 0 <= c < objects@[i as int].backends@.len() implies referenced(
                        objects@,
                        *layers,
                        key_of(NodeKind::Service, opt_view(objects@[i as int].namespace), (#[trigger] objects@[i as int].backends@[c])@),
                    ) by {
                        assert(routes_pair(objects@, *layers, i as int, c));
                    }
                }
                link_names(
                    g,
                    objects,
                    layers,
                    node_of,
                    src,
                    &objects[i].namespace,
                    &objects[i].backends,
                    NodeKind::Service,
                    EdgeKind::Routes,
                );
                proof {
                    let sk = before.nodes@[src as int].key@;
                    assert(sk == vkey(objects@, i as int));
                    lemma_grows_keys(before, *g);
                    assert forall|e: int| 0 <= e < g.edges@.len() implies edge_justified(objects@, *layers, edge_keys(g.nodes@, #[trigger] g.edges@[e])) by {
                        if e < before.edges@.len() {
                            assert(edge_keys(g.nodes@, g.edges@[e]) == edge_keys(before.nodes@, before.edges@[e]));
                        } else {
                            assert(named_edge(*g, e, sk, opt_view(objects@[i as int].namespace), objects@[i as int].backends@, NodeKind::Service, EdgeKind::Routes));
                            let c = choose|c: int| 0 <= c < objects@[i as int].backends@.len() && edge_keys(g.nodes@, g.edges@[e]) == (sk, key_of(NodeKind::Service, opt_view(objects@[i as int].namespace), (#[trigger] objects@[i as int].backends@[c])@), EdgeKind::Routes);
                            assert(routes_pair(objects@, *layers, i as int, c));
                        }
                    }
                    assert forall|b: int| #[trigger] routes_pair(objects@, *layers, i as int, b) implies has_edge(
                        *g,
                        (vkey(objects@, i as int), backend_key(objects@, i as int, b), EdgeKind::Routes),
                    ) by {
                        assert(has_edge(*g, (sk, key_of(NodeKind::Service, opt_view(objects@[i as int].namespace), objects@[i as int].backends@[b]@), EdgeKind::Routes)));
                    }
                }
            }
        }
        proof {
            assert forall|i2: int, b: int|
                i2 < i + 1 && #[trigger] routes_pair(objects@, *layers, i2, b) implies has_edge(
                    *g,
                    (vkey(objects@, i2), backend_key(objects@, i2, b), EdgeKind::Routes),
                ) by {
                if i2 < i {
                    lemma_grows_has_edge(before, *g, (vkey(objects@, i2), backend_key(objects@, i2, b), EdgeKind::Routes));
                }
            }
        }
        i += 1;
    }
}

/// All links of pod `p` are in `g`.
pub open spec fn pod_linked(objs: Seq<ObjectSummary>, layers: Layers, g: Graph, p: int) -> bool {
    &&& (scheduled(objs, layers, p) ==> has_edge(g, (vkey(objs, p), host_key(objs, p), EdgeKind::Schedules)))
    &&& forall|c: int| #[trigger] mounts_pair(objs, layers, p, c) ==> has_edge(g, (vkey(objs, p), claim_key(objs, p, c), EdgeKind::Mounts))
    &&& forall|c: int| #[trigger] uses_config(objs, layers, p, c) ==> has_edge(g, (vkey(objs, p), config_key(objs, p, c), EdgeKind::Uses))
    &&& forall|c: int| #[trigger] uses_secret(objs, layers, p, c) ==> has_edge(g, (vkey(objs, p), secret_key(objs, p, c), EdgeKind::Uses))
}

proof fn lemma_grows_pod_linked(objs: Seq<ObjectSummary>, layers: Layers, a: Graph, b: Graph, p: int)
    requires
        grows(a, b),
        edges_valid(a.nodes@.len(), a.edges@),
        pod_linked(objs, layers, a, p),
    ensures
        pod_linked(objs, layers, b, p),
{
    if scheduled(objs, layers, p) {
        lemma_grows_has_edge(a, b, (vkey(objs, p), host_key(objs, p), EdgeKind::Schedules));
    }
    assert forall|c: int| #[trigger] mounts_pair(objs, layers, p, c) implies has_edge(b, (vkey(objs, p), claim_key(objs, p, c), EdgeKind::Mounts)) by {
        lemma_grows_has_edge(a, b, (vkey(objs, p), claim_key(objs, p, c), EdgeKind::Mounts));
    }
    assert forall|c: int| #[trigger] uses_config(objs, layers, p, c) implies has_edge(b, (vkey(objs, p), config_key(objs, p, c), EdgeKind::Uses)) by {
        lemma_grows_has_edge(a, b, (vkey(objs, p), config_key(objs, p, c), EdgeKind::Uses));
    }
    assert forall|c: int| #[trigger] uses_secret(objs, layers, p, c) implies has_edge(b, (vkey(objs, p), secret_key(objs, p, c), EdgeKind::Uses)) by {
        lemma_grows_has_edge(a, b, (vkey(objs, p), secret_key(objs, p, c), EdgeKind::Uses));
    }
}

proof fn lemma_sound_after_names(
    objs: Seq<ObjectSummary>,
    layers: Layers,
    a: Graph,
    b: Graph,
    sk: KeyView,
    ns: Option<Seq<char>>,
    names: Seq<String>,
    kind: NodeKind,
    edge: EdgeKind,
)
    requires
        edges_sound(objs, layers, a),
        edges_valid(a.nodes@.len(), a.edges@),
        grows(a, b),
        new_edges_named(a, b, sk, ns, names, kind, edge),
        forall|c: int| 0 <= c < names.len() ==> edge_justified(objs, layers, (sk, key_of(kind, ns, (#[trigger] names[c])@), edge)),
    ensures
        edges_sound(objs, layers, b),
{
    lemma_grows_keys(a, b);
    assert forall|e: int| 0 <= e < b.edges@.len() implies edge_justified(objs, layers, edge_keys(b.nodes@, #[trigger] b.edges@[e])) by {
        if e < a.edges@.len() {
            assert(edge_keys(b.nodes@, b.edges@[e]) == edge_keys(a.nodes@, a.edges@[e]));
        } else {
            assert(named_edge(b, e, sk, ns, names, kind, edge));
            let c = choose|c: int| 0 <= c < names.len() && edge_keys(b.nodes@, b.edges@[e]) == (sk, key_of(kind, ns, (#[trigger] names[c])@), edge);
            assert(edge_justified(objs, layers, (sk, key_of(kind, ns, names[c]@), edge)));
        }
    }
}

/// Links the drawn pod `p` to its node, its claims, its ConfigMaps and Secrets.
fn link_pod(
    g: &mut Graph,
    objects: &[ObjectSummary],
    kinds: &Vec<Option<NodeKind>>,
    layers: &Layers,
    node_of: &Vec<Option<usize>>,
    p: usize,
    src: usize,
)
    requires
        families_of(objects@, kinds@),
        linking(objects@, *layers, *old(g), node_of@),
        p < objects@.len(),
        kinds@[p as int] == Some(NodeKind::Pod),
        node_of@[p as int] == Some(src),
    ensures
        linking(objects@, *layers, *final(g), node_of@),
        grows(*old(g), *final(g)),
        pod_linked(objects@, *layers, *final(g), p as int),
{
    let ghost objs = objects@;
    let ghost pi = p as int;
    let ghost sk = g.nodes@[src as int].key@;
    assert(sk == vkey(objs, pi));
    assert(pod_drawn(objs, *layers, pi));
    let ghost g0 = *g;
    let o = &objects[p];
    if layers.nodes {
        if let Some(name) = &o.node {
            if !name.as_str().is_empty() {
                let ghost before = *g;
                let key = NodeKey::new(NodeKind::Node, None, name.clone());
                assert(scheduled(objs, *layers, pi));
                assert(referenced(objs, *layers, host_key(objs, pi)));
                let dst = ensure_node(g, key, objects, layers, node_of);
                let ghost mid = *g;
                proof {
                    assert(g.nodes@[src as int] == before.nodes@[src as int]);
                    lemma_unique_index(g.nodes@, src as int, dst as int);
                }
                link(g, src, dst, EdgeKind::Schedules);
                proof {
                    lemma_grows_keys(before, mid);
                    lemma_grows_keys(mid, *g);
                    assert(scheduled(objs, *layers, pi));
                    let e = g.edges@.len() - 1;
                    assert(edge_keys(g.nodes@, g.edges@[e]) == (sk, host_key(objs, pi), EdgeKind::Schedules));
                    assert forall|e2: int| 0 <= e2 < g.edges@.len() implies edge_justified(objs, *layers, edge_keys(g.nodes@, #[trigger] g.edges@[e2])) by {
                        if e2 < before.edges@.len() {
                            assert(edge_keys(g.nodes@, g.edges@[e2]) == edge_keys(before.nodes@, before.edges@[e2]));
                        }
                    }
                }
            }
        }
    }
    let ghost after_node = *g;
    assert(scheduled(objs, *layers, pi) ==> has_edge(*g, (sk, host_key(objs, pi), EdgeKind::Schedules)));
    if layers.storage {
        let ghost before = *g;
        assert forall|c: int| 0 <= c < o.volume_claims@.len() implies referenced(objs, *layers, key_of(NodeKind::VolumeClaim, opt_view(o.namespace), (#[trigger] o.volume_claims@[c])@)) by {
            assert(mounts_pair(objs, *layers, pi, c));
        }
        link_names(g, objects, layers, node_of, src, &o.namespace, &o.volume_claims, NodeKind::VolumeClaim, EdgeKind::Mounts);
        proof {
            assert forall|c: int| 0 <= c < o.volume_claims@.len() implies edge_justified(objs, *layers, (sk, key_of(NodeKind::VolumeClaim, opt_view(o.namespace), (#[trigger] o.volume_claims@[c])@), EdgeKind::Mounts)) by {
                assert(mounts_pair(objs, *layers, pi, c));
            }
            lemma_sound_after_names(objs, *layers, before, *g, sk, opt_view(o.namespace), o.volume_claims@, NodeKind::VolumeClaim, EdgeKind::Mounts);
        }
    }
    let ghost after_claims = *g;
    proof {
        if scheduled(objs, *layers, pi) {
            lemma_grows_has_edge(after_node, *g, (sk, host_key(objs, pi), EdgeKind::Schedules));
        }
    }
    if layers.config {
        let ghost before = *g;
        assert forall|c: int| 0 <= c < o.config_maps@.len() implies referenced(objs, *layers, key_of(NodeKind::ConfigMap, opt_view(o.namespace), (#[trigger] o.config_maps@[c])@)) by {
            assert(uses_config(objs, *layers, pi, c));
        }
        link_names(g, objects, layers, node_of, src, &o.namespace, &o.config_maps, NodeKind::ConfigMap, EdgeKind::Uses);
        proof {
            assert forall|c: int| 0 <= c < o.config_maps@.len() implies edge_justified(objs, *layers, (sk, key_of(NodeKind::ConfigMap, opt_view(o.namespace), (#[trigger] o.config_maps@[c])@), EdgeKind::Uses)) by {
                assert(uses_config(objs, *layers, pi, c));
            }
            lemma_sound_after_names(objs, *layers, before, *g, sk, opt_view(o.namespace), o.config_maps@, NodeKind::ConfigMap, EdgeKind::Uses);
        }
        let ghost mid = *g;
        assert forall|c: int| 0 <= c < o.secrets@.len() implies referenced(objs, *layers, key_of(NodeKind::Secret, opt_view(o.namespace), (#[trigger] o.secrets@[c])@)) by {
            assert(uses_secret(objs, *layers, pi, c));
        }
        link_names(g, objects, layers, node_of, src, &o.namespace, &o.secrets, NodeKind::Secret, EdgeKind::Uses);
        proof {
            assert forall|c: int| 0 <= c < o.secrets@.len() implies edge_justified(objs, *layers, (sk, key_of(NodeKind::Secret, opt_view(o.namespace), (#[trigger] o.secrets@[c])@), EdgeKind::Uses)) by {
                assert(uses_secret(objs, *layers, pi, c));
            }
            lemma_sound_after_names(objs, *layers, mid, *g, sk, opt_view(o.namespace), o.secrets@, NodeKind::Secret, EdgeKind::Uses);
            assert forall|c: int| #[trigger] uses_config(objs, *layers, pi, c) implies has_edge(*g, (sk, config_key(objs, pi, c), EdgeKind::Uses)) by {
                lemma_grows_has_edge(mid, *g, (sk, config_key(objs, pi, c), EdgeKind::Uses));
            }
        }
    }
    proof {
        if scheduled(objs, *layers, pi) {
            lemma_grows_has_edge(after_claims, *g, (sk, host_key(objs, pi), EdgeKind::Schedules));
        }
        assert forall|c: int| #[trigger] mounts_pair(objs, *layers, pi, c) implies has_edge(*g, (sk, claim_key(objs, pi, c), EdgeKind::Mounts)) by {
            lemma_grows_has_edge(after_claims, *g, (sk, claim_key(objs, pi, c), EdgeKind::Mounts));
        }
    }
}

/// Links every drawn pod to its node, claims, ConfigMaps and Secrets.
fn link_pods(
    g: &mut Graph,
    objects: &[ObjectSummary],
    kinds: &Vec<Option<NodeKind>>,
    layers: &Layers,
    node_of: &Vec<Option<usize>>,
)
    requires
        families_of(objects@, kinds@),
        linking(objects@, *layers, *old(g), node_of@),
    ensures
        linking(objects@, *layers, *final(g), node_of@),
        grows(*old(g), *final(g)),
        forall|p: int| 0 <= p < objects@.len() ==> #[trigger] pod_linked(objects@, *layers, *final(g), p),
{
    let ghost g0 = *g;
    let n = objects.len();
    let mut p: usize = 0;
    while p < n
        invariant
            n == objects@.len(),
            p <= n,
            families_of(objects@, kinds@),
            linking(objects@, *layers, *g, node_of@),
            grows(g0, *g),
            forall|p2: int| 0 <= p2 < p ==> #[trigger] pod_linked(objects@, *layers, *g, p2),
        decreases n - p,
    {
        let ghost before = *g;
        if kinds[p] == Some(NodeKind::Pod) && node_of[p].is_some() {
            let src = match node_of[p] {
                Some(x) => x,
                None => 0,
            };
            link_pod(g, objects, kinds, layers, node_of, p, src);
        } else {
            proof {
                assert(!pod_drawn(objects@, *layers, p as int));
            }
        }
        proof {
            assert forall|p2: int| 0 <= p2 < p + 1 implies #[trigger] pod_linked(objects@, *layers, *g, p2) by {
                if p2 < p {
                    lemma_grows_pod_linked(objects@, *layers, before, *g, p2);
                }
            }
        }
        p += 1;
    }
}

// ---------------------------------------------------------------------------
// Isolated nodes, duplicates and neighbourhoods
// ---------------------------------------------------------------------------

/// `a` and `b` hold the same values.
pub open spec fn same_node(a: GraphNode, b: GraphNode) -> bool {
    &&& a.key@ == b.key@
    &&& a.status@ == b.status@
    &&& opt_view(a.ready) == opt_view(b.ready)
    &&& a.restarts == b.restarts
    &&& a.images@.map_values(|s: String| s@) == b.images@.map_values(|s: String| s@)
    &&& opt_view(a.node) == opt_view(b.node)
    &&& a.age_seconds == b.age_seconds
    &&& a.api_version@ == b.api_version@
    &&& a.known == b.known
}

fn copy_node(n: &GraphNode) -> (r: GraphNode)
    ensures
        same_node(r, *n),
{
    GraphNode {
        key: n.key.copy(),
        status: n.status.clone(),
        ready: crate::text::clone_opt(&n.ready),
        restarts: n.restarts,
        images: crate::views::graph::clone_strings(&n.images),
        node: crate::text::clone_opt(&n.node),
        age_seconds: n.age_seconds,
        api_version: n.api_version.clone(),
        known: n.known,
    }
}

proof fn lemma_same_node_sound(objs: Seq<ObjectSummary>, layers: Layers, a: GraphNode, b: GraphNode)
    requires
        same_node(a, b),
        node_sound(objs, layers, b),
    ensures
        node_sound(objs, layers, a),
{
    if b.known {
        let j = choose|j: int| 0 <= j < objs.len() && visible(objs, layers, j) && #[trigger] drawn_from(b, family(objs[j])->0, objs[j]);
        assert(drawn_from(a, family(objs[j])->0, objs[j]));
    } else {
        assert(a.images@.map_values(|s: String| s@).len() == a.images@.len());
        assert(b.images@.map_values(|s: String| s@).len() == b.images@.len());
        assert(a.ready is None);
        assert(a.node is None);
        assert(placeholder_of(a, a.key@));
    }
}

/// Link `e` of `g` starts or ends at node `i`.
pub open spec fn touches(g: Graph, e: int, i: int) -> bool {
    g.edges@[e].from == i || g.edges@[e].to == i
}

/// Some link of `g` starts or ends at node `i`.
pub open spec fn touched(g: Graph, i: int) -> bool {
    exists|e: int| 0 <= e < g.edges@.len() && #[trigger] touches(g, e, i)
}

/// Node `i` of `b` holds the values of a touched node of `a`.
pub open spec fn kept_from(a: Graph, b: Graph, i: int) -> bool {
    exists|j: int| 0 <= j < a.nodes@.len() && touched(a, j) && #[trigger] same_node(b.nodes@[i], a.nodes@[j])
}

/// A touched node `j` of `a` is held by some node of `b`.
pub open spec fn kept_in(a: Graph, b: Graph, j: int) -> bool {
    exists|i: int| 0 <= i < b.nodes@.len() && #[trigger] same_node(b.nodes@[i], a.nodes@[j])
}

/// Removes the nodes without any link.
fn drop_isolated(g: &mut Graph)
    requires
        keys_unique(old(g).nodes@),
        edges_valid(old(g).nodes@.len(), old(g).edges@),
    ensures
        keys_unique(final(g).nodes@),
        edges_valid(final(g).nodes@.len(), final(g).edges@),
        final(g).adjacency == old(g).adjacency,
        final(g).edges@.len() == old(g).edges@.len(),
        forall|e: int| 0 <= e < final(g).edges@.len() ==> edge_keys(final(g).nodes@, #[trigger] final(g).edges@[e])
            == edge_keys(old(g).nodes@, old(g).edges@[e]),
        forall|i: int| 0 <= i < final(g).nodes@.len() ==> #[trigger] kept_from(*old(g), *final(g), i),
        forall|j: int| 0 <= j < old(g).nodes@.len() && touched(*old(g), j) ==> #[trigger] kept_in(*old(g), *final(g), j),
        forall|i: int| 0 <= i < final(g).nodes@.len() ==> #[trigger] touched(*final(g), i),
{
    let ghost g0 = *g;
    let n = g.nodes.len();
    let m = g.edges.len();
    let mut flags: Vec<bool> = Vec::new();
    let mut i: usize = 0;
    while i < n
        invariant
            i <= n,
            flags@.len() == i,
            forall|k: int| 0 <= k < i ==> !flags@[k],
        decreases n - i,
    {
        flags.push(false);
        i += 1;
    }
    let mut e: usize = 0;
    while e < m
        invariant
            *g == g0,
            n == g.nodes@.len(),
            m == g.edges@.len(),
            edges_valid(n as nat, g.edges@),
            e <= m,
            flags@.len() == n,
            forall|k: int| 0 <= k < n ==> (#[trigger] flags@[k] <==> exists|e2: int| 0 <= e2 < e && #[trigger] touches(g0, e2, k)),
        decreases m - e,
    {
        let ed = g.edges[e];
        proof {
            assert(touches(g0, e as int, ed.from as int));
            assert(touches(g0, e as int, ed.to as int));
        }
        flags.set(ed.from, true);
        flags.set(ed.to, true);
        e += 1;
    }
    let mut remap: Vec<usize> = Vec::new();
    let mut kept: Vec<GraphNode> = Vec::new();
    let ghost mut back: Seq<int> = Seq::empty();
    let mut j: usize = 0;
    while j < n
        invariant
            *g == g0,
            n == g.nodes@.len(),
            m == g.edges@.len(),
            j <= n,
            flags@.len() == n,
            forall|k: int| 0 <= k < n ==> (#[trigger] flags@[k] <==> touched(g0, k)),
            remap@.len() == j,
            kept@.len() == back.len(),
            forall|k: int| 0 <= k < j && #[trigger] flags@[k] ==> remap@[k] < kept@.len() && back[remap@[k] as int] == k,
            forall|x: int|
                0 <= x < kept@.len() ==> 0 <= #[trigger] back[x] < j && flags@[back[x]] && same_node(
                    kept@[x],
                    g0.nodes@[back[x]],
                ),
            forall|x: int, y: int| 0 <= x < y < back.len() ==> #[trigger] back[x] < #[trigger] back[y],
        decreases n - j,
    {
        if flags[j] {
            let x = kept.len();
            remap.push(x);
            kept.push(copy_node(&g.nodes[j]));
            proof {
                back = back.push(j as int);
            }
        } else {
            remap.push(usize::MAX);
        }
        j += 1;
    }
    let mut edges: Vec<GraphEdge> = Vec::new();
    let mut e: usize = 0;
    while e < m
        invariant
            *g == g0,
            n == g.nodes@.len(),
            m == g.edges@.len(),
            edges_valid(n as nat, g.edges@),
            keys_unique(g0.nodes@),
            e <= m,
            flags@.len() == n,
            forall|k: int| 0 <= k < n ==> (#[trigger] flags@[k] <==> touched(g0, k)),
            remap@.len() == n,
            kept@.len() == back.len(),
            forall|k: int| 0 <= k < n && #[trigger] flags@[k] ==> remap@[k] < kept@.len() && back[remap@[k] as int] == k,
            forall|x: int|
                0 <= x < kept@.len() ==> 0 <= #[trigger] back[x] < n && flags@[back[x]] && same_node(
                    kept@[x],
                    g0.nodes@[back[x]],
                ),
            edges@.len() == e,
            forall|k: int|
                0 <= k < e ==> {
                    &&& (#[trigger] edges@[k]).from == remap@[g0.edges@[k].from as int]
                    &&& edges@[k].to == remap@[g0.edges@[k].to as int]
                    &&& edges@[k].kind == g0.edges@[k].kind
                },
        decreases m - e,
    {
        let ed = g.edges[e];
        proof {
            assert(touches(g0, e as int, ed.from as int));
            assert(touches(g0, e as int, ed.to as int));
            assert(flags@[ed.from as int]);
            assert(flags@[ed.to as int]);
        }
        edges.push(GraphEdge { from: remap[ed.from], to: remap[ed.to], kind: ed.kind });
        e += 1;
    }
    g.nodes = kept;
    g.edges = edges;
    proof {
        assert forall|a: int, b: int| 0 <= a < b < g.nodes@.len() implies #[trigger] g.nodes@[a].key@ != #[trigger] g.nodes@[b].key@ by {
            assert(back[a] < back[b]);
        }
        assert forall|k: int| 0 <= k < g.edges@.len() implies edge_keys(g.nodes@, #[trigger] g.edges@[k]) == edge_keys(g0.nodes@, g0.edges@[k])
            && g.edges@[k].from < g.nodes@.len() && g.edges@[k].to < g.nodes@.len() && g.edges@[k].from != g.edges@[k].to by {
            let ed = g0.edges@[k];
            assert(touches(g0, k, ed.from as int));
            assert(touches(g0, k, ed.to as int));
            assert(flags@[ed.from as int]);
            assert(flags@[ed.to as int]);
        }
        assert forall|x: int| 0 <= x < g.nodes@.len() implies #[trigger] kept_from(g0, *g, x) by {
            assert(same_node(g.nodes@[x], g0.nodes@[back[x]]));
        }
        assert forall|k: int| 0 <= k < g0.nodes@.len() && touched(g0, k) implies #[trigger] kept_in(g0, *g, k) by {
            assert(flags@[k]);
            assert(same_node(g.nodes@[remap@[k] as int], g0.nodes@[k]));
        }
        assert forall|x: int| 0 <= x < g.nodes@.len() implies #[trigger] touched(*g, x) by {
            let k = back[x];
            assert(flags@[k]);
            assert(touched(g0, k));
            let e2 = choose|e2: int| 0 <= e2 < g0.edges@.len() && #[trigger] touches(g0, e2, k);
            assert(remap@[k] == x) by {
                assert(remap@[k] < kept@.len() && back[remap@[k] as int] == k);
                if remap@[k] < x {
                    assert(back[remap@[k] as int] < back[x]);
                } else if remap@[k] > x {
                    assert(back[x] < back[remap@[k] as int]);
                }
            }
            assert(touches(*g, e2, x));
        }
    }
}

/// `ed` is one of `es`.
pub open spec fn edge_in(es: Seq<GraphEdge>, ed: GraphEdge) -> bool {
    exists|k: int| 0 <= k < es.len() && #[trigger] es[k] == ed
}

fn contains_edge(es: &Vec<GraphEdge>, ed: GraphEdge) -> (b: bool)
    ensures
        b == edge_in(es@, ed),
{
    let mut k: usize = 0;
    while k < es.len()
        invariant
            k <= es@.len(),
            forall|x: int| 0 <= x < k ==> es@[x] != ed,
        decreases es@.len() - k,
    {
        if es[k] == ed {
            return true;
        }
        k += 1;
    }
    false
}

/// Removes the repeated links and computes the neighbourhoods.
fn finish(g: &mut Graph)
    requires
        edges_valid(old(g).nodes@.len(), old(g).edges@),
    ensures
        final(g).nodes == old(g).nodes,
        edges_valid(final(g).nodes@.len(), final(g).edges@),
        edges_distinct(final(g).edges@),
        forall|e: int| 0 <= e < old(g).edges@.len() ==> edge_in(final(g).edges@, #[trigger] old(g).edges@[e]),
        forall|e: int| 0 <= e < final(g).edges@.len() ==> edge_in(old(g).edges@, #[trigger] final(g).edges@[e]),
        adjacency_matches(*final(g)),
{
    let ghost g0 = *g;
    let mut kept: Vec<GraphEdge> = Vec::new();
    let mut e: usize = 0;
    while e < g.edges.len()
        invariant
            *g == g0,
            e <= g.edges@.len(),
            edges_valid(g.nodes@.len(), g.edges@),
            edges_valid(g.nodes@.len(), kept@),
            edges_distinct(kept@),
            forall|k: int| 0 <= k < e ==> edge_in(kept@, #[trigger] g.edges@[k]),
            forall|k: int| 0 <= k < kept@.len() ==> edge_in(g.edges@, #[trigger] kept@[k]),
        decreases g.edges@.len() - e,
    {
        let ed = g.edges[e];
        if !contains_edge(&kept, ed) {
            let ghost before = kept@;
            kept.push(ed);
            proof {
                assert forall|k: int| 0 <= k < e implies edge_in(kept@, #[trigger] g.edges@[k]) by {
                    let x = choose|x: int| 0 <= x < before.len() && #[trigger] before[x] == g.edges@[k];
                    assert(kept@[x] == before[x]);
                }
                assert(kept@[before.len() as int] == ed);
                assert(edge_in(kept@, g.edges@[e as int]));
                assert forall|k: int| 0 <= k < kept@.len() implies edge_in(g.edges@, #[trigger] kept@[k]) by {
                    if k < before.len() {
                        assert(kept@[k] == before[k]);
                    } else {
                        assert(g.edges@[e as int] == kept@[k]);
                    }
                }
            }
        }
        e += 1;
    }
    let n = g.nodes.len();
    let mut adjacency: Vec<Vec<usize>> = Vec::new();
    let mut i: usize = 0;
    while i < n
        invariant
            i <= n,
            adjacency@.len() == i,
            forall|k: int| 0 <= k < i ==> (#[trigger] adjacency@[k])@ == Seq::<usize>::empty(),
        decreases n - i,
    {
        adjacency.push(Vec::new());
        i += 1;
    }
    let mut e: usize = 0;
    while e < kept.len()
        invariant
            n == g0.nodes@.len(),
            edges_valid(n as nat, kept@),
            e <= kept@.len(),
            adjacency@.len() == n,
            forall|k: int| 0 <= k < n ==> (#[trigger] adjacency@[k])@ == neighbours(kept@, k, e as int),
        decreases kept@.len() - e,
    {
        let ed = kept[e];
        let ghost before = adjacency@;
        let mut tmp: Vec<usize> = Vec::new();
        adjacency.set_and_swap(ed.from, &mut tmp);
        tmp.push(ed.to);
        adjacency.set(ed.from, tmp);
        let mut tmp2: Vec<usize> = Vec::new();
        adjacency.set_and_swap(ed.to, &mut tmp2);
        tmp2.push(ed.from);
        adjacency.set(ed.to, tmp2);
        proof {
            assert forall|k: int| 0 <= k < n implies (#[trigger] adjacency@[k])@ == neighbours(kept@, k, e + 1) by {
                assert(kept@[e as int] == ed);
                if k != ed.from && k != ed.to {
                    assert(adjacency@[k] == before[k]);
                }
            }
        }
        e += 1;
    }
    g.edges = kept;
    g.adjacency = adjacency;
}

// ---------------------------------------------------------------------------
// The whole graph
// ---------------------------------------------------------------------------

/// Every link that the snapshot gives a reason for is in the graph.
pub open spec fn edges_complete(objs: Seq<ObjectSummary>, layers: Layers, g: Graph) -> bool {
    &&& forall|c: int, w: int, p: int|
        #[trigger] owns_pair(objs, layers, c, w, p) ==> has_edge(g, (vkey(objs, p), vkey(objs, c), EdgeKind::Owns))
    &&& forall|s: int, p: int|
        #[trigger] selects_pair(objs, layers, s, p) ==> has_edge(g, (vkey(objs, s), vkey(objs, p), EdgeKind::Selects))
    &&& forall|i: int, b: int|
        #[trigger] routes_pair(objs, layers, i, b) ==> has_edge(g, (vkey(objs, i), backend_key(objs, i, b), EdgeKind::Routes))
    &&& forall|p: int| 0 <= p < objs.len() ==> #[trigger] pod_linked(objs, layers, g, p)
}

/// Some node of `g` carries `kv` and is drawn from a listing.
pub open spec fn has_listed_node(g: Graph, kv: KeyView) -> bool {
    exists|i: int| 0 <= i < g.nodes@.len() && (#[trigger] g.nodes@[i]).key@ == kv && g.nodes@[i].known
}

/// Some link of `g` starts or ends at the node with key `kv`.
pub open spec fn key_touched(g: Graph, kv: KeyView) -> bool {
    exists|e: int| 0 <= e < g.edges@.len() && #[trigger] link_touches_key(g, e, kv)
}

/// Link `e` of `g` starts or ends at the node with key `kv`.
pub open spec fn link_touches_key(g: Graph, e: int, kv: KeyView) -> bool {
    edge_keys(g.nodes@, g.edges@[e]).0 == kv || edge_keys(g.nodes@, g.edges@[e]).1 == kv
}

/// The family of a node is shown (a ReplicaSet may stand for its hidden
/// family), and a cluster node carries no namespace.
pub open spec fn node_shape(layers: Layers, n: GraphNode) -> bool {
    &&& n.key@.0 != NodeKind::ReplicaSet ==> layer_shows(layers, n.key@.0)
    &&& n.key@.0 == NodeKind::Node ==> n.key@.1 is None
}

/// `g` is the topology of the snapshot `objs` under `layers`.
///
/// Its links are exactly those the snapshot gives a reason for, each once;
/// each node is drawn from a visible object or stands for an object only
/// referenced, and such a placeholder is the end of a link; every node's
/// family is shown; each visible object has its node, unless isolated nodes
/// are hidden and no link reaches it; hidden isolated nodes leave no node
/// without a link.
pub open spec fn built_from(objs: Seq<ObjectSummary>, layers: Layers, hide_isolated: bool, g: Graph) -> bool {
    &&& graph_wf(g)
    &&& edges_sound(objs, layers, g)
    &&& edges_complete(objs, layers, g)
    &&& nodes_sound(objs, layers, g.nodes@)
    &&& forall|i: int| 0 <= i < g.nodes@.len() ==> node_shape(layers, #[trigger] g.nodes@[i])
    &&& forall|i: int| #![trigger g.nodes@[i]] 0 <= i < g.nodes@.len() && !g.nodes@[i].known ==> touched(g, i)
    &&& forall|j: int|
        0 <= j < objs.len() && visible(objs, layers, j) && (!hide_isolated || key_touched(g, vkey(objs, j)))
            ==> has_listed_node(g, #[trigger] vkey(objs, j))
    &&& hide_isolated ==> forall|i: int| 0 <= i < g.nodes@.len() ==> #[trigger] touched(g, i)
}

/// A sound node has a shown family and, for a cluster node, no namespace.
proof fn lemma_node_shape(objs: Seq<ObjectSummary>, layers: Layers, n: GraphNode)
    requires
        node_sound(objs, layers, n),
    ensures
        node_shape(layers, n),
{
    if n.known {
        let j = choose|j: int| 0 <= j < objs.len() && visible(objs, layers, j) && #[trigger] drawn_from(n, family(objs[j])->0, objs[j]);
        assert(family(objs[j]) is Some);
    } else {
        let kv = n.key@;
        if exists|i: int, b: int| #[trigger] routes_pair(objs, layers, i, b) && backend_key(objs, i, b) == kv {
            let (i, b) = choose|i: int, b: int| #[trigger] routes_pair(objs, layers, i, b) && backend_key(objs, i, b) == kv;
        } else if exists|p: int| #[trigger] scheduled(objs, layers, p) && host_key(objs, p) == kv {
            let p = choose|p: int| #[trigger] scheduled(objs, layers, p) && host_key(objs, p) == kv;
        } else if exists|p: int, c: int| #[trigger] mounts_pair(objs, layers, p, c) && claim_key(objs, p, c) == kv {
            let (p, c) = choose|p: int, c: int| #[trigger] mounts_pair(objs, layers, p, c) && claim_key(objs, p, c) == kv;
        } else if exists|p: int, c: int| #[trigger] uses_config(objs, layers, p, c) && config_key(objs, p, c) == kv {
            let (p, c) = choose|p: int, c: int| #[trigger] uses_config(objs, layers, p, c) && config_key(objs, p, c) == kv;
        } else {
            let (p, c) = choose|p: int, c: int| #[trigger] uses_secret(objs, layers, p, c) && secret_key(objs, p, c) == kv;
        }
    }
}

/// The node a link of `g` ends at is touched.
proof fn lemma_target_touched(g: Graph, t: EdgeView, i: int)
    requires
        graph_wf(g),
        has_edge(g, t),
        0 <= i < g.nodes@.len(),
        t.1 == g.nodes@[i].key@,
    ensures
        touched(g, i),
{
    let e = choose|e: int| 0 <= e < g.edges@.len() && edge_keys(g.nodes@, #[trigger] g.edges@[e]) == t;
    let to = g.edges@[e].to as int;
    lemma_unique_index(g.nodes@, to, i);
    assert(touches(g, e, i));
}

/// A placeholder of a graph holding every link of the snapshot is the end
/// of one of them.
proof fn lemma_placeholder_touched(objs: Seq<ObjectSummary>, layers: Layers, g: Graph, i: int)
    requires
        graph_wf(g),
        edges_complete(objs, layers, g),
        0 <= i < g.nodes@.len(),
        !g.nodes@[i].known,
        node_sound(objs, layers, g.nodes@[i]),
    ensures
        touched(g, i),
{
    let kv = g.nodes@[i].key@;
    if exists|a: int, b: int| #[trigger] routes_pair(objs, layers, a, b) && backend_key(objs, a, b) == kv {
        let (a, b) = choose|a: int, b: int| #[trigger] routes_pair(objs, layers, a, b) && backend_key(objs, a, b) == kv;
        lemma_target_touched(g, (vkey(objs, a), backend_key(objs, a, b), EdgeKind::Routes), i);
    } else if exists|p: int| #[trigger] scheduled(objs, layers, p) && host_key(objs, p) == kv {
        let p = choose|p: int| #[trigger] scheduled(objs, layers, p) && host_key(objs, p) == kv;
        assert(pod_linked(objs, layers, g, p));
        lemma_target_touched(g, (vkey(objs, p), host_key(objs, p), EdgeKind::Schedules), i);
    } else if exists|p: int, c: int| #[trigger] mounts_pair(objs, layers, p, c) && claim_key(objs, p, c) == kv {
        let (p, c) = choose|p: int, c: int| #[trigger] mounts_pair(objs, layers, p, c) && claim_key(objs, p, c) == kv;
        assert(pod_linked(objs, layers, g, p));
        lemma_target_touched(g, (vkey(objs, p), claim_key(objs, p, c), EdgeKind::Mounts), i);
    } else if exists|p: int, c: int| #[trigger] uses_config(objs, layers, p, c) && config_key(objs, p, c) == kv {
        let (p, c) = choose|p: int, c: int| #[trigger] uses_config(objs, layers, p, c) && config_key(objs, p, c) == kv;
        assert(pod_linked(objs, layers, g, p));
        lemma_target_touched(g, (vkey(objs, p), config_key(objs, p, c), EdgeKind::Uses), i);
    } else {
        let (p, c) = choose|p: int, c: int| #[trigger] uses_secret(objs, layers, p, c) && secret_key(objs, p, c) == kv;
        assert(pod_linked(objs, layers, g, p));
        lemma_target_touched(g, (vkey(objs, p), secret_key(objs, p, c), EdgeKind::Uses), i);
    }
}

proof fn lemma_same_keys_has_edge(a: Graph, b: Graph, t: EdgeView)
    requires
        a.edges@.len() == b.edges@.len(),
        forall|e: int| 0 <= e < b.edges@.len() ==> edge_keys(b.nodes@, #[trigger] b.edges@[e]) == edge_keys(a.nodes@, a.edges@[e]),
        has_edge(a, t),
    ensures
        has_edge(b, t),
{
    let e = choose|e: int| 0 <= e < a.edges@.len() && edge_keys(a.nodes@, #[trigger] a.edges@[e]) == t;
    assert(edge_keys(b.nodes@, b.edges@[e]) == t);
}

proof fn lemma_finish_has_edge(a: Graph, b: Graph, t: EdgeView)
    requires
        a.nodes == b.nodes,
        forall|e: int| 0 <= e < a.edges@.len() ==> edge_in(b.edges@, #[trigger] a.edges@[e]),
        has_edge(a, t),
    ensures
        has_edge(b, t),
{
    let e = choose|e: int| 0 <= e < a.edges@.len() && edge_keys(a.nodes@, #[trigger] a.edges@[e]) == t;
    assert(edge_in(b.edges@, a.edges@[e]));
    let k = choose|k: int| 0 <= k < b.edges@.len() && #[trigger] b.edges@[k] == a.edges@[e];
    assert(edge_keys(b.nodes@, b.edges@[k]) == t);
}

proof fn lemma_complete_moves(objs: Seq<ObjectSummary>, layers: Layers, a: Graph, b: Graph)
    requires
        edges_complete(objs, layers, a),
        forall|t: EdgeView| has_edge(a, t) ==> #[trigger] has_edge(b, t),
    ensures
        edges_complete(objs, layers, b),
{
    assert forall|c: int, w: int, p: int| #[trigger] owns_pair(objs, layers, c, w, p) implies has_edge(b, (vkey(objs, p), vkey(objs, c), EdgeKind::Owns)) by {
        assert(has_edge(a, (vkey(objs, p), vkey(objs, c), EdgeKind::Owns)));
    }
    assert forall|s: int, p: int| #[trigger] selects_pair(objs, layers, s, p) implies has_edge(b, (vkey(objs, s), vkey(objs, p), EdgeKind::Selects)) by {
        assert(has_edge(a, (vkey(objs, s), vkey(objs, p), EdgeKind::Selects)));
    }
    assert forall|i: int, bk: int| #[trigger] routes_pair(objs, layers, i, bk) implies has_edge(b, (vkey(objs, i), backend_key(objs, i, bk), EdgeKind::Routes)) by {
        assert(has_edge(a, (vkey(objs, i), backend_key(objs, i, bk), EdgeKind::Routes)));
    }
    assert forall|p: int| 0 <= p < objs.len() implies #[trigger] pod_linked(objs, layers, b, p) by {
        assert(pod_linked(objs, layers, a, p));
        if scheduled(objs, layers, p) {
            assert(has_edge(a, (vkey(objs, p), host_key(objs, p), EdgeKind::Schedules)));
        }
        assert forall|c: int| #[trigger] mounts_pair(objs, layers, p, c) implies has_edge(b, (vkey(objs, p), claim_key(objs, p, c), EdgeKind::Mounts)) by {
            assert(has_edge(a, (vkey(objs, p), claim_key(objs, p, c), EdgeKind::Mounts)));
        }
        assert forall|c: int| #[trigger] uses_config(objs, layers, p, c) implies has_edge(b, (vkey(objs, p), config_key(objs, p, c), EdgeKind::Uses)) by {
            assert(has_edge(a, (vkey(objs, p), config_key(objs, p, c), EdgeKind::Uses)));
        }
        assert forall|c: int| #[trigger] uses_secret(objs, layers, p, c) implies has_edge(b, (vkey(objs, p), secret_key(objs, p, c), EdgeKind::Uses)) by {
            assert(has_edge(a, (vkey(objs, p), secret_key(objs, p, c), EdgeKind::Uses)));
        }
    }
}

/// Builds the graph of a snapshot of objects.
///
/// Hidden ReplicaSets are folded: their pods are linked to the Deployment
/// that owns them. A ReplicaSet without controller stays visible whatever
/// happens: it is then the workload.
pub fn build_graph(objects: &[ObjectSummary], layers: &Layers, hide_isolated: bool) -> (g: Graph)
    ensures
        built_from(objects@, *layers, hide_isolated, g),
{
    let ghost objs = objects@;
    let kinds = object_kinds(objects);
    let vis = visibility(objects, &kinds, layers);
    let (mut g, node_of) = place_nodes(objects, &kinds, layers, &vis);
    let ghost g_placed = g;
    link_owners(&mut g, objects, &kinds, layers, &node_of);
    let ghost g_owned = g;
    link_selectors(&mut g, objects, &kinds, layers, &node_of);
    let ghost g_selected = g;
    link_ingresses(&mut g, objects, &kinds, layers, &node_of);
    let ghost g_routed = g;
    link_pods(&mut g, objects, &kinds, layers, &node_of);
    let ghost g1 = g;
    proof {
        assert forall|c: int, w: int, p: int| #[trigger] owns_pair(objs, *layers, c, w, p) implies has_edge(g1, (vkey(objs, p), vkey(objs, c), EdgeKind::Owns)) by {
            lemma_grows_has_edge(g_owned, g_selected, (vkey(objs, p), vkey(objs, c), EdgeKind::Owns));
            lemma_grows_has_edge(g_selected, g_routed, (vkey(objs, p), vkey(objs, c), EdgeKind::Owns));
            lemma_grows_has_edge(g_routed, g1, (vkey(objs, p), vkey(objs, c), EdgeKind::Owns));
        }
        assert forall|s2: int, p: int| #[trigger] selects_pair(objs, *layers, s2, p) implies has_edge(g1, (vkey(objs, s2), vkey(objs, p), EdgeKind::Selects)) by {
            lemma_grows_has_edge(g_selected, g_routed, (vkey(objs, s2), vkey(objs, p), EdgeKind::Selects));
            lemma_grows_has_edge(g_routed, g1, (vkey(objs, s2), vkey(objs, p), EdgeKind::Selects));
        }
        assert forall|i: int, b: int| #[trigger] routes_pair(objs, *layers, i, b) implies has_edge(g1, (vkey(objs, i), backend_key(objs, i, b), EdgeKind::Routes)) by {
            lemma_grows_has_edge(g_routed, g1, (vkey(objs, i), backend_key(objs, i, b), EdgeKind::Routes));
        }
        assert(edges_complete(objs, *layers, g1));
    }
    if hide_isolated {
        drop_isolated(&mut g);
    }
    let ghost g2 = g;
    proof {
        if hide_isolated {
            assert forall|t: EdgeView| has_edge(g1, t) implies #[trigger] has_edge(g2, t) by {
                lemma_same_keys_has_edge(g1, g2, t);
            }
            lemma_complete_moves(objs, *layers, g1, g2);
            assert forall|e: int| 0 <= e < g2.edges@.len() implies edge_justified(objs, *layers, edge_keys(g2.nodes@, #[trigger] g2.edges@[e])) by {
                assert(edge_keys(g2.nodes@, g2.edges@[e]) == edge_keys(g1.nodes@, g1.edges@[e]));
            }
            assert forall|i: int| 0 <= i < g2.nodes@.len() implies node_sound(objs, *layers, #[trigger] g2.nodes@[i]) by {
                assert(kept_from(g1, g2, i));
                let j = choose|j: int| 0 <= j < g1.nodes@.len() && touched(g1, j) && #[trigger] same_node(g2.nodes@[i], g1.nodes@[j]);
                lemma_same_node_sound(objs, *layers, g2.nodes@[i], g1.nodes@[j]);
            }
            assert forall|j: int|
                0 <= j < objs.len() && visible(objs, *layers, j) && key_touched(g2, vkey(objs, j))
                    implies has_listed_node(g2, #[trigger] vkey(objs, j)) by {
                let kv = vkey(objs, j);
                let e = choose|e: int| 0 <= e < g2.edges@.len() && #[trigger] link_touches_key(g2, e, kv);
                assert(edge_keys(g2.nodes@, g2.edges@[e]) == edge_keys(g1.nodes@, g1.edges@[e]));
                let ed = g1.edges@[e];
                let x = if g1.nodes@[ed.from as int].key@ == kv { ed.from as int } else { ed.to as int };
                assert(touches(g1, e, x));
                assert(touched(g1, x));
                assert(kept_in(g1, g2, x));
                let y = node_of@[j]->0 as int;
                lemma_unique_index(g1.nodes@, x, y);
                let i = choose|i: int| 0 <= i < g2.nodes@.len() && #[trigger] same_node(g2.nodes@[i], g1.nodes@[x]);
                assert(g2.nodes@[i].key@ == kv && g2.nodes@[i].known);
            }
        } else {
            assert forall|j: int|
                0 <= j < objs.len() && visible(objs, *layers, j) implies has_listed_node(g2, #[trigger] vkey(objs, j)) by {
                let y = node_of@[j]->0 as int;
                assert(g2.nodes@[y].key@ == vkey(objs, j));
            }
        }
    }
    finish(&mut g);
    proof {
        assert forall|t: EdgeView| has_edge(g2, t) implies #[trigger] has_edge(g, t) by {
            lemma_finish_has_edge(g2, g, t);
        }
        lemma_complete_moves(objs, *layers, g2, g);
        assert forall|e: int| 0 <= e < g.edges@.len() implies edge_justified(objs, *layers, edge_keys(g.nodes@, #[trigger] g.edges@[e])) by {
            assert(edge_in(g2.edges@, g.edges@[e]));
            let k = choose|k: int| 0 <= k < g2.edges@.len() && #[trigger] g2.edges@[k] == g.edges@[e];
            assert(edge_keys(g2.nodes@, g2.edges@[k]) == edge_keys(g.nodes@, g.edges@[e]));
        }
        assert forall|j: int|
            0 <= j < objs.len() && visible(objs, *layers, j) && (!hide_isolated || key_touched(g, vkey(objs, j)))
                implies has_listed_node(g, #[trigger] vkey(objs, j)) by {
            if hide_isolated {
                let kv = vkey(objs, j);
                let e = choose|e: int| 0 <= e < g.edges@.len() && #[trigger] link_touches_key(g, e, kv);
                assert(edge_in(g2.edges@, g.edges@[e]));
                let k = choose|k: int| 0 <= k < g2.edges@.len() && #[trigger] g2.edges@[k] == g.edges@[e];
                assert(link_touches_key(g2, k, kv));
                assert(has_listed_node(g2, kv));
            } else {
                assert(has_listed_node(g2, vkey(objs, j)));
            }
        }
        if hide_isolated {
            assert forall|i: int| 0 <= i < g.nodes@.len() implies #[trigger] touched(g, i) by {
                assert(touched(g2, i));
                let e = choose|e: int| 0 <= e < g2.edges@.len() && #[trigger] touches(g2, e, i);
                assert(edge_in(g.edges@, g2.edges@[e]));
                let k = choose|k: int| 0 <= k < g.edges@.len() && #[trigger] g.edges@[k] == g2.edges@[e];
                assert(touches(g, k, i));
            }
        }
        assert forall|i: int| 0 <= i < g.nodes@.len() implies node_shape(*layers, #[trigger] g.nodes@[i]) by {
            lemma_node_shape(objs, *layers, g.nodes@[i]);
        }
        assert forall|i: int| #![trigger g.nodes@[i]] 0 <= i < g.nodes@.len() && !g.nodes@[i].known implies touched(g, i) by {
            lemma_placeholder_touched(objs, *layers, g, i);
        }
    }
    g
}

// ---------------------------------------------------------------------------
// The state of the screen
// ---------------------------------------------------------------------------

/// Reading of a topology snapshot, as sent to the backend.
#[derive(Debug, Clone, PartialEq, Eq)]
pub struct GraphLoad {
    /// Identifier of the request.
    pub id: u64,
    /// Cluster read.
    pub cluster: String,
    /// Namespace read, all of them when absent.
    pub namespace: Option<String>,
}

/// State of the topology screen: the snapshot, the preferences, the graph.
///
/// The preferences (layers, layout, isolated objects, legend) survive a change
/// of cluster; everything else is forgotten by `clear`.
#[derive(Debug)]
pub struct GraphState {
    /// Last snapshot received.
    pub objects: Vec<ObjectSummary>,
    /// Kinds that could not be read, with the cause.
    pub warnings: Vec<String>,
    /// True once a snapshot was received.
    pub loaded: bool,
    /// True once a reading was asked: avoids asking at every frame when the
    /// first attempt failed.
    pub attempted: bool,
    /// Reading in flight.
    pub pending: Option<u64>,
    /// Layers shown.
    pub layers: Layers,
    /// Chosen layout.
    pub mode: LayoutMode,
    /// Hide the objects without any link.
    pub hide_isolated: bool,
    /// Show the legend.
    pub show_legend: bool,
    /// Graph built from `objects` and `layers`.
    pub graph: Graph,
    /// Keys of the nodes that have a position on the scene; the positions
    /// themselves, points of the plane, are kept by the drawing.
    pub placed: Vec<NodeKey>,
    /// Nodes moved by hand, which the layouts no longer touch.
    pub pinned: Vec<NodeKey>,
    /// Selected node, whose neighbourhood is highlighted.
    pub focus: Option<NodeKey>,
    /// True when the graph must be rebuilt before the next drawing.
    pub dirty: bool,
    /// True when the view must frame the whole graph at the next drawing.
    pub fit_requested: bool,
    /// Remaining frames of settling of the organic layout.
    pub settle: u32,
}

/// Frames of settling of the organic layout after a new placement.
pub const SETTLE_STEPS: u32 = 220;

/// The values of a list of keys.
pub open spec fn keys_view(v: Seq<NodeKey>) -> Seq<KeyView> {
    v.map_values(|k: NodeKey| k@)
}

/// The keys of the nodes, in order.
pub open spec fn node_keys(nodes: Seq<GraphNode>) -> Seq<KeyView> {
    nodes.map_values(|n: GraphNode| n.key@)
}

/// Some node of `g` carries `kv`.
pub open spec fn in_graph(g: Graph, kv: KeyView) -> bool {
    exists|i: int| 0 <= i < g.nodes@.len() && #[trigger] g.nodes@[i].key@ == kv
}

/// The keys of `ks` that name a node of `g`, in order.
pub open spec fn keys_in_graph(ks: Seq<KeyView>, g: Graph) -> Seq<KeyView>
    decreases ks.len(),
{
    if ks.len() == 0 {
        Seq::empty()
    } else {
        let r = keys_in_graph(ks.drop_last(), g);
        if in_graph(g, ks.last()) {
            r.push(ks.last())
        } else {
            r
        }
    }
}

/// `ks` without the key `kv`, in order.
pub open spec fn without_key(ks: Seq<KeyView>, kv: KeyView) -> Seq<KeyView>
    decreases ks.len(),
{
    if ks.len() == 0 {
        Seq::empty()
    } else {
        let r = without_key(ks.drop_last(), kv);
        if ks.last() == kv {
            r
        } else {
            r.push(ks.last())
        }
    }
}

/// Copies of the keys of `v` that name a node of `g`.
fn keep_in_graph(v: &Vec<NodeKey>, g: &Graph) -> (r: Vec<NodeKey>)
    ensures
        keys_view(r@) == keys_in_graph(keys_view(v@), *g),
{
    let mut r: Vec<NodeKey> = Vec::new();
    let mut i: usize = 0;
    while i < v.len()
        invariant
            i <= v@.len(),
            keys_view(r@) == keys_in_graph(keys_view(v@.take(i as int)), *g),
        decreases v@.len() - i,
    {
        proof {
            assert(keys_view(v@.take(i + 1)).drop_last() =~= keys_view(v@.take(i as int)));
            assert(keys_view(v@.take(i + 1)).last() == v@[i as int]@);
        }
        if g.position(&v[i]).is_some() {
            let ghost before = r@;
            r.push(v[i].copy());
            proof {
                assert(keys_view(r@) =~= keys_view(before).push(v@[i as int]@));
            }
        } else {
            proof {
                assert(!in_graph(*g, v@[i as int]@));
            }
        }
        i += 1;
    }
    assert(v@.take(v@.len() as int) =~= v@);
    r
}

/// Copies of the keys of `v` other than `key`.
fn drop_key(v: &Vec<NodeKey>, key: &NodeKey) -> (r: Vec<NodeKey>)
    ensures
        keys_view(r@) == without_key(keys_view(v@), key@),
{
    let mut r: Vec<NodeKey> = Vec::new();
    let mut i: usize = 0;
    while i < v.len()
        invariant
            i <= v@.len(),
            keys_view(r@) == without_key(keys_view(v@.take(i as int)), key@),
        decreases v@.len() - i,
    {
        proof {
            assert(keys_view(v@.take(i + 1)).drop_last() =~= keys_view(v@.take(i as int)));
            assert(keys_view(v@.take(i + 1)).last() == v@[i as int]@);
        }
        if !v[i].same(key) {
            let ghost before = r@;
            r.push(v[i].copy());
            proof {
                assert(keys_view(r@) =~= keys_view(before).push(v@[i as int]@));
            }
        }
        i += 1;
    }
    assert(v@.take(v@.len() as int) =~= v@);
    r
}

/// True when `key` is one of the keys of `v`.
fn key_listed(v: &Vec<NodeKey>, key: &NodeKey) -> (b: bool)
    ensures
        b == keys_view(v@).contains(key@),
{
    let mut i: usize = 0;
    while i < v.len()
        invariant
            i <= v@.len(),
            forall|j: int| 0 <= j < i ==> v@[j]@ != key@,
        decreases v@.len() - i,
    {
        if v[i].same(key) {
            assert(keys_view(v@)[i as int] == key@);
            return true;
        }
        i += 1;
    }
    proof {
        if keys_view(v@).contains(key@) {
            let j = choose|j: int| 0 <= j < keys_view(v@).len() && keys_view(v@)[j] == key@;
            assert(v@[j]@ == key@);
        }
    }
    false
}

/// True when some node of `g` has no key among `placed`.
fn some_unplaced(g: &Graph, placed: &Vec<NodeKey>) -> (b: bool)
    ensures
        b == exists|i: int| 0 <= i < g.nodes@.len() && !keys_view(placed@).contains(#[trigger] g.nodes@[i].key@),
{
    let mut i: usize = 0;
    while i < g.nodes.len()
        invariant
            i <= g.nodes@.len(),
            forall|j: int| 0 <= j < i ==> keys_view(placed@).contains(#[trigger] g.nodes@[j].key@),
        decreases g.nodes@.len() - i,
    {
        if !key_listed(placed, &g.nodes[i].key) {
            return true;
        }
        i += 1;
    }
    false
}

/// Copies of the keys of the nodes of `g`, in order.
fn keys_of_graph(g: &Graph) -> (r: Vec<NodeKey>)
    ensures
        keys_view(r@) == node_keys(g.nodes@),
{
    let mut r: Vec<NodeKey> = Vec::new();
    let mut i: usize = 0;
    while i < g.nodes.len()
        invariant
            i <= g.nodes@.len(),
            keys_view(r@) == node_keys(g.nodes@.take(i as int)),
        decreases g.nodes@.len() - i,
    {
        let ghost before = r@;
        r.push(g.nodes[i].key.copy());
        proof {
            assert(keys_view(r@) =~= keys_view(before).push(g.nodes@[i as int].key@));
            assert(node_keys(g.nodes@.take(i + 1)) =~= node_keys(g.nodes@.take(i as int)).push(g.nodes@[i as int].key@));
        }
        i += 1;
    }
    assert(g.nodes@.take(g.nodes@.len() as int) =~= g.nodes@);
    r
}

/// The empty graph.
pub fn empty_graph() -> (g: Graph)
    ensures
        g.nodes@.len() == 0,
        g.edges@.len() == 0,
        g.adjacency@.len() == 0,
{
    Graph { nodes: Vec::new(), edges: Vec::new(), adjacency: Vec::new() }
}

/// True when `s` is the state of a screen that holds nothing but `prefs`.
pub open spec fn blank_with(s: GraphState, layers: Layers, mode: LayoutMode, hide_isolated: bool, show_legend: bool) -> bool {
    &&& s.objects@.len() == 0
    &&& s.warnings@.len() == 0
    &&& !s.loaded
    &&& !s.attempted
    &&& s.pending is None
    &&& s.layers == layers
    &&& s.mode == mode
    &&& s.hide_isolated == hide_isolated
    &&& s.show_legend == show_legend
    &&& s.graph.nodes@.len() == 0
    &&& s.graph.edges@.len() == 0
    &&& s.graph.adjacency@.len() == 0
    &&& s.placed@.len() == 0
    &&& s.pinned@.len() == 0
    &&& s.focus is None
    &&& !s.dirty
    &&& !s.fit_requested
    &&& s.settle == 0
}

impl GraphState {
    /// A screen that has read nothing yet, with the default preferences.
    pub fn new() -> (s: Self)
        ensures
            blank_with(s, default_layers(), LayoutMode::Layered, false, false),
    {
        GraphState {
            objects: Vec::new(),
            warnings: Vec::new(),
            loaded: false,
            attempted: false,
            pending: None,
            layers: Layers::default(),
            mode: LayoutMode::Layered,
            hide_isolated: false,
            show_legend: false,
            graph: empty_graph(),
            placed: Vec::new(),
            pinned: Vec::new(),
            focus: None,
            dirty: false,
            fit_requested: false,
            settle: 0,
        }
    }

    /// Stores a snapshot received from the cluster.
    pub fn receive(&mut self, objects: Vec<ObjectSummary>, warnings: Vec<String>)
        ensures
            final(self).objects == objects,
            final(self).warnings == warnings,
            final(self).loaded,
            final(self).pending is None,
            final(self).dirty,
            final(self).attempted == old(self).attempted,
            final(self).layers == old(self).layers,
            final(self).mode == old(self).mode,
            final(self).hide_isolated == old(self).hide_isolated,
            final(self).show_legend == old(self).show_legend,
            final(self).graph == old(self).graph,
            final(self).placed == old(self).placed,
            final(self).pinned == old(self).pinned,
            final(self).focus == old(self).focus,
            final(self).fit_requested == old(self).fit_requested,
            final(self).settle == old(self).settle,
    {
        self.objects = objects;
        self.warnings = warnings;
        self.loaded = true;
        self.pending = None;
        self.dirty = true;
    }

    /// Rebuilds the graph from the snapshot and the preferences, and tells
    /// whether some node has no position yet, so that the drawing lays the
    /// graph out again. Positions and pins are kept for the nodes still there
    /// and forgotten for the others; a focus on a node that is gone is
    /// dropped. A new layout in the organic mode settles again for
    /// `SETTLE_STEPS` frames, and the first one frames the whole graph.
    pub fn rebuild(&mut self) -> (fresh: bool)
        ensures
            built_from(final(self).objects@, final(self).layers, final(self).hide_isolated, final(self).graph),
            !final(self).dirty,
            final(self).objects == old(self).objects,
            final(self).warnings == old(self).warnings,
            final(self).loaded == old(self).loaded,
            final(self).attempted == old(self).attempted,
            final(self).pending == old(self).pending,
            final(self).layers == old(self).layers,
            final(self).mode == old(self).mode,
            final(self).hide_isolated == old(self).hide_isolated,
            final(self).show_legend == old(self).show_legend,
            keys_view(final(self).placed@) == node_keys(final(self).graph.nodes@),
            keys_view(final(self).pinned@) == keys_in_graph(keys_view(old(self).pinned@), final(self).graph),
            fresh == exists|i: int|
                0 <= i < final(self).graph.nodes@.len() && !keys_view(old(self).placed@).contains(
                    #[trigger] final(self).graph.nodes@[i].key@,
                ),
            final(self).settle == if fresh && old(self).mode == LayoutMode::Organic {
                SETTLE_STEPS
            } else {
                old(self).settle
            },
            final(self).fit_requested == if fresh && keys_in_graph(keys_view(old(self).placed@), final(self).graph).len() == 0 {
                true
            } else {
                old(self).fit_requested
            },
            match old(self).focus {
                Some(f) => if exists|i: int| 0 <= i < final(self).graph.nodes@.len() && #[trigger] final(self).graph.nodes@[i].key@ == f@ {
                    final(self).focus == old(self).focus
                } else {
                    final(self).focus is None
                },
                None => final(self).focus is None,
            },
    {
        self.dirty = false;
        self.graph = build_graph(self.objects.as_slice(), &self.layers, self.hide_isolated);
        let alive = match &self.focus {
            Some(f) => self.graph.position(f).is_some(),
            None => true,
        };
        if !alive {
            self.focus = None;
        }
        let pinned = keep_in_graph(&self.pinned, &self.graph);
        self.pinned = pinned;
        let first = keep_in_graph(&self.placed, &self.graph).len() == 0;
        let fresh = some_unplaced(&self.graph, &self.placed);
        self.placed = keys_of_graph(&self.graph);
        if fresh {
            if let LayoutMode::Organic = self.mode {
                self.settle = SETTLE_STEPS;
            }
            if first {
                self.fit_requested = true;
            }
        }
        fresh
    }

    /// Pins a node, or unpins a pinned one.
    pub fn toggle_pin(&mut self, key: &NodeKey)
        ensures
            keys_view(old(self).pinned@).contains(key@) ==> keys_view(final(self).pinned@) == without_key(
                keys_view(old(self).pinned@),
                key@,
            ),
            !keys_view(old(self).pinned@).contains(key@) ==> keys_view(final(self).pinned@) == keys_view(
                old(self).pinned@,
            ).push(key@),
            *final(self) == (GraphState { pinned: final(self).pinned, ..*old(self) }),
    {
        if key_listed(&self.pinned, key) {
            let kept = drop_key(&self.pinned, key);
            self.pinned = kept;
        } else {
            self.pinned.push(key.copy());
            proof {
                assert(keys_view(self.pinned@) =~= keys_view(old(self).pinned@).push(key@));
            }
        }
    }

    /// Lays the whole graph out again: every pin and position forgotten, the
    /// graph rebuilt and framed at the next drawing.
    pub fn relayout(&mut self)
        ensures
            final(self).pinned@.len() == 0,
            final(self).placed@.len() == 0,
            final(self).dirty,
            final(self).fit_requested,
            *final(self) == (GraphState {
                pinned: final(self).pinned,
                placed: final(self).placed,
                dirty: true,
                fit_requested: true,
                ..*old(self)
            }),
    {
        self.pinned = Vec::new();
        self.placed = Vec::new();
        self.dirty = true;
        self.fit_requested = true;
    }

    /// Forgets everything that depends on the cluster; the preferences stay.
    pub fn clear(&mut self)
        ensures
            blank_with(
                *final(self),
                old(self).layers,
                old(self).mode,
                old(self).hide_isolated,
                old(self).show_legend,
            ),
    {
        self.objects = Vec::new();
        self.warnings = Vec::new();
        self.loaded = false;
        self.attempted = false;
        self.pending = None;
        self.graph = empty_graph();
        self.placed = Vec::new();
        self.pinned = Vec::new();
        self.focus = None;
        self.dirty = false;
        self.fit_requested = false;
        self.settle = 0;
    }
}

/// Asks for a topology snapshot: on a selected cluster, when no reading is in
/// flight. The request reserved as `id` is then in flight and the reading to
/// send is returned; otherwise nothing changes.
pub fn request(st: &mut GraphState, cluster: &Option<String>, namespace: &Option<String>, id: u64) -> (r: Option<GraphLoad>)
    ensures
        (cluster is Some && old(st).pending is None) == (r is Some),
        match r {
            Some(load) => {
                &&& load.id == id
                &&& opt_view(Some(load.cluster)) == opt_view(*cluster)
                &&& opt_view(load.namespace) == opt_view(*namespace)
                &&& *final(st) == (GraphState { pending: Some(id), attempted: true, ..*old(st) })
            },
            None => *final(st) == *old(st),
        },
{
    let cluster = match cluster {
        Some(c) => c.clone(),
        None => {
            return None;
        },
    };
    if st.pending.is_some() {
        return None;
    }
    st.pending = Some(id);
    st.attempted = true;
    Some(GraphLoad { id, cluster, namespace: crate::text::clone_opt(namespace) })
}

} // verus!

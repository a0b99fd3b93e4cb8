//! Topology screen: the graph of the cluster's objects and of their links.
//!
//! Every object is a node, every known relation a link:
//!
//! | Link | Source → target | Where it comes from |
//! | --- | --- | --- |
//! | owns | Deployment → ReplicaSet → Pod, StatefulSet → Pod, DaemonSet → Pod, CronJob → Job → Pod | `metadata.ownerReferences` |
//! | selects | Service → Pod | `spec.selector` against the pod's labels |
//! | routes | Ingress → Service | backends of the rules and default backend |
//! | schedules | Pod → Node | `spec.nodeName` |
//! | mounts | Pod → PersistentVolumeClaim | volumes of the pod |
//! | uses | Pod → ConfigMap / Secret | volumes, `envFrom`, `valueFrom` |
use vstd::prelude::*;

use crate::text::{
    ascii_lower_seq, ascii_lowercase_range, chars_of, clone_opt, contains_seq, contains_str, opt_view,
    same_opt_text, same_text,
};
use crate::widgets::confirm::ResourceRef;
use self::layout::kind_rank;

pub mod assembly;
pub mod layout;

pub use self::assembly::{build_graph, request, selector_matches, GraphLoad, GraphState};

verus! {

/// Label set on the request that reads the topology.
pub const LBL_GRAPH: &'static str = "Topologie";

/// Families of objects drawn, in column order.
#[derive(Debug, Clone, Copy, PartialEq, Eq, Structural, Hash, PartialOrd, Ord)]
pub enum NodeKind {
    Ingress,
    Service,
    Deployment,
    StatefulSet,
    DaemonSet,
    CronJob,
    ReplicaSet,
    Job,
    Pod,
    VolumeClaim,
    ConfigMap,
    Secret,
    Node,
}

/// Kubernetes kind of a family.
pub open spec fn kind_name(k: NodeKind) -> Seq<char> {
    match k {
        NodeKind::Ingress => "Ingress"@,
        NodeKind::Service => "Service"@,
        NodeKind::Deployment => "Deployment"@,
        NodeKind::StatefulSet => "StatefulSet"@,
        NodeKind::DaemonSet => "DaemonSet"@,
        NodeKind::CronJob => "CronJob"@,
        NodeKind::ReplicaSet => "ReplicaSet"@,
        NodeKind::Job => "Job"@,
        NodeKind::Pod => "Pod"@,
        NodeKind::VolumeClaim => "PersistentVolumeClaim"@,
        NodeKind::ConfigMap => "ConfigMap"@,
        NodeKind::Secret => "Secret"@,
        NodeKind::Node => "Node"@,
    }
}

/// Family of a Kubernetes kind, `None` when it is not drawn.
pub open spec fn kind_of_name(s: Seq<char>) -> Option<NodeKind> {
    if s == "Ingress"@ {
        Some(NodeKind::Ingress)
    } else if s == "Service"@ {
        Some(NodeKind::Service)
    } else if s == "Deployment"@ {
        Some(NodeKind::Deployment)
    } else if s == "StatefulSet"@ {
        Some(NodeKind::StatefulSet)
    } else if s == "DaemonSet"@ {
        Some(NodeKind::DaemonSet)
    } else if s == "CronJob"@ {
        Some(NodeKind::CronJob)
    } else if s == "ReplicaSet"@ {
        Some(NodeKind::ReplicaSet)
    } else if s == "Job"@ {
        Some(NodeKind::Job)
    } else if s == "Pod"@ {
        Some(NodeKind::Pod)
    } else if s == "PersistentVolumeClaim"@ {
        Some(NodeKind::VolumeClaim)
    } else if s == "ConfigMap"@ {
        Some(NodeKind::ConfigMap)
    } else if s == "Secret"@ {
        Some(NodeKind::Secret)
    } else if s == "Node"@ {
        Some(NodeKind::Node)
    } else {
        None
    }
}

/// Column of a family in the layered layout.
pub open spec fn column_of(k: NodeKind) -> nat {
    match k {
        NodeKind::Ingress => 0,
        NodeKind::Service => 1,
        NodeKind::Deployment | NodeKind::StatefulSet | NodeKind::DaemonSet | NodeKind::CronJob => 2,
        NodeKind::ReplicaSet | NodeKind::Job => 3,
        NodeKind::Pod => 4,
        NodeKind::VolumeClaim | NodeKind::ConfigMap | NodeKind::Secret => 5,
        NodeKind::Node => 6,
    }
}

/// Usual API group and version of a family.
pub open spec fn group_version_of(k: NodeKind) -> (Seq<char>, Seq<char>) {
    match k {
        NodeKind::Ingress => ("networking.k8s.io"@, "v1"@),
        NodeKind::Deployment | NodeKind::StatefulSet | NodeKind::DaemonSet | NodeKind::ReplicaSet => (
            "apps"@,
            "v1"@,
        ),
        NodeKind::CronJob | NodeKind::Job => ("batch"@, "v1"@),
        _ => (""@, "v1"@),
    }
}

/// Plural resource name of a family.
pub open spec fn plural_of(k: NodeKind) -> Seq<char> {
    match k {
        NodeKind::Ingress => "ingresses"@,
        NodeKind::Service => "services"@,
        NodeKind::Deployment => "deployments"@,
        NodeKind::StatefulSet => "statefulsets"@,
        NodeKind::DaemonSet => "daemonsets"@,
        NodeKind::CronJob => "cronjobs"@,
        NodeKind::ReplicaSet => "replicasets"@,
        NodeKind::Job => "jobs"@,
        NodeKind::Pod => "pods"@,
        NodeKind::VolumeClaim => "persistentvolumeclaims"@,
        NodeKind::ConfigMap => "configmaps"@,
        NodeKind::Secret => "secrets"@,
        NodeKind::Node => "nodes"@,
    }
}

/// The plural of a family is its kind in lower case followed by `s`, but
/// for `Ingress`, whose plural is `ingresses`; it is never empty.
pub proof fn lemma_plural_rule(k: NodeKind)
    ensures
        plural_of(k).len() > 0,
        plural_of(k) == if k == NodeKind::Ingress {
            "ingresses"@
        } else {
            ascii_lower_seq(kind_name(k)) + "s"@
        },
{
    reveal_strlit("s");
    match k {
        NodeKind::Ingress => {
            reveal_strlit("ingresses");
        },
        NodeKind::Service => {
            reveal_strlit("Service");
            reveal_strlit("services");
            assert(ascii_lower_seq("Service"@) + "s"@ =~= "services"@);
        },
        NodeKind::Deployment => {
            reveal_strlit("Deployment");
            reveal_strlit("deployments");
            assert(ascii_lower_seq("Deployment"@) + "s"@ =~= "deployments"@);
        },
        NodeKind::StatefulSet => {
            reveal_strlit("StatefulSet");
            reveal_strlit("statefulsets");
            assert(ascii_lower_seq("StatefulSet"@) + "s"@ =~= "statefulsets"@);
        },
        NodeKind::DaemonSet => {
            reveal_strlit("DaemonSet");
            reveal_strlit("daemonsets");
            assert(ascii_lower_seq("DaemonSet"@) + "s"@ =~= "daemonsets"@);
        },
        NodeKind::CronJob => {
            reveal_strlit("CronJob");
            reveal_strlit("cronjobs");
            assert(ascii_lower_seq("CronJob"@) + "s"@ =~= "cronjobs"@);
        },
        NodeKind::ReplicaSet => {
            reveal_strlit("ReplicaSet");
            reveal_strlit("replicasets");
            assert(ascii_lower_seq("ReplicaSet"@) + "s"@ =~= "replicasets"@);
        },
        NodeKind::Job => {
            reveal_strlit("Job");
            reveal_strlit("jobs");
            assert(ascii_lower_seq("Job"@) + "s"@ =~= "jobs"@);
        },
        NodeKind::Pod => {
            reveal_strlit("Pod");
            reveal_strlit("pods");
            assert(ascii_lower_seq("Pod"@) + "s"@ =~= "pods"@);
        },
        NodeKind::VolumeClaim => {
            reveal_strlit("PersistentVolumeClaim");
            reveal_strlit("persistentvolumeclaims");
            assert(ascii_lower_seq("PersistentVolumeClaim"@) + "s"@ =~= "persistentvolumeclaims"@);
        },
        NodeKind::ConfigMap => {
            reveal_strlit("ConfigMap");
            reveal_strlit("configmaps");
            assert(ascii_lower_seq("ConfigMap"@) + "s"@ =~= "configmaps"@);
        },
        NodeKind::Secret => {
            reveal_strlit("Secret");
            reveal_strlit("secrets");
            assert(ascii_lower_seq("Secret"@) + "s"@ =~= "secrets"@);
        },
        NodeKind::Node => {
            reveal_strlit("Node");
            reveal_strlit("nodes");
            assert(ascii_lower_seq("Node"@) + "s"@ =~= "nodes"@);
        },
    }
}

/// Columns follow the declaration order of the families, from the ingresses
/// in column 0 to the cluster nodes in column 6.
pub proof fn lemma_column_order(a: NodeKind, b: NodeKind)
    ensures
        column_of(a) <= 6,
        kind_rank(a) <= kind_rank(b) ==> column_of(a) <= column_of(b),
        column_of(NodeKind::Ingress) == 0,
        column_of(NodeKind::Service) == 1,
        column_of(NodeKind::Pod) == 4,
        column_of(NodeKind::Node) == 6,
{
}

/// Short label drawn on a node.
pub open spec fn label_of_kind(k: NodeKind) -> Seq<char> {
    match k {
        NodeKind::VolumeClaim => "PVC"@,
        NodeKind::Node => "Nœud"@,
        other => kind_name(other),
    }
}

impl NodeKind {
    /// Family of a Kubernetes kind, `None` when it is not drawn.
    pub fn from_kind(kind: &str) -> (r: Option<Self>)
        ensures
            r == kind_of_name(kind@),
    {
        if same_text(kind, "Ingress") {
            Some(NodeKind::Ingress)
        } else if same_text(kind, "Service") {
            Some(NodeKind::Service)
        } else if same_text(kind, "Deployment") {
            Some(NodeKind::Deployment)
        } else if same_text(kind, "StatefulSet") {
            Some(NodeKind::StatefulSet)
        } else if same_text(kind, "DaemonSet") {
            Some(NodeKind::DaemonSet)
        } else if same_text(kind, "CronJob") {
            Some(NodeKind::CronJob)
        } else if same_text(kind, "ReplicaSet") {
            Some(NodeKind::ReplicaSet)
        } else if same_text(kind, "Job") {
            Some(NodeKind::Job)
        } else if same_text(kind, "Pod") {
            Some(NodeKind::Pod)
        } else if same_text(kind, "PersistentVolumeClaim") {
            Some(NodeKind::VolumeClaim)
        } else if same_text(kind, "ConfigMap") {
            Some(NodeKind::ConfigMap)
        } else if same_text(kind, "Secret") {
            Some(NodeKind::Secret)
        } else if same_text(kind, "Node") {
            Some(NodeKind::Node)
        } else {
            None
        }
    }

    /// Kubernetes kind.
    pub fn kind(self) -> (s: &'static str)
        ensures
            s@ == kind_name(self),
    {
        match self {
            NodeKind::Ingress => "Ingress",
            NodeKind::Service => "Service",
            NodeKind::Deployment => "Deployment",
            NodeKind::StatefulSet => "StatefulSet",
            NodeKind::DaemonSet => "DaemonSet",
            NodeKind::CronJob => "CronJob",
            NodeKind::ReplicaSet => "ReplicaSet",
            NodeKind::Job => "Job",
            NodeKind::Pod => "Pod",
            NodeKind::VolumeClaim => "PersistentVolumeClaim",
            NodeKind::ConfigMap => "ConfigMap",
            NodeKind::Secret => "Secret",
            NodeKind::Node => "Node",
        }
    }

    /// Short label drawn on the node.
    pub fn label(self) -> (s: &'static str)
        ensures
            s@ == label_of_kind(self),
    {
        match self {
            NodeKind::VolumeClaim => "PVC",
            NodeKind::Node => "Nœud",
            other => other.kind(),
        }
    }

    /// Plural name of the resource, to build a reference.
    pub fn plural(self) -> (s: &'static str)
        ensures
            s@ == plural_of(self),
    {
        match self {
            NodeKind::Ingress => "ingresses",
            NodeKind::Service => "services",
            NodeKind::Deployment => "deployments",
            NodeKind::StatefulSet => "statefulsets",
            NodeKind::DaemonSet => "daemonsets",
            NodeKind::CronJob => "cronjobs",
            NodeKind::ReplicaSet => "replicasets",
            NodeKind::Job => "jobs",
            NodeKind::Pod => "pods",
            NodeKind::VolumeClaim => "persistentvolumeclaims",
            NodeKind::ConfigMap => "configmaps",
            NodeKind::Secret => "secrets",
            NodeKind::Node => "nodes",
        }
    }

    /// Usual API group and version, used when discovery did not succeed.
    pub fn group_version(self) -> (r: (&'static str, &'static str))
        ensures
            (r.0@, r.1@) == group_version_of(self),
    {
        match self {
            NodeKind::Ingress => ("networking.k8s.io", "v1"),
            NodeKind::Deployment | NodeKind::StatefulSet | NodeKind::DaemonSet | NodeKind::ReplicaSet => (
                "apps",
                "v1",
            ),
            NodeKind::CronJob | NodeKind::Job => ("batch", "v1"),
            _ => ("", "v1"),
        }
    }

    /// Column of the layered layout.
    pub fn column(self) -> (c: usize)
        ensures
            c == column_of(self),
    {
        match self {
            NodeKind::Ingress => 0,
            NodeKind::Service => 1,
            NodeKind::Deployment | NodeKind::StatefulSet | NodeKind::DaemonSet | NodeKind::CronJob => 2,
            NodeKind::ReplicaSet | NodeKind::Job => 3,
            NodeKind::Pod => 4,
            NodeKind::VolumeClaim | NodeKind::ConfigMap | NodeKind::Secret => 5,
            NodeKind::Node => 6,
        }
    }
}

/// Reading a family's own kind gives the family back.
pub proof fn lemma_kind_round_trip(k: NodeKind)
    ensures
        kind_of_name(kind_name(k)) == Some(k),
{
    reveal_strlit("Ingress");
    reveal_strlit("Service");
    reveal_strlit("Deployment");
    reveal_strlit("StatefulSet");
    reveal_strlit("DaemonSet");
    reveal_strlit("CronJob");
    reveal_strlit("ReplicaSet");
    reveal_strlit("Job");
    reveal_strlit("Pod");
    reveal_strlit("PersistentVolumeClaim");
    reveal_strlit("ConfigMap");
    reveal_strlit("Secret");
    reveal_strlit("Node");
    assert("Ingress"@.len() == 7 && "Ingress"@[0] == 'I');
    assert("Service"@.len() == 7 && "Service"@[0] == 'S');
    assert("Deployment"@.len() == 10 && "Deployment"@[0] == 'D');
    assert("StatefulSet"@.len() == 11 && "StatefulSet"@[0] == 'S');
    assert("DaemonSet"@.len() == 9 && "DaemonSet"@[0] == 'D');
    assert("CronJob"@.len() == 7 && "CronJob"@[0] == 'C');
    assert("ReplicaSet"@.len() == 10 && "ReplicaSet"@[0] == 'R');
    assert("Job"@.len() == 3 && "Job"@[0] == 'J');
    assert("Pod"@.len() == 3 && "Pod"@[0] == 'P');
    assert("PersistentVolumeClaim"@.len() == 21 && "PersistentVolumeClaim"@[0] == 'P');
    assert("ConfigMap"@.len() == 9 && "ConfigMap"@[0] == 'C');
    assert("Secret"@.len() == 6 && "Secret"@[0] == 'S');
    assert("Node"@.len() == 4 && "Node"@[0] == 'N');
}

/// Layers shown. Each box hides or shows a family of objects.
#[derive(Debug, Clone, Copy, PartialEq, Eq, Structural)]
pub struct Layers {
    /// Ingresses.
    pub ingress: bool,
    /// Services.
    pub services: bool,
    /// Deployments, StatefulSets, DaemonSets, CronJobs, Jobs.
    pub workloads: bool,
    /// ReplicaSets: hidden by default, the Deployment is linked to its pods.
    pub replicasets: bool,
    /// Pods.
    pub pods: bool,
    /// PersistentVolumeClaims.
    pub storage: bool,
    /// ConfigMaps and Secrets: hidden by default, they quickly clutter.
    pub config: bool,
    /// Cluster nodes.
    pub nodes: bool,
}

/// The layers shown at first: everything but ReplicaSets and configuration.
pub open spec fn default_layers() -> Layers {
    Layers {
        ingress: true,
        services: true,
        workloads: true,
        replicasets: false,
        pods: true,
        storage: true,
        config: false,
        nodes: true,
    }
}

impl Default for Layers {
    fn default() -> (l: Self)
        ensures
            l == default_layers(),
    {
        Self {
            ingress: true,
            services: true,
            workloads: true,
            replicasets: false,
            pods: true,
            storage: true,
            config: false,
            nodes: true,
        }
    }
}

/// True when the family is shown.
pub open spec fn layer_shows(l: Layers, kind: NodeKind) -> bool {
    match kind {
        NodeKind::Ingress => l.ingress,
        NodeKind::Service => l.services,
        NodeKind::Deployment | NodeKind::StatefulSet | NodeKind::DaemonSet | NodeKind::CronJob
        | NodeKind::Job => l.workloads,
        NodeKind::ReplicaSet => l.replicasets,
        NodeKind::Pod => l.pods,
        NodeKind::VolumeClaim => l.storage,
        NodeKind::ConfigMap | NodeKind::Secret => l.config,
        NodeKind::Node => l.nodes,
    }
}

impl Layers {
    /// True when the family is shown.
    pub fn shows(&self, kind: NodeKind) -> (b: bool)
        ensures
            b == layer_shows(*self, kind),
    {
        match kind {
            NodeKind::Ingress => self.ingress,
            NodeKind::Service => self.services,
            NodeKind::Deployment | NodeKind::StatefulSet | NodeKind::DaemonSet | NodeKind::CronJob
            | NodeKind::Job => self.workloads,
            NodeKind::ReplicaSet => self.replicasets,
            NodeKind::Pod => self.pods,
            NodeKind::VolumeClaim => self.storage,
            NodeKind::ConfigMap | NodeKind::Secret => self.config,
            NodeKind::Node => self.nodes,
        }
    }
}

/// Placement algorithm.
#[derive(Debug, Clone, Copy, PartialEq, Eq, Default)]
pub enum LayoutMode {
    /// One column per family, rows ordered to limit crossings.
    #[default]
    Layered,
    /// Force-directed placement.
    Organic,
}

/// Identity of a node: family, namespace, name.
#[derive(Debug, Clone, PartialEq, Eq, Hash)]
pub struct NodeKey {
    /// Family.
    pub kind: NodeKind,
    /// Namespace, absent for cluster nodes.
    pub namespace: Option<String>,
    /// Name of the object.
    pub name: String,
}

/// A node identity as values: family, namespace, name.
pub type KeyView = (NodeKind, Option<Seq<char>>, Seq<char>);

impl View for NodeKey {
    type V = KeyView;

    open spec fn view(&self) -> KeyView {
        (self.kind, opt_view(self.namespace), self.name@)
    }
}

/// The namespace part of a key: cluster nodes have none.
pub open spec fn ns_of_key(kind: NodeKind, namespace: Option<Seq<char>>) -> Option<Seq<char>> {
    if kind == NodeKind::Node {
        None
    } else {
        namespace
    }
}

/// The key of an object of family `kind` in `namespace`, named `name`.
pub open spec fn key_of(kind: NodeKind, namespace: Option<Seq<char>>, name: Seq<char>) -> KeyView {
    (kind, ns_of_key(kind, namespace), name)
}

impl NodeKey {
    /// Builds a key; cluster nodes never carry a namespace.
    pub fn new(kind: NodeKind, namespace: Option<String>, name: String) -> (k: Self)
        ensures
            k@ == key_of(kind, opt_view(namespace), name@),
            kind == NodeKind::Node ==> k.namespace is None,
    {
        Self {
            kind,
            namespace: if kind == NodeKind::Node {
                None
            } else {
                namespace
            },
            name,
        }
    }

    /// A copy of the key.
    pub fn copy(&self) -> (k: Self)
        ensures
            k@ == self@,
    {
        NodeKey { kind: self.kind, namespace: clone_opt(&self.namespace), name: self.name.clone() }
    }

    /// True when both keys name the same object.
    pub fn same(&self, other: &NodeKey) -> (b: bool)
        ensures
            b == (self@ == other@),
    {
        self.kind == other.kind && same_opt_text(&self.namespace, &other.namespace) && same_text(
            self.name.as_str(),
            other.name.as_str(),
        )
    }
}

/// Nature of a link.
#[derive(Debug, Clone, Copy, PartialEq, Eq, Structural, Hash)]
pub enum EdgeKind {
    /// Owner → owned (`ownerReferences`).
    Owns,
    /// Service → selected pod.
    Selects,
    /// Ingress → service.
    Routes,
    /// Pod → node.
    Schedules,
    /// Pod → volume.
    Mounts,
    /// Pod → ConfigMap or Secret.
    Uses,
}

/// Label of a link.
pub open spec fn edge_label(k: EdgeKind) -> Seq<char> {
    match k {
        EdgeKind::Owns => "possède"@,
        EdgeKind::Selects => "sélectionne"@,
        EdgeKind::Routes => "route vers"@,
        EdgeKind::Schedules => "planifié sur"@,
        EdgeKind::Mounts => "monte"@,
        EdgeKind::Uses => "utilise"@,
    }
}

impl EdgeKind {
    /// Label shown in the legend and the tooltips.
    pub fn label(self) -> (s: &'static str)
        ensures
            s@ == edge_label(self),
    {
        match self {
            EdgeKind::Owns => "possède",
            EdgeKind::Selects => "sélectionne",
            EdgeKind::Routes => "route vers",
            EdgeKind::Schedules => "planifié sur",
            EdgeKind::Mounts => "monte",
            EdgeKind::Uses => "utilise",
        }
    }
}

/// A reference from an object to its owner.
#[derive(Debug, Clone, PartialEq, Eq, Default)]
pub struct OwnerRef {
    /// Kind of the owner.
    pub kind: String,
    /// Name of the owner.
    pub name: String,
    /// True for the managing controller.
    pub controller: bool,
}

/// One element of a list-valued extra column.
#[derive(Debug, Clone, PartialEq, Eq)]
pub enum ListItem {
    /// A string element, shown as it is.
    Text(String),
    /// Any other element, shown as its JSON text.
    Json(String),
}

/// A kind-specific value of a listing (`upToDate`, `clusterIP`, `taints`...),
/// as the JSON of the listing held it.
#[derive(Debug, Clone, PartialEq, Eq)]
pub enum ExtraValue {
    /// JSON `null`.
    Null,
    /// A boolean.
    Bool(bool),
    /// A number, as its JSON text.
    Number(String),
    /// A string.
    Text(String),
    /// An array.
    List(Vec<ListItem>),
    /// An object, as its JSON text.
    Other(String),
}

/// What a listing says of one object: identity, state, and the references the
/// graph follows.
#[derive(Debug, Clone, PartialEq, Eq, Default)]
pub struct ObjectSummary {
    /// Kubernetes kind.
    pub kind: String,
    /// Namespace, absent for cluster-wide objects.
    pub namespace: Option<String>,
    /// Name.
    pub name: String,
    /// Synthetic status.
    pub status: String,
    /// `ready/total` counter.
    pub ready: Option<String>,
    /// Cumulated restarts.
    pub restarts: Option<i64>,
    /// Container images.
    pub images: Vec<String>,
    /// Node hosting the object.
    pub node: Option<String>,
    /// Age in seconds.
    pub age_seconds: Option<i64>,
    /// `apiVersion` of the listed object.
    pub api_version: String,
    /// Owner references.
    pub owners: Vec<OwnerRef>,
    /// Labels, each key once.
    pub labels: Vec<(String, String)>,
    /// Label selector of a service; a value that is not a string is `None`.
    pub selector: Option<Vec<(String, Option<String>)>>,
    /// Services an ingress routes to.
    pub backends: Vec<String>,
    /// Volume claims mounted by a pod.
    pub volume_claims: Vec<String>,
    /// ConfigMaps used by a pod.
    pub config_maps: Vec<String>,
    /// Secrets used by a pod.
    pub secrets: Vec<String>,
    /// Replicas wanted by a controller.
    pub desired: i64,
    /// Kind-specific values shown as extra columns, by key; a key occurs once.
    pub extra: Vec<(String, ExtraValue)>,
}

/// A node of the graph: what is needed of the object to draw it.
#[derive(Debug, Clone)]
pub struct GraphNode {
    /// Identity.
    pub key: NodeKey,
    /// Synthetic status.
    pub status: String,
    /// `ready/total` counter.
    pub ready: Option<String>,
    /// Cumulated restarts.
    pub restarts: Option<i64>,
    /// Container images.
    pub images: Vec<String>,
    /// Node hosting the object.
    pub node: Option<String>,
    /// Age in seconds.
    pub age_seconds: Option<i64>,
    /// `apiVersion` of the listed object, empty for a placeholder.
    pub api_version: String,
    /// True when the object was listed; false when it is only known by
    /// reference (ConfigMap named by a pod, node hidden by permissions...).
    pub known: bool,
}

/// The search rule of the graph's bar: the needle, already in lower case,
/// occurs in the ASCII lower case of the name, the namespace, the status, the
/// label or the kind of the node.
pub open spec fn node_found(n: GraphNode, needle: Seq<char>) -> bool {
    ||| contains_seq(ascii_lower_seq(n.key.name@), needle)
    ||| (n.key.namespace matches Some(ns) && contains_seq(ascii_lower_seq(ns@), needle))
    ||| contains_seq(ascii_lower_seq(n.status@), needle)
    ||| contains_seq(ascii_lower_seq(label_of_kind(n.key.kind)), needle)
    ||| contains_seq(ascii_lower_seq(kind_name(n.key.kind)), needle)
}

/// `needle` occurs in the ASCII lower case of `s`.
fn found_in(s: &str, needle: &str) -> (b: bool)
    ensures
        b == contains_seq(ascii_lower_seq(s@), needle@),
{
    let chars = chars_of(s);
    let low = ascii_lowercase_range(&chars, 0, chars.len());
    assert(chars@.subrange(0, chars@.len() as int) =~= chars@);
    contains_str(low.as_str(), needle)
}

/// True when the node answers the search of the top bar.
pub fn node_matches(node: &GraphNode, needle: &str) -> (b: bool)
    ensures
        b == node_found(*node, needle@),
{
    if found_in(node.key.name.as_str(), needle) {
        return true;
    }
    if let Some(ns) = &node.key.namespace {
        if found_in(ns.as_str(), needle) {
            return true;
        }
    }
    found_in(node.status.as_str(), needle) || found_in(node.key.kind.label(), needle) || found_in(
        node.key.kind.kind(),
        needle,
    )
}

/// Key of the initial order of nodes: namespace, family, name.
pub fn order_key(node: &GraphNode) -> (k: (String, NodeKind, String))
    ensures
        k.0@ == match node.key.namespace {
            Some(ns) => ns@,
            None => Seq::empty(),
        },
        k.1 == node.key.kind,
        k.2@ == node.key.name@,
{
    let ns = match &node.key.namespace {
        Some(ns) => ns.clone(),
        None => String::new(),
    };
    (ns, node.key.kind, node.key.name.clone())
}

/// Reference of a node from the usual API group of its family, for when the
/// discovery of the cluster's kinds has not answered.
pub fn default_reference(node: &GraphNode) -> (r: ResourceRef)
    ensures
        (r.group@, r.version@) == group_version_of(node.key.kind),
        r.kind@ == kind_name(node.key.kind),
        r.plural@ == plural_of(node.key.kind),
        opt_view(r.namespace) == opt_view(node.key.namespace),
        r.name@ == node.key.name@,
{
    let kind = node.key.kind;
    let (group, version) = kind.group_version();
    ResourceRef {
        group: group.to_owned(),
        version: version.to_owned(),
        kind: kind.kind().to_owned(),
        plural: kind.plural().to_owned(),
        namespace: clone_opt(&node.key.namespace),
        name: node.key.name.clone(),
    }
}

/// True when `n` is drawn from the listing `o` of family `kind`.
pub open spec fn drawn_from(n: GraphNode, kind: NodeKind, o: ObjectSummary) -> bool {
    &&& n.key@ == key_of(kind, opt_view(o.namespace), o.name@)
    &&& n.status@ == o.status@
    &&& opt_view(n.ready) == opt_view(o.ready)
    &&& n.restarts == o.restarts
    &&& n.images@.map_values(|s: String| s@) == o.images@.map_values(|s: String| s@)
    &&& opt_view(n.node) == opt_view(o.node)
    &&& n.age_seconds == o.age_seconds
    &&& n.api_version@ == o.api_version@
    &&& n.known
}

/// True when `n` is a placeholder for `key`: referenced but not listed.
pub open spec fn placeholder_of(n: GraphNode, key: KeyView) -> bool {
    &&& n.key@ == key
    &&& n.status@.len() == 0
    &&& n.ready is None
    &&& n.restarts is None
    &&& n.images@.len() == 0
    &&& n.node is None
    &&& n.age_seconds is None
    &&& n.api_version@.len() == 0
    &&& !n.known
}

/// A copy of a list of strings.
pub fn clone_strings(v: &Vec<String>) -> (r: Vec<String>)
    ensures
        r@.map_values(|s: String| s@) == v@.map_values(|s: String| s@),
{
    let mut r: Vec<String> = Vec::new();
    let mut i: usize = 0;
    while i < v.len()
        invariant
            i <= v@.len(),
            r@.len() == i,
            forall|k: int| 0 <= k < i ==> (#[trigger] r@[k])@ == v@[k]@,
        decreases v@.len() - i,
    {
        let c = v[i].clone();
        r.push(c);
        i += 1;
    }
    assert(r@.map_values(|s: String| s@) =~= v@.map_values(|s: String| s@));
    r
}

impl GraphNode {
    /// Node built from a listed object.
    pub fn from_summary(kind: NodeKind, o: &ObjectSummary) -> (n: Self)
        ensures
            drawn_from(n, kind, *o),
    {
        Self {
            key: NodeKey::new(kind, clone_opt(&o.namespace), o.name.clone()),
            status: o.status.clone(),
            ready: clone_opt(&o.ready),
            restarts: o.restarts,
            images: clone_strings(&o.images),
            node: clone_opt(&o.node),
            age_seconds: o.age_seconds,
            api_version: o.api_version.clone(),
            known: true,
        }
    }

    /// Placeholder node: referenced, but not listed.
    pub fn placeholder(key: NodeKey) -> (n: Self)
        ensures
            placeholder_of(n, key@),
    {
        Self {
            key,
            status: String::new(),
            ready: None,
            restarts: None,
            images: Vec::new(),
            node: None,
            age_seconds: None,
            api_version: String::new(),
            known: false,
        }
    }
}

/// A directed link between two nodes, by index.
#[derive(Debug, Clone, Copy, PartialEq, Eq, Structural)]
pub struct GraphEdge {
    /// Index of the source node.
    pub from: usize,
    /// Index of the target node.
    pub to: usize,
    /// Nature of the link.
    pub kind: EdgeKind,
}

/// The graph: nodes, links and neighbourhoods.
#[derive(Debug, Clone)]
pub struct Graph {
    /// Nodes.
    pub nodes: Vec<GraphNode>,
    /// Links.
    pub edges: Vec<GraphEdge>,
    /// Neighbours of each node, both ways.
    pub adjacency: Vec<Vec<usize>>,
}

/// No two nodes share a key.
pub open spec fn keys_unique(nodes: Seq<GraphNode>) -> bool {
    forall|i: int, j: int| 0 <= i < j < nodes.len() ==> #[trigger] nodes[i].key@ != #[trigger] nodes[j].key@
}

/// Every link joins two distinct existing nodes.
pub open spec fn edges_valid(n: nat, edges: Seq<GraphEdge>) -> bool {
    forall|e: int|
        0 <= e < edges.len() ==> (#[trigger] edges[e]).from < n && edges[e].to < n && edges[e].from != edges[e].to
}

/// No link appears twice.
pub open spec fn edges_distinct(edges: Seq<GraphEdge>) -> bool {
    forall|a: int, b: int| 0 <= a < b < edges.len() ==> #[trigger] edges[a] != #[trigger] edges[b]
}

/// Neighbours of node `i` contributed by the first `m` links, in link order.
pub open spec fn neighbours(edges: Seq<GraphEdge>, i: int, m: int) -> Seq<usize>
    decreases m,
{
    if m <= 0 {
        Seq::empty()
    } else {
        let e = edges[m - 1];
        let before = neighbours(edges, i, m - 1);
        let with_to = if e.from == i {
            before.push(e.to)
        } else {
            before
        };
        if e.to == i {
            with_to.push(e.from)
        } else {
            with_to
        }
    }
}

/// The neighbourhoods are those of the links.
pub open spec fn adjacency_matches(g: Graph) -> bool {
    &&& g.adjacency@.len() == g.nodes@.len()
    &&& forall|i: int|
        0 <= i < g.nodes@.len() ==> (#[trigger] g.adjacency@[i])@ == neighbours(g.edges@, i, g.edges@.len() as int)
}

/// A finished graph: unique keys, valid and distinct links, neighbourhoods.
pub open spec fn graph_wf(g: Graph) -> bool {
    &&& keys_unique(g.nodes@)
    &&& edges_valid(g.nodes@.len(), g.edges@)
    &&& edges_distinct(g.edges@)
    &&& adjacency_matches(g)
}

/// Index of the first node with `key`.
pub open spec fn first_with_key(nodes: Seq<GraphNode>, key: KeyView, n: int) -> Option<int>
    decreases n,
{
    if n <= 0 {
        None
    } else {
        match first_with_key(nodes, key, n - 1) {
            Some(i) => Some(i),
            None => if nodes[n - 1].key@ == key {
                Some(n - 1)
            } else {
                None
            },
        }
    }
}

proof fn lemma_first_with_key(nodes: Seq<GraphNode>, key: KeyView, n: int)
    requires
        0 <= n <= nodes.len(),
    ensures
        first_with_key(nodes, key, n) matches Some(i) ==> 0 <= i < n && nodes[i].key@ == key && forall|j: int|
            0 <= j < i ==> nodes[j].key@ != key,
        first_with_key(nodes, key, n) is None ==> forall|j: int| 0 <= j < n ==> nodes[j].key@ != key,
    decreases n,
{
    if n > 0 {
        lemma_first_with_key(nodes, key, n - 1);
    }
}

impl Graph {
    /// Index of the first node with `key`, if any.
    pub fn position(&self, key: &NodeKey) -> (r: Option<usize>)
        ensures
            match r {
                Some(i) => first_with_key(self.nodes@, key@, self.nodes@.len() as int) == Some(i as int),
                None => first_with_key(self.nodes@, key@, self.nodes@.len() as int) is None,
            },
            r matches Some(i) ==> i < self.nodes@.len() && self.nodes@[i as int].key@ == key@,
            r is None ==> forall|j: int| 0 <= j < self.nodes@.len() ==> self.nodes@[j].key@ != key@,
    {
        let mut i: usize = 0;
        while i < self.nodes.len()
            invariant
                i <= self.nodes@.len(),
                first_with_key(self.nodes@, key@, i as int) is None,
            decreases self.nodes@.len() - i,
        {
            proof {
                lemma_first_with_key(self.nodes@, key@, i as int);
            }
            if self.nodes[i].key.same(key) {
                proof {
                    lemma_first_with_key(self.nodes@, key@, i + 1);
                    lemma_first_with_key(self.nodes@, key@, self.nodes@.len() as int);
                    lemma_first_prefix(self.nodes@, key@, i + 1, self.nodes@.len() as int);
                }
                return Some(i);
            }
            i += 1;
        }
        proof {
            lemma_first_with_key(self.nodes@, key@, i as int);
        }
        None
    }

    /// Node named by a key.
    pub fn node(&self, key: &NodeKey) -> (r: Option<&GraphNode>)
        ensures
            match first_with_key(self.nodes@, key@, self.nodes@.len() as int) {
                Some(i) => r == Some(&self.nodes@[i]),
                None => r is None,
            },
    {
        match self.position(key) {
            Some(i) => Some(&self.nodes[i]),
            None => None,
        }
    }
}

proof fn lemma_first_prefix(nodes: Seq<GraphNode>, key: KeyView, a: int, b: int)
    requires
        0 <= a <= b <= nodes.len(),
        first_with_key(nodes, key, a) is Some,
    ensures
        first_with_key(nodes, key, b) == first_with_key(nodes, key, a),
    decreases b - a,
{
    if b > a {
        lemma_first_prefix(nodes, key, a, b - 1);
    }
}

} // verus!

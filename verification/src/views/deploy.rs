//! Deployment wizard: steps, sources, exposures and the names derived from an
//! image reference.
use vstd::prelude::*;

use crate::text::{
    decimal, is_blank, joined, opt_view, push_decimal, push_str, same_text, trim, trimmed,
};
use crate::views::hub::{label_of, nom_court_depuis_reference, short_name, DeployRequest, PortSpec};

pub mod wizard;

pub use self::wizard::{prefill_from_catalog, prefill_from_image, WizardState};

verus! {

/// The four steps, in order.
#[derive(Debug, Clone, Copy, PartialEq, Eq, Default, PartialOrd, Ord)]
pub enum Step {
    /// Pick the application: catalog or free image.
    #[default]
    What,
    /// Set the name, the size, the exposure and the storage.
    How,
    /// Read the consumption forecast and the manifest.
    Preview,
    /// Report of what was applied.
    Result,
}

impl Step {
    /// The steps in display order.
    pub const ALL: [Step; 4] = [Step::What, Step::How, Step::Preview, Step::Result];

    /// Title shown in the step trail.
    pub fn label(self) -> (s: &'static str)
        ensures
            s@ == step_label(self),
    {
        match self {
            Step::What => "Quoi",
            Step::How => "Comment",
            Step::Preview => "Vérification",
            Step::Result => "Résultat",
        }
    }
}

/// Title of a step.
pub open spec fn step_label(s: Step) -> Seq<char> {
    match s {
        Step::What => "Quoi"@,
        Step::How => "Comment"@,
        Step::Preview => "Vérification"@,
        Step::Result => "Résultat"@,
    }
}

/// Where the application to deploy comes from.
#[derive(Debug, Clone, Copy, PartialEq, Eq, Default)]
pub enum Source {
    /// An entry of the embedded catalog.
    #[default]
    Catalog,
    /// An image reference typed by hand.
    Image,
}

/// How the application is reached once deployed.
#[derive(Debug, Clone, Copy, PartialEq, Eq, Default)]
pub enum Exposure {
    /// `ClusterIP`: reachable from the cluster only.
    #[default]
    Internal,
    /// `NodePort`: one port opened on every node.
    NodePort,
    /// `LoadBalancer`: an IP address asked from the provider.
    LoadBalancer,
    /// `ClusterIP` plus an Ingress on a domain name.
    Domain,
}

/// Title of an exposure.
pub open spec fn exposure_label(e: Exposure) -> Seq<char> {
    match e {
        Exposure::Internal => "Interne au cluster"@,
        Exposure::NodePort => "Port sur les nœuds"@,
        Exposure::LoadBalancer => "Adresse IP publique"@,
        Exposure::Domain => "Nom de domaine"@,
    }
}

/// Service type of an exposure.
pub open spec fn exposure_service_type(e: Exposure) -> Seq<char> {
    match e {
        Exposure::NodePort => "NodePort"@,
        Exposure::LoadBalancer => "LoadBalancer"@,
        Exposure::Internal | Exposure::Domain => "ClusterIP"@,
    }
}

/// True when an optional text holds something once trimmed.
pub open spec fn filled(v: Option<Seq<char>>) -> bool {
    v matches Some(t) && trim(t).len() > 0
}

/// The exposure written in a request: a domain name wins, then the service
/// type, `ClusterIP` otherwise.
pub open spec fn detected_exposure(ingress_host: Option<Seq<char>>, service_type: Option<Seq<char>>) -> Exposure {
    if filled(ingress_host) {
        Exposure::Domain
    } else {
        match service_type {
            Some(t) => if trim(t) == "NodePort"@ {
                Exposure::NodePort
            } else if trim(t) == "LoadBalancer"@ {
                Exposure::LoadBalancer
            } else {
                Exposure::Internal
            },
            None => Exposure::Internal,
        }
    }
}

impl Exposure {
    /// The four exposures, from the most closed to the most open.
    pub const ALL: [Exposure; 4] = [
        Exposure::Internal,
        Exposure::NodePort,
        Exposure::LoadBalancer,
        Exposure::Domain,
    ];

    /// Title shown.
    pub fn label(self) -> (s: &'static str)
        ensures
            s@ == exposure_label(self),
    {
        match self {
            Exposure::Internal => "Interne au cluster",
            Exposure::NodePort => "Port sur les nœuds",
            Exposure::LoadBalancer => "Adresse IP publique",
            Exposure::Domain => "Nom de domaine",
        }
    }

    /// What the choice implies, said without jargon.
    pub fn description(self) -> (s: &'static str)
        ensures
            s@ == (match self {
                Exposure::Internal => "Les autres applications du cluster y accèdent par son nom. Rien n'est ouvert vers l'extérieur."@,
                Exposure::NodePort => "Kubernetes ouvre le même port sur tous les nœuds. Pratique en local, rarement en production."@,
                Exposure::LoadBalancer => "L'hébergeur attribue une adresse IP. Sans contrôleur adapté, le Service reste « pending »."@,
                Exposure::Domain => "Un Ingress route un nom de domaine vers l'application. Il faut un contrôleur d'entrée sur le cluster."@,
            }),
    {
        match self {
            Exposure::Internal => "Les autres applications du cluster y accèdent par son nom. Rien n'est ouvert vers l'extérieur.",
            Exposure::NodePort => "Kubernetes ouvre le même port sur tous les nœuds. Pratique en local, rarement en production.",
            Exposure::LoadBalancer => "L'hébergeur attribue une adresse IP. Sans contrôleur adapté, le Service reste « pending ».",
            Exposure::Domain => "Un Ingress route un nom de domaine vers l'application. Il faut un contrôleur d'entrée sur le cluster.",
        }
    }

    /// Matching Service type.
    pub fn service_type(self) -> (s: &'static str)
        ensures
            s@ == exposure_service_type(self),
    {
        match self {
            Exposure::NodePort => "NodePort",
            Exposure::LoadBalancer => "LoadBalancer",
            Exposure::Internal | Exposure::Domain => "ClusterIP",
        }
    }

    /// The exposure written in an existing request.
    pub fn detect(req: &DeployRequest) -> (e: Exposure)
        ensures
            e == detected_exposure(opt_view(req.ingress_host), opt_view(req.service_type)),
    {
        let ingress_host = &req.ingress_host;
        let service_type = &req.service_type;
        let domaine = match ingress_host {
            Some(h) => !crate::text::is_blank(h.as_str()),
            None => false,
        };
        if domaine {
            return Exposure::Domain;
        }
        match service_type {
            Some(t) => {
                let t = trimmed(t.as_str());
                if same_text(t.as_str(), "NodePort") {
                    Exposure::NodePort
                } else if same_text(t.as_str(), "LoadBalancer") {
                    Exposure::LoadBalancer
                } else {
                    Exposure::Internal
                }
            },
            None => Exposure::Internal,
        }
    }
}

/// `ghcr.io/o/depot:1.2` → `depot`.
pub fn nom_court(reference: &str) -> (r: &str)
    ensures
        r@ == short_name(reference@),
{
    nom_court_depuis_reference(reference)
}

/// Brings any text to a DNS-1123 label usable as a name.
pub fn sanitize_name(raw: &str) -> (out: String)
    ensures
        out@ == label_of(raw@),
{
    crate::views::hub::sanitize_name(raw)
}


/// FNV-1a hash (32 bits) of a sequence of bytes.
pub open spec fn name_hash(bytes: Seq<u8>) -> u32
    decreases bytes.len(),
{
    if bytes.len() == 0 {
        2166136261u32
    } else {
        (name_hash(bytes.drop_last()) ^ (bytes.last() as u32)).wrapping_mul(16777619u32)
    }
}

/// Hue, in degrees, of the badge of an application: drawn from its name, so
/// that an application keeps its colour from one run to the next.
pub fn teinte_stable(nom: &str) -> (t: u32)
    ensures
        t == name_hash(vstd::utf8::encode_utf8(nom@)) % 360,
        t < 360,
{
    let bytes = nom.as_bytes();
    let mut h: u32 = 2166136261;
    let mut i: usize = 0;
    while i < bytes.len()
        invariant
            i <= bytes@.len(),
            bytes@ == vstd::utf8::encode_utf8(nom@),
            h == name_hash(bytes@.take(i as int)),
        decreases bytes@.len() - i,
    {
        proof {
            assert(bytes@.take(i + 1).drop_last() =~= bytes@.take(i as int));
            assert(bytes@.take(i + 1).last() == bytes@[i as int]);
        }
        h = (h ^ (bytes[i] as u32)).wrapping_mul(16777619);
        i += 1;
    }
    assert(bytes@.take(bytes@.len() as int) =~= bytes@);
    h % 360
}


/// An object a deployment will create, as the preview lists it.
#[derive(Debug, Clone, PartialEq, Eq)]
pub struct PlannedObject {
    /// Kubernetes kind.
    pub kind: &'static str,
    /// Name of the object.
    pub name: String,
    /// What it holds, in plain words.
    pub detail: String,
}

/// The name shown for a request: a dash while it has none.
pub open spec fn shown_name(req: DeployRequest) -> Seq<char> {
    if req.name@.len() == 0 {
        "—"@
    } else {
        req.name@
    }
}

/// The container ports of a request, separated by `, `.
pub open spec fn port_list(ports: Seq<PortSpec>) -> Seq<char> {
    joined(ports.map_values(|p: PortSpec| decimal(p.container_port as nat)), ", "@)
}

/// The objects a request creates, with their names and details: the
/// Deployment; a Service when a port is open; an Ingress for a domain name;
/// a volume claim when storage is requested.
pub open spec fn planned(req: DeployRequest) -> Seq<(Seq<char>, Seq<char>, Seq<char>)> {
    let nom = shown_name(req);
    let pods: nat = if req.replicas < 0 {
        0
    } else {
        req.replicas as nat
    };
    let deployment = seq![("Deployment"@, nom, decimal(pods) + " pod(s) de "@ + req.image@)];
    let service = if req.ports@.len() > 0 {
        let kind = match req.service_type {
            Some(t) => t@,
            None => "ClusterIP"@,
        };
        seq![("Service"@, nom, kind + ", port(s) "@ + port_list(req.ports@))]
    } else {
        Seq::empty()
    };
    let ingress = match req.ingress_host {
        Some(h) => if trim(h@).len() > 0 {
            seq![("Ingress"@, nom, "https://"@ + h@)]
        } else {
            Seq::empty()
        },
        None => Seq::empty(),
    };
    let volume = match req.pvc {
        Some(p) => seq![
            ("PersistentVolumeClaim"@, nom + "-data"@, p.size@ + " monté dans "@ + p.mount_path@),
        ],
        None => Seq::empty(),
    };
    deployment + service + ingress + volume
}

/// View of a planned object.
pub open spec fn planned_view(o: PlannedObject) -> (Seq<char>, Seq<char>, Seq<char>) {
    (o.kind@, o.name@, o.detail@)
}

fn ports_text(ports: &Vec<PortSpec>) -> (out: String)
    ensures
        out@ == port_list(ports@),
{
    let mut out = String::new();
    let mut i: usize = 0;
    while i < ports.len()
        invariant
            i <= ports@.len(),
            out@ == port_list(ports@.take(i as int)),
        decreases ports@.len() - i,
    {
        let ghost before = ports@.take(i as int).map_values(|p: PortSpec| decimal(p.container_port as nat));
        if i > 0 {
            push_str(&mut out, ", ");
        }
        push_decimal(&mut out, ports[i].container_port as u64);
        proof {
            let now = ports@.take(i + 1).map_values(|p: PortSpec| decimal(p.container_port as nat));
            assert(now.drop_last() =~= before);
            assert(now.last() == decimal(ports@[i as int].container_port as nat));
        }
        i += 1;
    }
    assert(ports@.take(ports@.len() as int) =~= ports@);
    out
}

/// « What will be created »: the Kubernetes objects a request creates, in
/// plain words.
pub fn objets_crees(req: &DeployRequest) -> (objects: Vec<PlannedObject>)
    ensures
        objects@.map_values(|o: PlannedObject| planned_view(o)) == planned(*req),
{
    let nom = if req.name.as_str().is_empty() {
        "—".to_owned()
    } else {
        req.name.clone()
    };
    let mut objects: Vec<PlannedObject> = Vec::new();
    let mut detail = String::new();
    push_decimal(&mut detail, if req.replicas < 0 {
        0
    } else {
        req.replicas as u64
    });
    push_str(&mut detail, " pod(s) de ");
    push_str(&mut detail, req.image.as_str());
    objects.push(PlannedObject { kind: "Deployment", name: nom.clone(), detail });
    if req.ports.len() > 0 {
        let mut detail = match &req.service_type {
            Some(t) => t.clone(),
            None => "ClusterIP".to_owned(),
        };
        push_str(&mut detail, ", port(s) ");
        let ports = ports_text(&req.ports);
        push_str(&mut detail, ports.as_str());
        objects.push(PlannedObject { kind: "Service", name: nom.clone(), detail });
    }
    if let Some(host) = &req.ingress_host {
        if !is_blank(host.as_str()) {
            let mut detail = "https://".to_owned();
            push_str(&mut detail, host.as_str());
            objects.push(PlannedObject { kind: "Ingress", name: nom.clone(), detail });
        }
    }
    if let Some(pvc) = &req.pvc {
        let mut name = nom.clone();
        push_str(&mut name, "-data");
        let mut detail = pvc.size.clone();
        push_str(&mut detail, " monté dans ");
        push_str(&mut detail, pvc.mount_path.as_str());
        objects.push(PlannedObject { kind: "PersistentVolumeClaim", name, detail });
    }
    assert(objects@.map_values(|o: PlannedObject| planned_view(o)) =~= planned(*req));
    objects
}

/// The line under the list: the namespace the objects go to.
pub fn ligne_namespace(req: &DeployRequest) -> (out: String)
    ensures
        out@ == "Dans le namespace « "@ + req.namespace@ + " »."@,
{
    let mut out = "Dans le namespace « ".to_owned();
    push_str(&mut out, req.namespace.as_str());
    push_str(&mut out, " ».");
    out
}

} // verus!

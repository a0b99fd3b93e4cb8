use kubewatch_desktop::views::graph::layout::layout_columns;
use kubewatch_desktop::views::graph::{
    build_graph, default_reference, node_matches, order_key, request, selector_matches, EdgeKind, Graph, GraphState, Layers, LayoutMode,
    NodeKey, NodeKind, ObjectSummary, OwnerRef,
};

fn object(kind: &str, ns: Option<&str>, name: &str) -> ObjectSummary {
    ObjectSummary {
        name: name.to_string(),
        namespace: ns.map(str::to_string),
        kind: kind.to_string(),
        api_version: "v1".to_string(),
        status: "Running".to_string(),
        ..Default::default()
    }
}

fn owned(kind: &str, ns: &str, name: &str, owner_kind: &str, owner: &str) -> ObjectSummary {
    let mut o = object(kind, Some(ns), name);
    o.owners = vec![OwnerRef {
        kind: owner_kind.to_string(),
        name: owner.to_string(),
        controller: true,
    }];
    o
}

fn labelled(mut o: ObjectSummary, labels: &[(&str, &str)]) -> ObjectSummary {
    let mut pairs: Vec<(String, String)> = labels
        .iter()
        .map(|(k, v)| (k.to_string(), v.to_string()))
        .collect();
    pairs.sort();
    pairs.dedup_by(|a, b| a.0 == b.0);
    o.labels = pairs;
    o
}

fn key(kind: NodeKind, ns: Option<&str>, name: &str) -> NodeKey {
    NodeKey::new(kind, ns.map(str::to_string), name.to_string())
}

fn has_edge(g: &Graph, from: &NodeKey, to: &NodeKey, kind: EdgeKind) -> bool {
    let (Some(a), Some(b)) = (g.position(from), g.position(to)) else {
        return false;
    };
    g.edges
        .iter()
        .any(|e| e.from == a && e.to == b && e.kind == kind)
}

fn selector(pairs: &[(&str, &str)]) -> Option<Vec<(String, Option<String>)>> {
    Some(
        pairs
            .iter()
            .map(|(k, v)| (k.to_string(), Some(v.to_string())))
            .collect(),
    )
}

fn chaine() -> Vec<ObjectSummary> {
    let mut deploy = object("Deployment", Some("app"), "web");
    deploy.desired = 2;
    let mut rs = owned("ReplicaSet", "app", "web-abc", "Deployment", "web");
    rs.desired = 2;
    let pod1 = labelled(
        owned("Pod", "app", "web-abc-1", "ReplicaSet", "web-abc"),
        &[("app", "web")],
    );
    let pod2 = labelled(
        owned("Pod", "app", "web-abc-2", "ReplicaSet", "web-abc"),
        &[("app", "web")],
    );
    let mut svc = object("Service", Some("app"), "web");
    svc.selector = selector(&[("app", "web")]);
    let mut ing = object("Ingress", Some("app"), "web");
    ing.backends = vec!["web".to_string(), "absent".to_string()];
    vec![deploy, rs, pod1, pod2, svc, ing]
}

#[test]
fn replicaset_replie_relie_le_deployment_aux_pods() {
    let g = build_graph(&chaine(), &Layers::default(), false);
    assert!(g
        .position(&key(NodeKind::ReplicaSet, Some("app"), "web-abc"))
        .is_none());
    assert!(has_edge(
        &g,
        &key(NodeKind::Deployment, Some("app"), "web"),
        &key(NodeKind::Pod, Some("app"), "web-abc-1"),
        EdgeKind::Owns
    ));
}

#[test]
fn replicaset_affiche_s_intercale() {
    let layers = Layers {
        replicasets: true,
        ..Layers::default()
    };
    let g = build_graph(&chaine(), &layers, false);
    let rs = key(NodeKind::ReplicaSet, Some("app"), "web-abc");
    assert!(has_edge(
        &g,
        &key(NodeKind::Deployment, Some("app"), "web"),
        &rs,
        EdgeKind::Owns
    ));
    assert!(has_edge(
        &g,
        &rs,
        &key(NodeKind::Pod, Some("app"), "web-abc-2"),
        EdgeKind::Owns
    ));
    assert!(!has_edge(
        &g,
        &key(NodeKind::Deployment, Some("app"), "web"),
        &key(NodeKind::Pod, Some("app"), "web-abc-2"),
        EdgeKind::Owns
    ));
}

#[test]
fn service_selectionne_par_labels_et_ingress_route() {
    let mut objets = chaine();
    objets.push(labelled(
        object("Pod", Some("app"), "autre"),
        &[("app", "autre")],
    ));
    let g = build_graph(&objets, &Layers::default(), false);
    let svc = key(NodeKind::Service, Some("app"), "web");
    assert!(has_edge(
        &g,
        &svc,
        &key(NodeKind::Pod, Some("app"), "web-abc-1"),
        EdgeKind::Selects
    ));
    assert!(!has_edge(
        &g,
        &svc,
        &key(NodeKind::Pod, Some("app"), "autre"),
        EdgeKind::Selects
    ));
    assert!(has_edge(
        &g,
        &key(NodeKind::Ingress, Some("app"), "web"),
        &svc,
        EdgeKind::Routes
    ));
    let absent = g
        .node(&key(NodeKind::Service, Some("app"), "absent"))
        .expect("nœud fictif");
    assert!(!absent.known);
}

#[test]
fn dependances_du_pod_et_isoles() {
    let mut pod = object("Pod", Some("app"), "db-0");
    pod.node = Some("node-a".into());
    pod.volume_claims = vec!["data-db-0".to_string()];
    pod.config_maps = vec!["db-config".to_string()];
    pod.secrets = vec!["db-secret".to_string()];
    let seul = object("Service", Some("app"), "seul");
    let objets = vec![pod, object("Node", None, "node-a"), seul];

    let layers = Layers {
        config: true,
        ..Layers::default()
    };
    let g = build_graph(&objets, &layers, false);
    let pod_key = key(NodeKind::Pod, Some("app"), "db-0");
    assert!(has_edge(
        &g,
        &pod_key,
        &key(NodeKind::Node, None, "node-a"),
        EdgeKind::Schedules
    ));
    assert!(has_edge(
        &g,
        &pod_key,
        &key(NodeKind::VolumeClaim, Some("app"), "data-db-0"),
        EdgeKind::Mounts
    ));
    assert!(has_edge(
        &g,
        &pod_key,
        &key(NodeKind::ConfigMap, Some("app"), "db-config"),
        EdgeKind::Uses
    ));
    assert!(has_edge(
        &g,
        &pod_key,
        &key(NodeKind::Secret, Some("app"), "db-secret"),
        EdgeKind::Uses
    ));
    assert!(g
        .position(&key(NodeKind::Service, Some("app"), "seul"))
        .is_some());

    let g = build_graph(&objets, &layers, true);
    assert!(g
        .position(&key(NodeKind::Service, Some("app"), "seul"))
        .is_none());
    assert_eq!(g.adjacency.len(), g.nodes.len());
}

#[test]
fn selecteur_vide_ne_selectionne_rien() {
    let labels = vec![("app".to_string(), "web".to_string())];
    assert!(!selector_matches(&Vec::new(), &labels));
    let sel = selector(&[("app", "web")]).unwrap();
    assert!(selector_matches(&sel, &labels));
    let sel = selector(&[("app", "web"), ("tier", "db")]).unwrap();
    assert!(!selector_matches(&sel, &labels));
}

#[test]
fn familles_et_references() {
    for kind in [
        NodeKind::Ingress,
        NodeKind::Service,
        NodeKind::Deployment,
        NodeKind::StatefulSet,
        NodeKind::DaemonSet,
        NodeKind::CronJob,
        NodeKind::ReplicaSet,
        NodeKind::Job,
        NodeKind::Pod,
        NodeKind::VolumeClaim,
        NodeKind::ConfigMap,
        NodeKind::Secret,
        NodeKind::Node,
    ] {
        assert_eq!(NodeKind::from_kind(kind.kind()), Some(kind));
        assert!(!kind.plural().is_empty());
    }
    assert_eq!(NodeKind::from_kind("Zoulou"), None);
    let k = NodeKey::new(NodeKind::Node, Some("default".into()), "n1".to_string());
    assert!(k.namespace.is_none());
}

#[test]
fn etat_efface_sans_perdre_les_preferences() {
    let mut st = GraphState {
        hide_isolated: true,
        mode: LayoutMode::Organic,
        ..GraphState::new()
    };
    st.receive(chaine(), vec!["ingresses : interdit".into()]);
    assert!(st.loaded && st.dirty);
    st.rebuild();
    assert!(!st.dirty);
    assert!(!st.graph.nodes.is_empty());
    st.clear();
    assert!(!st.loaded && st.objects.is_empty() && st.graph.nodes.is_empty() && st.placed.is_empty());
    assert!(st.hide_isolated);
    assert_eq!(st.mode, LayoutMode::Organic);
}

#[test]
fn demande_unique_tant_qu_une_lecture_est_en_vol() {
    let mut st = GraphState::new();
    assert_eq!(request(&mut st, &None, &None, 1), None);
    assert!(!st.attempted);
    let load = request(&mut st, &Some("prod".to_string()), &Some("app".to_string()), 7)
        .expect("une lecture part");
    assert_eq!(load.id, 7);
    assert_eq!(load.cluster, "prod");
    assert_eq!(load.namespace.as_deref(), Some("app"));
    assert_eq!(st.pending, Some(7));
    assert!(st.attempted);
    assert_eq!(request(&mut st, &Some("prod".to_string()), &None, 8), None);
    st.receive(Vec::new(), Vec::new());
    assert_eq!(st.pending, None);
}

#[test]
fn liens_sans_doublon_ni_boucle() {
    let mut objets = chaine();
    objets.extend(chaine());
    let g = build_graph(&objets, &Layers::default(), false);
    for (i, a) in g.edges.iter().enumerate() {
        assert_ne!(a.from, a.to);
        for b in g.edges.iter().skip(i + 1) {
            assert_ne!(a, b);
        }
    }
    for (i, a) in g.nodes.iter().enumerate() {
        for b in g.nodes.iter().skip(i + 1) {
            assert_ne!(a.key, b.key);
        }
    }
    let total: usize = g.adjacency.iter().map(Vec::len).sum();
    assert_eq!(total, 2 * g.edges.len());
}

#[test]
fn famille_libelles_et_colonnes() {
    assert_eq!(NodeKind::VolumeClaim.label(), "PVC");
    assert_eq!(NodeKind::Node.label(), "Nœud");
    assert_eq!(NodeKind::Pod.label(), "Pod");
    assert_eq!(NodeKind::Ingress.group_version(), ("networking.k8s.io", "v1"));
    assert_eq!(NodeKind::Job.group_version(), ("batch", "v1"));
    assert_eq!(NodeKind::Secret.group_version(), ("", "v1"));
    assert_eq!(NodeKind::Ingress.column(), 0);
    assert_eq!(NodeKind::Node.column(), 6);
    assert_eq!(EdgeKind::Routes.label(), "route vers");
    let layers = Layers::default();
    assert!(!layers.shows(NodeKind::ReplicaSet));
    assert!(!layers.shows(NodeKind::Secret));
    assert!(layers.shows(NodeKind::Job));
}

#[test]
fn replicaset_sans_controleur_reste_visible() {
    let mut rs = object("ReplicaSet", Some("app"), "orphelin");
    rs.desired = 0;
    let g = build_graph(&[rs], &Layers::default(), false);
    assert!(g
        .position(&key(NodeKind::ReplicaSet, Some("app"), "orphelin"))
        .is_some());
}

#[test]
fn recherche_et_references_des_noeuds() {
    let objets = vec![object("Pod", Some("prod"), "web-1")];
    let g = build_graph(&objets, &Layers::default(), false);
    let pod = g.nodes.iter().find(|n| n.key.name == "web-1").expect("pod dessiné");
    assert!(node_matches(pod, "web"));
    assert!(node_matches(pod, "prod"));
    assert!(node_matches(pod, "running"));
    assert!(node_matches(pod, "pod"));
    assert!(!node_matches(pod, "redis"));
    let (ns, kind, name) = order_key(pod);
    assert_eq!((ns.as_str(), kind, name.as_str()), ("prod", NodeKind::Pod, "web-1"));
    let r = default_reference(pod);
    assert_eq!((r.group.as_str(), r.version.as_str()), ("", "v1"));
    assert_eq!((r.kind.as_str(), r.plural.as_str()), ("Pod", "pods"));
    assert_eq!(r.namespace.as_deref(), Some("prod"));
}

#[test]
fn colonnes_de_la_disposition_par_couches() {
    let objets = vec![
        object("Pod", Some("app"), "web-b"),
        object("Service", Some("app"), "web"),
        object("Pod", Some("app"), "web-a"),
        object("Node", None, "n1"),
        object("Pod", Some("alpha"), "zzz"),
    ];
    let g = build_graph(&objets, &Layers::default(), false);
    let (colonne, colonnes) = layout_columns(&g);
    assert_eq!(colonne.len(), g.nodes.len());
    // Service, Pod et Node occupent les colonnes 1, 4 et 6 : resserrées en 0, 1, 2.
    assert_eq!(colonnes.len(), 3);
    let noms = |c: usize| -> Vec<&str> {
        colonnes[c].iter().map(|&i| g.nodes[i].key.name.as_str()).collect()
    };
    assert_eq!(noms(0), vec!["web"]);
    assert_eq!(noms(1), vec!["zzz", "web-a", "web-b"]);
    assert_eq!(noms(2), vec!["n1"]);
    for (i, n) in g.nodes.iter().enumerate() {
        assert!(colonnes[colonne[i]].contains(&i), "{}", n.key.name);
    }
}

#[test]
fn replicaset_sans_controleur_visible_meme_vide_avec_sa_couche() {
    let rs = object("ReplicaSet", Some("app"), "orphelin");
    let layers = Layers {
        replicasets: true,
        ..Layers::default()
    };
    let g = build_graph(&[rs], &layers, false);
    assert!(g
        .position(&key(NodeKind::ReplicaSet, Some("app"), "orphelin"))
        .is_some());
}

#[test]
fn noeuds_fictifs_toujours_relies_et_familles_affichees() {
    let g = build_graph(&chaine(), &Layers::default(), false);
    for (i, n) in g.nodes.iter().enumerate() {
        if !n.known {
            assert!(g.edges.iter().any(|e| e.from == i || e.to == i));
        }
        if n.key.kind == NodeKind::Node {
            assert!(n.key.namespace.is_none());
        }
    }
    // Le backend absent de l'ingress devient un service fictif relié.
    assert!(has_edge(
        &g,
        &key(NodeKind::Ingress, Some("app"), "web"),
        &key(NodeKind::Service, Some("app"), "absent"),
        EdgeKind::Routes
    ));
}

#[test]
fn placement_garde_positions_et_epingles_des_noeuds_restants() {
    let mut st = GraphState {
        mode: LayoutMode::Organic,
        ..GraphState::new()
    };
    st.receive(chaine(), Vec::new());
    assert!(st.rebuild(), "premier placement");
    assert!(st.fit_requested);
    assert_eq!(st.settle, 220);
    assert_eq!(st.placed.len(), st.graph.nodes.len());

    let web = key(NodeKind::Deployment, Some("app"), "web");
    st.toggle_pin(&web);
    assert_eq!(st.pinned.len(), 1);

    // Le même instantané : rien de nouveau à placer.
    st.fit_requested = false;
    st.settle = 0;
    st.receive(chaine(), Vec::new());
    assert!(!st.rebuild());
    assert!(!st.fit_requested);
    assert_eq!(st.settle, 0);
    assert_eq!(st.pinned.len(), 1);

    // Le Deployment disparaît : son épingle avec lui.
    let sans_deploy: Vec<ObjectSummary> = chaine().into_iter().filter(|o| o.kind != "Deployment").collect();
    st.receive(sans_deploy, Vec::new());
    st.rebuild();
    assert!(st.pinned.is_empty());
    assert!(st.placed.iter().all(|k| *k != web));

    st.toggle_pin(&key(NodeKind::Service, Some("app"), "web"));
    st.toggle_pin(&key(NodeKind::Service, Some("app"), "web"));
    assert!(st.pinned.is_empty());

    st.relayout();
    assert!(st.dirty && st.fit_requested && st.placed.is_empty());
}

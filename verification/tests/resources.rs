use std::cmp::Ordering;

use kubewatch_desktop::views::graph::{ExtraValue, ListItem, ObjectSummary};
use kubewatch_desktop::views::resources::{
    cell_text, columns_for, compare, extra_text, is_node, is_pod, is_rollable, is_scalable,
    kind_matches, kind_section, matches_filter, reference_depuis_ligne, same_object, visible_order,
    Cell, ResourceKind,
};
use kubewatch_desktop::views::detail::ligne_courante;
use kubewatch_desktop::widgets::confirm::ResourceRef;

fn pod(name: &str, namespace: &str, status: &str, age: i64) -> ObjectSummary {
    ObjectSummary {
        name: name.to_string(),
        namespace: Some(namespace.to_string()),
        kind: "Pod".to_string(),
        api_version: "v1".to_string(),
        age_seconds: Some(age),
        status: status.to_string(),
        ..Default::default()
    }
}

fn with_extra(mut item: ObjectSummary, key: &str, value: ExtraValue) -> ObjectSummary {
    item.extra.push((key.to_string(), value));
    item
}

#[test]
fn resources_filtre_insensible_a_la_casse() {
    let item = pod("web-1", "production", "Running", 10);
    assert!(matches_filter(&item, ""));
    assert!(matches_filter(&item, "web"));
    assert!(matches_filter(&item, "prod"));
    assert!(matches_filter(&item, "running"));
    assert!(!matches_filter(&item, "kube-system"));
}

#[test]
fn colonnes_adaptees_au_kind() {
    let pods = columns_for("pods", true);
    assert_eq!(pods[0].title, "Nom");
    assert_eq!(pods[1].title, "Namespace");
    assert!(pods.iter().any(|c| c.cell == Cell::Restarts));

    // Sans la colonne namespace quand un seul namespace est affiché.
    let pods = columns_for("pods", false);
    assert!(!pods.iter().any(|c| c.cell == Cell::Namespace));

    // Le suffixe de groupe ne doit pas empêcher la reconnaissance du kind.
    let deploys = columns_for("deployments.apps", false);
    assert!(deploys.iter().any(|c| c.cell == Cell::Extra("upToDate")));

    let inconnu = columns_for("widgets.example.com", true);
    assert_eq!(inconnu.len(), 4);
}

#[test]
fn tri_par_age_puis_par_nom() {
    let a = pod("b", "default", "Running", 10);
    let b = pod("a", "default", "Running", 100);
    assert_eq!(compare(&a, &b, Cell::Age), Ordering::Less);
    assert_eq!(compare(&a, &b, Cell::Name), Ordering::Greater);
}

#[test]
fn valeurs_extra_lisibles() {
    let item = pod("web", "default", "Running", 1);
    let item = with_extra(item, "upToDate", ExtraValue::Number("3".to_string()));
    let item = with_extra(item, "tls", ExtraValue::Bool(true));
    let item = with_extra(item, "hosts", ExtraValue::Text(String::new()));
    let item = with_extra(
        item,
        "taints",
        ExtraValue::List(vec![
            ListItem::Text("a=b:NoSchedule".to_string()),
            ListItem::Text("c=d:NoExecute".to_string()),
        ]),
    );
    assert_eq!(extra_text(&item, "upToDate"), "3");
    assert_eq!(extra_text(&item, "tls"), "oui");
    assert_eq!(extra_text(&item, "hosts"), "—");
    assert_eq!(extra_text(&item, "absent"), "—");
    assert_eq!(extra_text(&item, "taints"), "a=b:NoSchedule, c=d:NoExecute");
}

#[test]
fn valeurs_extra_rares() {
    let item = pod("web", "default", "Running", 1);
    let item = with_extra(item, "vide", ExtraValue::List(Vec::new()));
    let item = with_extra(item, "nul", ExtraValue::Null);
    let item = with_extra(item, "faux", ExtraValue::Bool(false));
    let item = with_extra(item, "objet", ExtraValue::Other("{\"a\":1}".to_string()));
    let item = with_extra(
        item,
        "melange",
        ExtraValue::List(vec![ListItem::Text("x".to_string()), ListItem::Json("2".to_string())]),
    );
    assert_eq!(extra_text(&item, "vide"), "—");
    assert_eq!(extra_text(&item, "nul"), "—");
    assert_eq!(extra_text(&item, "faux"), "non");
    assert_eq!(extra_text(&item, "objet"), "{\"a\":1}");
    assert_eq!(extra_text(&item, "melange"), "x, 2");
}

#[test]
fn textes_des_cellules() {
    let mut item = pod("web", "default", "Running", 3 * 60 + 5);
    item.restarts = Some(-2);
    item.images = vec!["nginx:1.27".to_string(), "busybox".to_string()];
    assert_eq!(cell_text(&item, Cell::Name), "web");
    assert_eq!(cell_text(&item, Cell::Namespace), "default");
    assert_eq!(cell_text(&item, Cell::Ready), "—");
    assert_eq!(cell_text(&item, Cell::Restarts), "-2");
    assert_eq!(cell_text(&item, Cell::Age), "3m05s");
    assert_eq!(cell_text(&item, Cell::Node), "—");
    assert_eq!(cell_text(&item, Cell::Images), "nginx:1.27, busybox");
    item.images.clear();
    assert_eq!(cell_text(&item, Cell::Images), "—");
}

#[test]
fn colonnes_des_autres_kinds() {
    let titres = |kind: &str| -> Vec<&'static str> {
        columns_for(kind, false).iter().map(|c| c.title).collect()
    };
    assert_eq!(titres("Services"), vec!["Nom", "Type", "ClusterIP", "Ports", "Âge"]);
    assert_eq!(titres("nodes"), vec!["Nom", "Statut", "Rôles", "Âge", "Version"]);
    assert_eq!(titres("ingresses.networking.k8s.io"), vec!["Nom", "Classe", "Hôtes", "Adresse", "Âge"]);
    assert_eq!(titres("jobs.batch"), vec!["Nom", "Complétions", "Durée", "Statut", "Âge"]);
    let pods = columns_for("pods", false);
    assert_eq!(pods[0].width, 200);
    assert!(pods[0].grow);
    assert!(!pods[1].grow);
}

#[test]
fn ordre_visible_filtre_et_trie() {
    let rows = vec![
        pod("web-2", "prod", "Running", 50),
        pod("api", "prod", "Pending", 10),
        pod("web-1", "dev", "Running", 30),
        pod("db", "prod", "Running", 70),
    ];
    let colonnes = columns_for("pods", true);
    // Tri par nom (colonne 0), croissant puis décroissant.
    assert_eq!(visible_order(&rows, "", &colonnes, 0, true), vec![1, 3, 2, 0]);
    assert_eq!(visible_order(&rows, "", &colonnes, 0, false), vec![0, 2, 3, 1]);
    // Filtre appliqué avant le tri, espaces ignorés, casse ignorée.
    assert_eq!(visible_order(&rows, "  WEB ", &colonnes, 0, true), vec![2, 0]);
    // Tri par âge (colonne 5 quand le namespace est affiché).
    assert_eq!(colonnes[5].cell, Cell::Age);
    assert_eq!(visible_order(&rows, "", &colonnes, 5, true), vec![1, 2, 0, 3]);
    // Un index de colonne hors limites retombe sur le nom.
    assert_eq!(visible_order(&rows, "", &colonnes, 99, true), vec![1, 3, 2, 0]);
    // Aucun objet ne correspond.
    assert!(visible_order(&rows, "absent", &colonnes, 0, true).is_empty());
}

#[test]
fn ordre_visible_departage_par_nom_puis_namespace() {
    let rows = vec![
        pod("b", "z", "Running", 10),
        pod("a", "y", "Running", 10),
        pod("a", "x", "Running", 10),
    ];
    let colonnes = columns_for("pods", true);
    // Même statut partout : le nom puis le namespace départagent.
    let statut = colonnes.iter().position(|c| c.cell == Cell::Status).unwrap();
    assert_eq!(visible_order(&rows, "", &colonnes, statut, true), vec![2, 1, 0]);
    assert_eq!(visible_order(&rows, "", &colonnes, statut, false), vec![0, 1, 2]);
}

#[test]
fn identite_et_capacites_des_objets() {
    let reference = ResourceRef {
        kind: "pod".to_string(),
        name: "web".to_string(),
        namespace: Some("default".to_string()),
        ..Default::default()
    };
    assert!(is_pod(&reference));
    assert!(!is_node(&reference));
    assert!(!is_scalable(&reference));
    assert!(same_object(&pod("web", "default", "Running", 1), &reference));
    assert!(!same_object(&pod("web", "prod", "Running", 1), &reference));

    let deploy = ResourceRef { kind: "Deployment".to_string(), ..Default::default() };
    assert!(is_scalable(&deploy));
    assert!(is_rollable(&deploy));
    let daemon = ResourceRef { kind: "DaemonSet".to_string(), ..Default::default() };
    assert!(!is_scalable(&daemon));
    assert!(is_rollable(&daemon));
    let node = ResourceRef { kind: "NODE".to_string(), ..Default::default() };
    assert!(is_node(&node));
}

#[test]
fn sections_et_recherche_des_kinds() {
    let kind = |group: &str, kind: &str, plural: &str, short: &[&str]| ResourceKind {
        group: group.to_string(),
        kind: kind.to_string(),
        plural: plural.to_string(),
        namespaced: true,
        short_names: short.iter().map(|s| s.to_string()).collect(),
    };
    let deploy = kind("apps", "Deployment", "deployments", &["deploy"]);
    assert_eq!(kind_section(&deploy), "Charges de travail");
    assert_eq!(kind_section(&kind("", "Service", "services", &["svc"])), "Réseau");
    assert_eq!(kind_section(&kind("", "Secret", "secrets", &[])), "Configuration");
    assert_eq!(kind_section(&kind("", "PersistentVolumeClaim", "persistentvolumeclaims", &["pvc"])), "Stockage");
    assert_eq!(kind_section(&kind("rbac.authorization.k8s.io", "Role", "roles", &[])), "Autorisations");
    assert_eq!(kind_section(&kind("", "Node", "nodes", &["no"])), "Cluster");
    assert_eq!(kind_section(&kind("example.com", "Widget", "widgets", &[])), "Extensions");
    assert_eq!(kind_section(&kind("", "Binding", "bindings", &[])), "Autres");

    assert!(kind_matches(&deploy, ""));
    assert!(kind_matches(&deploy, "deploy"));
    assert!(kind_matches(&deploy, "apps"));
    assert!(kind_matches(&deploy, "ment"));
    assert!(!kind_matches(&deploy, "svc"));
    let svc = kind("", "Service", "services", &["svc"]);
    assert!(kind_matches(&svc, "svc"));
}

#[test]
fn ligne_de_la_ressource_selectionnee() {
    let mut sans_kind = pod("web", "prod", "Running", 1);
    sans_kind.kind = String::new();
    let rows = vec![pod("web", "dev", "Running", 1), sans_kind, pod("web", "prod", "Pending", 2)];
    let reference = ResourceRef {
        kind: "Pod".to_string(),
        name: "web".to_string(),
        namespace: Some("prod".to_string()),
        ..Default::default()
    };
    let trouvee = ligne_courante(&rows, &reference).expect("ligne présente");
    assert_eq!(trouvee.status, "Running");
    assert!(trouvee.kind.is_empty());
    let autre = ResourceRef { name: "api".to_string(), ..reference };
    assert!(ligne_courante(&rows, &autre).is_none());
}

#[test]
fn reference_reconstruite_depuis_la_ligne() {
    let mut item = pod("web", "prod", "Running", 1);
    item.kind = "Deployment".to_string();
    item.api_version = "apps/v1".to_string();
    let r = reference_depuis_ligne(&item, "deployments");
    assert_eq!((r.group.as_str(), r.version.as_str()), ("apps", "v1"));
    assert_eq!((r.kind.as_str(), r.plural.as_str()), ("Deployment", "deployments"));
    assert_eq!(r.namespace.as_deref(), Some("prod"));
    let coeur = reference_depuis_ligne(&pod("web", "prod", "Running", 1), "pods");
    assert_eq!((coeur.group.as_str(), coeur.version.as_str()), ("", "v1"));
}

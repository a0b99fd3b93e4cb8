use kubewatch_desktop::views::hub::request::{
    build_request, outcome_summary, prefill_from_catalog, prefill_from_image, ApplyAction, ApplyItem,
    ApplyOutcome, CatalogApp, DeployForm,
};
use kubewatch_desktop::views::hub::{PortSpec, PvcSpec};
use kubewatch_desktop::widgets::confirm::ResourceRef;
use kubewatch_desktop::views::hub::{human_bytes, nom_court_depuis_reference, repo_url, sanitize_name, truncate};

fn is_dns1123_label(s: &str) -> bool {
    let bytes = s.as_bytes();
    !bytes.is_empty()
        && bytes.len() <= 63
        && bytes.iter().all(|b| b.is_ascii_lowercase() || b.is_ascii_digit() || *b == b'-')
        && bytes[0] != b'-'
        && bytes[bytes.len() - 1] != b'-'
}

#[test]
fn nom_derive_dune_reference() {
    assert_eq!(nom_court_depuis_reference("ghcr.io/o/depot:1.2"), "depot");
    assert_eq!(nom_court_depuis_reference("nginx"), "nginx");
    assert_eq!(
        nom_court_depuis_reference("docker.io/library/redis@sha256:aa"),
        "redis"
    );
}

#[test]
fn nom_assaini_est_dns1123() {
    assert_eq!(sanitize_name("Mon API v2"), "mon-api-v2");
    assert_eq!(sanitize_name("---"), "application");
    assert_eq!(sanitize_name(""), "application");
    assert!(is_dns1123_label(&sanitize_name("Postgre SQL 16")));
}

#[test]
fn hub_octets_lisibles() {
    assert_eq!(human_bytes(512), "512 o");
    assert_eq!(human_bytes(1536), "1.5 Kio");
    assert_eq!(human_bytes(-1), "—");
}

#[test]
fn troncature_sur_frontiere_de_caractere() {
    assert_eq!(truncate("éééééé", 3), "éé…");
    assert_eq!(truncate("court", 10), "court");
}

#[test]
fn url_de_depot() {
    assert_eq!(repo_url("nginx/nginx"), "https://github.com/nginx/nginx");
    assert_eq!(repo_url("https://gitlab.com/o/d"), "https://gitlab.com/o/d");
}

#[test]
fn nom_tronque_a_soixante_trois_caracteres() {
    let long = "a".repeat(80);
    let name = sanitize_name(&long);
    assert_eq!(name.len(), 63);
    assert!(is_dns1123_label(&name));
    let cut_on_dash = format!("{}-b", "a".repeat(62));
    assert_eq!(sanitize_name(&cut_on_dash), "a".repeat(62));
}

#[test]
fn octets_comme_le_formatage_des_flottants() {
    for n in [0i64, 1, 1023, 1024, 1025, 1075, 1126, 1536, 10 * 1024 * 1024 + 51, 1 << 40, i64::MAX] {
        let mut value = n as f64;
        let mut unit = 0;
        let units = ["o", "Kio", "Mio", "Gio", "Tio"];
        while value >= 1024.0 && unit < units.len() - 1 {
            value /= 1024.0;
            unit += 1;
        }
        let expected = if unit == 0 {
            format!("{n} o")
        } else {
            format!("{value:.1} {}", units[unit])
        };
        assert_eq!(human_bytes(n), expected, "pour {n}");
    }
}

#[test]
fn requete_construite_sans_lignes_vides() {
    let mut form = DeployForm::default();
    form.request.name = "  api  ".to_string();
    form.request.image = " nginx:1.27 ".to_string();
    form.request.namespace = "   ".to_string();
    form.request.env = vec![
        ("A".to_string(), "1".to_string()),
        ("  ".to_string(), "x".to_string()),
    ];
    form.request.args = vec!["--verbose".to_string(), "  ".to_string()];
    form.node_selector = vec![
        ("kubernetes.io/os".to_string(), " linux ".to_string()),
        (" ".to_string(), "ignore".to_string()),
    ];
    let req = build_request(&form);
    assert_eq!(req.name, "api");
    assert_eq!(req.namespace, "default");
    assert_eq!(req.image, "nginx:1.27");
    assert_eq!(req.env.len(), 1);
    assert_eq!(req.args.len(), 1);
    assert_eq!(req.node_selector.len(), 1);
    assert_eq!(
        req.node_selector
            .iter()
            .find(|(k, _)| k == "kubernetes.io/os")
            .map(|(_, v)| v.as_str()),
        Some("linux")
    );
}

#[test]
fn contraintes_triees_et_derniere_valeur_retenue() {
    let mut form = DeployForm::default();
    form.node_selector = vec![
        ("zone".to_string(), "a".to_string()),
        (" disk ".to_string(), "ssd".to_string()),
        ("zone".to_string(), " b ".to_string()),
        ("arch".to_string(), "arm64".to_string()),
    ];
    let req = build_request(&form);
    assert_eq!(
        req.node_selector,
        vec![
            ("arch".to_string(), "arm64".to_string()),
            ("disk".to_string(), "ssd".to_string()),
            ("zone".to_string(), "b".to_string()),
        ]
    );
}

#[test]
fn requete_garde_le_reste() {
    let mut form = DeployForm::default();
    assert!(form.dry_run && !form.open);
    form.request.namespace = " prod ".to_string();
    form.request.replicas = 3;
    form.request.ports = vec![PortSpec { container_port: 0 }, PortSpec { container_port: 8080 }];
    form.request.command = vec![" sh ".to_string(), "".to_string()];
    form.request.cpu_limit = Some("500m".to_string());
    form.request.pvc = Some(PvcSpec { size: "1Gi".to_string(), mount_path: "/d".to_string(), storage_class: None });
    let req = build_request(&form);
    assert_eq!(req.namespace, "prod");
    assert_eq!(req.replicas, 3);
    assert_eq!(req.ports, vec![PortSpec { container_port: 8080 }]);
    assert_eq!(req.command, vec![" sh ".to_string()]);
    assert_eq!(req.cpu_limit.as_deref(), Some("500m"));
    assert_eq!(req.pvc, form.request.pvc);
}

#[test]
fn preremplissage_depuis_une_image() {
    let mut form = DeployForm::default();
    form.request.namespace = "equipe".to_string();
    form.node_selector = vec![("a".to_string(), "b".to_string())];
    form.preview = Some("apiVersion: v1".to_string());
    prefill_from_image(
        &mut form,
        "ghcr.io/mon-org/Mon_App:1.4.0",
        &[8080, 9090],
        &["PATH=/usr/bin".to_string(), "SANS_VALEUR".to_string(), "A=b=c".to_string()],
    );
    assert_eq!(form.request.name, "mon-app");
    assert_eq!(form.request.namespace, "equipe");
    assert_eq!(form.request.image, "ghcr.io/mon-org/Mon_App:1.4.0");
    assert_eq!(form.request.replicas, 1);
    assert_eq!(form.request.ports.len(), 2);
    assert_eq!(
        form.request.env,
        vec![
            ("PATH".to_string(), "/usr/bin".to_string()),
            ("A".to_string(), "b=c".to_string()),
        ]
    );
    assert!(form.node_selector.is_empty());
    assert!(form.preview.is_none());
}

#[test]
fn preremplissage_depuis_le_catalogue() {
    let app = CatalogApp {
        id: "PostgreSQL".to_string(),
        image: "postgres:16".to_string(),
        default_port: Some(5432),
        env: vec![("POSTGRES_PASSWORD".to_string(), "change-moi".to_string())],
        needs_pvc: true,
    };
    let mut form = DeployForm::default();
    prefill_from_catalog(&mut form, &app);
    assert_eq!(form.request.name, "postgresql");
    assert_eq!(form.request.ports, vec![PortSpec { container_port: 5432 }]);
    assert_eq!(form.request.env, app.env);
    let pvc = form.request.pvc.clone().expect("volume demandé");
    assert_eq!(pvc.size, "10Gi");
    assert_eq!(pvc.mount_path, "/data");
    let sans_volume = CatalogApp { needs_pvc: false, default_port: None, ..app };
    prefill_from_catalog(&mut form, &sans_volume);
    assert!(form.request.pvc.is_none());
    assert!(form.request.ports.is_empty());
}

#[test]
fn bilan_d_application() {
    let item = |action| ApplyItem { action, resource: ResourceRef::default(), message: None };
    let bilan = ApplyOutcome { items: vec![item(ApplyAction::Created), item(ApplyAction::Unchanged)], failed: 0 };
    assert_eq!(outcome_summary(&bilan), "2 document(s) traité(s), aucun échec");
    let bilan = ApplyOutcome { items: vec![item(ApplyAction::Failed)], failed: 1 };
    assert_eq!(outcome_summary(&bilan), "1 document(s) traité(s), 1 en échec");
    assert_eq!(ApplyAction::DryRun.label(), "simulé");
    assert_eq!(ApplyAction::Failed.label(), "échec");
}

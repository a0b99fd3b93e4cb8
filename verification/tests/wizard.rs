use kubewatch_desktop::views::deploy::{prefill_from_catalog, prefill_from_image, Exposure, Step, WizardState};
use kubewatch_desktop::views::hub::request::CatalogApp;
use kubewatch_desktop::views::hub::{PortSpec, PvcSpec};

fn application(id: &str, image: &str, port: Option<u16>, volume: bool) -> CatalogApp {
    CatalogApp {
        id: id.to_string(),
        image: image.to_string(),
        default_port: port,
        env: Vec::new(),
        needs_pvc: volume,
    }
}

fn wizard_avec(app: &CatalogApp) -> WizardState {
    let mut w = WizardState::default();
    prefill_from_catalog(&mut w, app);
    w
}

#[test]
fn stockage_active_et_desactive_le_volume() {
    let mut w = wizard_avec(&application("nginx", "nginx:1.27", Some(80), false));
    assert!(!w.storage);
    w.storage = true;
    w.storage_gib = 25;
    w.storage_path = "/var/www".to_string();
    w.sync();
    let pvc = w.request.pvc.clone().expect("volume demandé");
    assert_eq!(pvc.size, "25Gi");
    assert_eq!(pvc.mount_path, "/var/www");
    w.storage = false;
    w.sync();
    assert!(w.request.pvc.is_none());
}

#[test]
fn built_nettoie_la_saisie() {
    let mut w = WizardState::default();
    w.request.name = "  mon-api  ".to_string();
    w.request.namespace = "   ".to_string();
    w.request.image = " nginx:1.27 ".to_string();
    w.request.env = vec![
        ("  CLE  ".to_string(), "valeur".to_string()),
        ("   ".to_string(), "orpheline".to_string()),
    ];
    w.request.ports = vec![
        PortSpec {
            container_port: 0,
            ..PortSpec::default()
        },
        PortSpec {
            container_port: 80,
            ..PortSpec::default()
        },
    ];
    let req = w.built();
    assert_eq!(req.name, "mon-api");
    assert_eq!(
        req.namespace, "default",
        "un namespace vide retombe sur default"
    );
    assert_eq!(req.image, "nginx:1.27");
    assert_eq!(req.env, vec![("CLE".to_string(), "valeur".to_string())]);
    assert_eq!(req.ports.len(), 1);
}

#[test]
fn redemarrage_garde_le_namespace() {
    let mut w = wizard_avec(&application("redis", "redis:7", Some(6379), true));
    w.request.namespace = "production".to_string();
    w.go(Step::Preview);
    w.restart();
    assert_eq!(w.step, Step::What);
    assert_eq!(w.reached, Step::What);
    assert_eq!(
        w.request.namespace, "production",
        "le namespace choisi survit à un nouveau déploiement"
    );
    assert!(w.picked.is_none());
    assert!(w.request.image.is_empty());
}

#[test]
fn le_fil_retient_letape_la_plus_avancee() {
    let mut w = WizardState::default();
    w.go(Step::Preview);
    w.go(Step::How);
    assert_eq!(w.step, Step::How);
    assert_eq!(w.reached, Step::Preview, "on peut revenir en avant");
}

#[test]
fn assistant_neuf_a_la_premiere_etape() {
    let w = WizardState::default();
    assert_eq!(w.step, Step::What);
    assert_eq!(w.exposure, Exposure::Internal);
    assert!(!w.storage);
    assert_eq!(w.storage_gib, 10);
    assert_eq!(w.storage_path, "/data");
    assert_eq!(w.request.replicas, 1);
    assert!(w.request.namespace.is_empty());
}

#[test]
fn exposition_ecrite_dans_la_requete() {
    let mut w = wizard_avec(&application("nginx", "nginx:1.27", Some(80), false));
    assert_eq!(w.request.service_type.as_deref(), Some("ClusterIP"));
    assert!(w.request.ingress_host.is_none());

    w.exposure = Exposure::NodePort;
    w.sync();
    assert_eq!(w.request.service_type.as_deref(), Some("NodePort"));

    w.exposure = Exposure::Domain;
    w.host = "  app.exemple.fr ".to_string();
    w.sync();
    assert_eq!(w.request.service_type.as_deref(), Some("ClusterIP"));
    assert_eq!(w.request.ingress_host.as_deref(), Some("app.exemple.fr"));

    // Un domaine vide ne donne pas d'Ingress sans hôte.
    w.host = "   ".to_string();
    w.sync();
    assert!(w.request.ingress_host.is_none());

    // Un hôte saisi ne compte que pour l'exposition par domaine.
    w.host = "app.exemple.fr".to_string();
    w.exposure = Exposure::LoadBalancer;
    w.sync();
    assert!(w.request.ingress_host.is_none());
}

#[test]
fn volume_jamais_vide_ni_sans_point_de_montage() {
    let mut w = wizard_avec(&application("postgresql", "postgres:16", Some(5432), true));
    assert!(w.storage);
    let pvc = w.request.pvc.clone().expect("une base de données garde ses données");
    assert_eq!(pvc.size, "10Gi");
    assert_eq!(pvc.mount_path, "/data");

    w.storage_gib = 0;
    w.storage_path = "  ".to_string();
    w.sync();
    let pvc = w.request.pvc.clone().expect("volume demandé");
    assert_eq!(pvc.size, "1Gi");
    assert_eq!(pvc.mount_path, "/data");
}

#[test]
fn classe_de_stockage_conservee() {
    let mut w = wizard_avec(&application("postgresql", "postgres:16", Some(5432), true));
    w.request.pvc = Some(PvcSpec {
        size: "3Gi".to_string(),
        mount_path: "/ailleurs".to_string(),
        storage_class: Some("rapide".to_string()),
    });
    w.storage_gib = 20;
    w.sync();
    let pvc = w.request.pvc.clone().expect("volume demandé");
    assert_eq!(pvc.size, "20Gi");
    assert_eq!(pvc.mount_path, "/data");
    assert_eq!(pvc.storage_class.as_deref(), Some("rapide"));
}

#[test]
fn synchroniser_deux_fois_ne_change_rien() {
    let mut w = wizard_avec(&application("postgresql", "postgres:16", Some(5432), true));
    w.exposure = Exposure::Domain;
    w.host = "db.exemple.fr".to_string();
    w.sync();
    let une_fois = w.request.clone();
    w.sync();
    assert_eq!(w.request, une_fois);
}

#[test]
fn assistant_prerempli_depuis_une_image() {
    let mut w = WizardState::default();
    w.request.namespace = "equipe".to_string();
    w.storage = true;
    prefill_from_image(&mut w, "ghcr.io/mon-org/Mon_App:1.4.0", &[8080]);
    assert_eq!(w.request.name, "mon-app");
    assert_eq!(w.request.namespace, "equipe");
    assert_eq!(w.request.image, "ghcr.io/mon-org/Mon_App:1.4.0");
    assert_eq!(w.request.ports, vec![PortSpec { container_port: 8080 }]);
    assert!(!w.storage);
    assert!(w.request.pvc.is_none());
    assert!(w.picked.is_none());

    prefill_from_image(&mut w, "registry.local:5000/equipe/api@sha256:aa", &[]);
    assert_eq!(w.request.name, "api");
    assert!(w.request.ports.is_empty());
}

#[test]
fn assistant_prerempli_depuis_le_catalogue() {
    let mut w = WizardState::default();
    w.request.namespace = "production".to_string();
    w.go(Step::How);
    let mut app = application("My_App", "ghcr.io/org/app:2", Some(3000), false);
    app.env = vec![("MODE".to_string(), "prod".to_string())];
    prefill_from_catalog(&mut w, &app);
    assert_eq!(w.picked.as_deref(), Some("My_App"));
    assert_eq!(w.image_input, "ghcr.io/org/app:2");
    assert_eq!(w.request.name, "my-app");
    assert_eq!(w.request.namespace, "production");
    assert_eq!(w.request.ports, vec![PortSpec { container_port: 3000 }]);
    assert_eq!(w.request.env, vec![("MODE".to_string(), "prod".to_string())]);
    assert_eq!(w.step, Step::How, "le pré-remplissage ne change pas d'étape");
}

#[test]
fn noms_derives_des_references_dimage() {
    let mut w = WizardState::default();
    prefill_from_image(&mut w, "ghcr.io/mon-org/Mon_App:1.4.0", &[8080]);
    assert_eq!(w.request.name, "mon-app");
    assert_eq!(w.request.ports.len(), 1);

    prefill_from_image(&mut w, "registry.local:5000/equipe/api@sha256:aa", &[]);
    assert_eq!(w.request.name, "api");
}

#[test]
fn exposition_traduite_en_service_et_ingress() {
    let mut w = wizard_avec(&application("nginx", "nginx:1.27", Some(80), false));

    w.exposure = Exposure::Internal;
    w.sync();
    assert_eq!(w.request.service_type.as_deref(), Some("ClusterIP"));
    assert!(w.request.ingress_host.is_none());

    w.exposure = Exposure::LoadBalancer;
    w.sync();
    assert_eq!(w.request.service_type.as_deref(), Some("LoadBalancer"));

    w.exposure = Exposure::Domain;
    w.host = "app.exemple.fr".to_string();
    w.sync();
    assert_eq!(w.request.service_type.as_deref(), Some("ClusterIP"));
    assert_eq!(w.request.ingress_host.as_deref(), Some("app.exemple.fr"));

    // Un domaine vide ne doit pas produire d'Ingress sans hôte.
    w.host = "   ".to_string();
    w.sync();
    assert!(w.request.ingress_host.is_none());
}

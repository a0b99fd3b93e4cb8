use kubewatch_desktop::views::deploy::{ligne_namespace, objets_crees, teinte_stable};
use kubewatch_desktop::views::hub::{PortSpec, PvcSpec};
use kubewatch_desktop::views::detail::{est_pod, ton_evenement, EventTone};
use kubewatch_desktop::views::hub::request::ApplyAction;
use kubewatch_desktop::views::updates::watchers::{canal_libelle, severite_libelle, UpdateSeverity};
use kubewatch_desktop::views::updates::UpdateChannel;
use kubewatch_desktop::views::yaml::{diff_line_kind, libelle_action, DiffLine};
use kubewatch_desktop::widgets::confirm::ResourceRef;
use kubewatch_desktop::views::deploy::{nom_court, sanitize_name, Exposure, Step};
use kubewatch_desktop::views::detail::{decouper_commande, etat_court};
use kubewatch_desktop::views::hub::DeployRequest;
use kubewatch_desktop::views::settings::{chemin_kubeconfig, vide_en_none};
use kubewatch_desktop::views::updates::texte_brut;

#[test]
fn champs_vides_deviennent_none() {
    assert_eq!(vide_en_none(" \n "), None);
    assert_eq!(vide_en_none(" abc "), Some("abc".to_string()));
}

#[test]
fn chemin_vide_signifie_emplacement_par_defaut() {
    assert_eq!(chemin_kubeconfig("   "), None);
    assert_eq!(
        chemin_kubeconfig(" /tmp/kubeconfig.yml "),
        Some("/tmp/kubeconfig.yml".to_string())
    );
}

#[test]
fn notes_de_version_bornees_et_nettoyees() {
    let brut = format!("ligne\u{0007}1\nligne2{}", "x".repeat(30_000));
    let net = texte_brut(&brut);
    assert!(!net.contains('\u{0007}'));
    assert!(net.contains('\n'));
    assert!(net.ends_with("(notes tronquées)"));
}

#[test]
fn notes_courtes_intactes() {
    assert_eq!(texte_brut("a\tb\r\nc\u{9b}"), "a\tb\nc");
    let net = texte_brut(&"é".repeat(15_000));
    assert_eq!(net.len(), 20_000 + "\n… (notes tronquées)".len());
}

#[test]
fn commande_decoupee_sur_les_blancs() {
    assert_eq!(decouper_commande("  ls   -la \t /tmp "), vec!["ls", "-la", "/tmp"]);
    assert_eq!(decouper_commande("   "), vec!["/bin/sh"]);
    assert_eq!(decouper_commande(""), vec!["/bin/sh"]);
}

#[test]
fn etat_de_conteneur_abrege() {
    assert_eq!(etat_court("waiting: CrashLoopBackOff"), "CrashLoopBackOff");
    assert_eq!(etat_court("  running  "), "running");
    assert_eq!(etat_court("terminated: Error: 1"), "Error: 1");
}

#[test]
fn etapes_et_expositions() {
    assert_eq!(Step::ALL.len(), 4);
    assert_eq!(Step::Preview.label(), "Vérification");
    assert_eq!(Exposure::ALL[3], Exposure::Domain);
    assert_eq!(Exposure::Domain.service_type(), "ClusterIP");
    assert_eq!(Exposure::NodePort.service_type(), "NodePort");
    assert_eq!(Exposure::LoadBalancer.label(), "Adresse IP publique");
    assert!(Exposure::Internal.description().starts_with("Les autres applications"));
    let requete = |hote: Option<&str>, service: Option<&str>| DeployRequest {
        ingress_host: hote.map(str::to_string),
        service_type: service.map(str::to_string),
        ..DeployRequest::default()
    };
    assert_eq!(Exposure::detect(&requete(Some(" app.exemple.fr "), None)), Exposure::Domain);
    assert_eq!(Exposure::detect(&requete(Some("   "), Some(" NodePort "))), Exposure::NodePort);
    assert_eq!(Exposure::detect(&requete(None, Some("LoadBalancer"))), Exposure::LoadBalancer);
    assert_eq!(Exposure::detect(&requete(None, Some("ExternalName"))), Exposure::Internal);
}

#[test]
fn noms_derives_d_images() {
    assert_eq!(nom_court("registry.local:5000/equipe/api@sha256:aa"), "api");
    assert_eq!(sanitize_name("ghcr.io/mon-org/Mon_App"), "ghcr-io-mon-org-mon-app");
}

#[test]
fn teintes_de_pastille_stables_et_distinctes() {
    assert_eq!(teinte_stable("NGINX"), teinte_stable("NGINX"));
    assert_ne!(teinte_stable("NGINX"), teinte_stable("Redis"));
    // FNV-1a 32 bits : 0xe40c292c pour « a », 0x811c9dc5 pour le texte vide.
    assert_eq!(teinte_stable("a"), 340);
    assert_eq!(teinte_stable(""), 61);
    assert_eq!(teinte_stable("NGINX"), 207);
}

#[test]
fn tons_des_evenements_et_pods() {
    assert_eq!(ton_evenement("Warning"), EventTone::Warning);
    assert_eq!(ton_evenement("ERROR"), EventTone::Error);
    assert_eq!(ton_evenement("Normal"), EventTone::Info);
    let pod = ResourceRef { kind: "POD".to_string(), ..Default::default() };
    assert!(est_pod(&pod));
    let svc = ResourceRef { kind: "Service".to_string(), ..Default::default() };
    assert!(!est_pod(&svc));
}

#[test]
fn libelles_des_mises_a_jour() {
    assert_eq!(canal_libelle(UpdateChannel::Prerelease), "pré-version");
    assert_eq!(canal_libelle(UpdateChannel::Pinned), "figée");
    assert_eq!(severite_libelle(UpdateSeverity::Major), " MAJEURE ");
    assert_eq!(severite_libelle(UpdateSeverity::Unknown), " INCONNUE ");
}

#[test]
fn lignes_de_diff_et_actions_de_la_console() {
    assert_eq!(diff_line_kind("+++ b/deploy.yaml"), DiffLine::FileHeader);
    assert_eq!(diff_line_kind("--- a/deploy.yaml"), DiffLine::FileHeader);
    assert_eq!(diff_line_kind("+  replicas: 3"), DiffLine::Added);
    assert_eq!(diff_line_kind("-  replicas: 2"), DiffLine::Removed);
    assert_eq!(diff_line_kind("@@ -1,4 +1,4 @@"), DiffLine::Hunk);
    assert_eq!(diff_line_kind(" kind: Deployment"), DiffLine::Context);
    assert_eq!(diff_line_kind(""), DiffLine::Context);
    assert_eq!(libelle_action(ApplyAction::DryRun), "simulé");
    assert_eq!(libelle_action(ApplyAction::Configured), "configuré");
}

#[test]
fn objets_crees_par_un_deploiement() {
    let mut req = DeployRequest::default();
    req.name = "web".to_string();
    req.namespace = "prod".to_string();
    req.image = "nginx:1.27".to_string();
    req.replicas = 2;
    let objets = objets_crees(&req);
    assert_eq!(objets.len(), 1);
    assert_eq!(objets[0].kind, "Deployment");
    assert_eq!(objets[0].detail, "2 pod(s) de nginx:1.27");
    assert_eq!(ligne_namespace(&req), "Dans le namespace « prod ».");

    req.ports = vec![PortSpec { container_port: 80 }, PortSpec { container_port: 443 }];
    req.service_type = Some("LoadBalancer".to_string());
    req.ingress_host = Some("web.exemple.fr".to_string());
    req.pvc = Some(PvcSpec { size: "5Gi".to_string(), mount_path: "/data".to_string(), storage_class: None });
    let objets = objets_crees(&req);
    let vues: Vec<(&str, &str, &str)> =
        objets.iter().map(|o| (o.kind, o.name.as_str(), o.detail.as_str())).collect();
    assert_eq!(
        vues,
        vec![
            ("Deployment", "web", "2 pod(s) de nginx:1.27"),
            ("Service", "web", "LoadBalancer, port(s) 80, 443"),
            ("Ingress", "web", "https://web.exemple.fr"),
            ("PersistentVolumeClaim", "web-data", "5Gi monté dans /data"),
        ]
    );

    let mut vide = DeployRequest::default();
    vide.replicas = -3;
    vide.ports = vec![PortSpec { container_port: 8080 }];
    vide.ingress_host = Some("  ".to_string());
    let vues: Vec<(String, String)> =
        objets_crees(&vide).into_iter().map(|o| (o.name, o.detail)).collect();
    assert_eq!(
        vues,
        vec![
            ("—".to_string(), "0 pod(s) de ".to_string()),
            ("—".to_string(), "ClusterIP, port(s) 8080".to_string()),
        ]
    );
}

#[test]
fn nom_derive_est_une_etiquette_stable() {
    for brut in ["  Mon_App  ", "---", "A--B__c", "é", &"x".repeat(80), "web-1"] {
        let nom = sanitize_name(brut);
        assert!(!nom.is_empty() && nom.len() <= 63);
        assert!(nom.chars().all(|c| c.is_ascii_lowercase() || c.is_ascii_digit() || c == '-'));
        assert!(!nom.starts_with('-') && !nom.ends_with('-') && !nom.contains("--"));
        assert_eq!(sanitize_name(&nom), nom);
    }
}

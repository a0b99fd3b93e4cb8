use kubewatch_desktop::views::updates::watchers::{
    assembler_watcher, construire_watcher, formulaire_depuis, nouveau_formulaire, UpdaterSettings,
    WatcherForm, MIN_CHECK_INTERVAL,
};
use kubewatch_desktop::views::updates::{
    SourceMode, UpdateChannel, UpdatePolicy, UpdateSource, WatchTarget, WatcherSpec,
};

fn formulaire_valide() -> WatcherForm {
    let mut f = nouveau_formulaire("prod".to_string(), None);
    f.name = "nginx".to_string();
    f.kind = "Deployment".to_string();
    f.namespace = "web".to_string();
    f.target_name = "nginx".to_string();
    f.source_mode = SourceMode::Image;
    f.image = "nginx:1.27".to_string();
    f
}

fn uuid_v4(id: &str) -> bool {
    let c: Vec<char> = id.chars().collect();
    c.len() == 36
        && c.iter().enumerate().all(|(i, ch)| {
            if [8, 13, 18, 23].contains(&i) {
                *ch == '-'
            } else {
                ch.is_ascii_hexdigit() && !ch.is_ascii_uppercase()
            }
        })
        && c[14] == '4'
        && "89ab".contains(c[19])
}

#[test]
fn construction_dun_watcher_complet() {
    let f = formulaire_valide();
    let w = construire_watcher(&f, None).expect("le formulaire est valide");
    assert_eq!(w.name, "nginx");
    assert_eq!(w.cluster, "prod");
    assert_eq!(w.target.label(), "web/Deployment/nginx");
    assert!(matches!(w.source, UpdateSource::ContainerRegistry { .. }));
    assert!(w.enabled);
}

#[test]
fn champs_manquants_refuses_en_francais() {
    let mut f = formulaire_valide();
    f.name = "   ".to_string();
    let e = construire_watcher(&f, None).expect_err("nom vide");
    assert!(e.contains("nom"));

    let mut f = formulaire_valide();
    f.image = String::new();
    let e = construire_watcher(&f, None).expect_err("image vide");
    assert!(e.contains("image"));

    let mut f = formulaire_valide();
    f.source_mode = SourceMode::Github;
    let e = construire_watcher(&f, None).expect_err("dépôt vide");
    assert!(e.contains("dépôt"));
}

#[test]
fn modification_conserve_identifiant_et_historique() {
    let f = formulaire_valide();
    let initial = construire_watcher(&f, None).expect("création");
    let mut f2 = formulaire_depuis(&initial);
    f2.name = "nginx renommé".to_string();
    let modifie = construire_watcher(&f2, Some(&initial)).expect("modification");
    assert_eq!(modifie.id, initial.id);
    assert_eq!(modifie.created_at, initial.created_at);
    assert_eq!(modifie.name, "nginx renommé");
}

#[test]
fn aller_retour_des_trois_sources() {
    for source in [
        UpdateSource::GithubRelease {
            owner: "o".into(),
            repo: "r".into(),
            tag_prefix: Some("v".into()),
        },
        UpdateSource::ContainerRegistry {
            image: "nginx".into(),
        },
        UpdateSource::HelmChart {
            repo: "https://charts".into(),
            chart: "redis".into(),
        },
    ] {
        let w = WatcherSpec::new(
            "w",
            "prod",
            WatchTarget::new("Deployment", Some("ns".into()), "app"),
            source.clone(),
            UpdatePolicy::default(),
        )
        .expect("identifiant aléatoire");
        let f = formulaire_depuis(&w);
        let retour = construire_watcher(&f, Some(&w)).expect("reconstruction");
        assert_eq!(retour.source, source);
    }
}

#[test]
fn politique_normalisee() {
    let mut f = formulaire_valide();
    f.constraint = "  ".to_string();
    f.ignore_text = "1.0.0\n\n  2.0.0  \n".to_string();
    f.policy.check_interval_seconds = 5;
    let w = construire_watcher(&f, None).expect("valide");
    assert!(w.policy.constraint.is_none());
    assert_eq!(w.policy.ignore, vec!["1.0.0", "2.0.0"]);
    assert_eq!(w.policy.check_interval_seconds, 60);
}

#[test]
fn messages_de_chaque_refus() {
    let cas: [(fn(&mut WatcherForm), &str); 6] = [
        (|f| f.cluster = " ".to_string(), "Choisissez le cluster qui porte la cible."),
        (|f| f.kind = String::new(), "Choisissez le type de l'objet surveillé."),
        (|f| f.target_name = "\t".to_string(), "Indiquez le nom de l'objet surveillé."),
        (
            |f| {
                f.source_mode = SourceMode::Github;
                f.gh_owner = "kubernetes".to_string();
            },
            "Renseignez le propriétaire et le nom du dépôt GitHub.",
        ),
        (
            |f| {
                f.source_mode = SourceMode::Chart;
                f.chart_repo = "https://charts".to_string();
            },
            "Renseignez le dépôt et le nom du chart Helm.",
        ),
        (|f| f.name = String::new(), "Donnez un nom à la surveillance."),
    ];
    for (modifier, attendu) in cas {
        let mut f = formulaire_valide();
        modifier(&mut f);
        assert_eq!(construire_watcher(&f, None).unwrap_err(), attendu);
    }
}

#[test]
fn assemblage_avec_identite_fournie() {
    let mut f = formulaire_valide();
    f.name = "  api  ".to_string();
    f.namespace = "   ".to_string();
    f.container = " app ".to_string();
    f.source_mode = SourceMode::Github;
    f.gh_owner = " kubernetes ".to_string();
    f.gh_repo = "ingress-nginx".to_string();
    f.gh_tag_prefix = " controller-v ".to_string();
    f.maintenance_window = "01:00-05:00".to_string();
    f.policy.channel = UpdateChannel::Patch;
    f.policy.check_interval_seconds = 900;
    let w = assembler_watcher(&f, None, "ident".to_string(), 42).expect("valide");
    assert_eq!(w.id, "ident");
    assert_eq!(w.created_at, 42);
    assert_eq!(w.name, "api");
    assert_eq!(w.target.namespace, None);
    assert_eq!(w.target.label(), "Deployment/nginx");
    assert_eq!(w.container.as_deref(), Some("app"));
    assert_eq!(
        w.source,
        UpdateSource::GithubRelease {
            owner: "kubernetes".to_string(),
            repo: "ingress-nginx".to_string(),
            tag_prefix: Some("controller-v".to_string()),
        }
    );
    assert_eq!(w.policy.maintenance_window.as_deref(), Some("01:00-05:00"));
    assert_eq!(w.policy.channel, UpdateChannel::Patch);
    assert_eq!(w.policy.check_interval_seconds, 900);
    assert!(w.last_checked_at.is_none());
}

#[test]
fn identifiant_aleatoire_au_format_v4() {
    let a = construire_watcher(&formulaire_valide(), None).expect("valide");
    let b = construire_watcher(&formulaire_valide(), None).expect("valide");
    assert!(uuid_v4(&a.id), "identifiant inattendu : {}", a.id);
    assert!(uuid_v4(&b.id));
    assert_ne!(a.id, b.id);
}

#[test]
fn formulaire_neuf_et_reglages() {
    let f = nouveau_formulaire("prod".to_string(), None);
    assert!(f.open && f.enabled && f.editing.is_none());
    assert_eq!(f.kind, "Deployment");
    assert_eq!(f.source_mode, SourceMode::Image);
    assert_eq!(f.policy, UpdatePolicy::default());

    let mut politique = UpdatePolicy::default();
    politique.channel = UpdateChannel::Major;
    politique.ignore = vec!["latest".to_string()];
    let reglages = UpdaterSettings { default_policy: politique.clone() };
    let f = nouveau_formulaire("dev".to_string(), Some(&reglages));
    assert_eq!(f.cluster, "dev");
    assert_eq!(f.policy, politique);
    assert!(MIN_CHECK_INTERVAL <= UpdatePolicy::default().check_interval_seconds);
}

#[test]
fn formulaire_depuis_une_surveillance() {
    let mut politique = UpdatePolicy::default();
    politique.ignore = vec!["1.2.3".to_string(), "latest".to_string()];
    politique.constraint = Some(">=1.2, <2".to_string());
    let w = WatcherSpec::new(
        "redis",
        "prod",
        WatchTarget::new("StatefulSet", None, "redis"),
        UpdateSource::HelmChart { repo: "https://charts".into(), chart: "redis".into() },
        politique,
    )
        .expect("identifiant aléatoire");
    let f = formulaire_depuis(&w);
    assert_eq!(f.editing.as_deref(), Some(w.id.as_str()));
    assert_eq!(f.namespace, "");
    assert_eq!(f.source_mode, SourceMode::Chart);
    assert_eq!(f.chart_name, "redis");
    assert_eq!(f.ignore_text, "1.2.3\nlatest");
    assert_eq!(f.constraint, ">=1.2, <2");
    // Enregistrer le formulaire sans le toucher rend la surveillance.
    assert_eq!(construire_watcher(&f, Some(&w)).expect("valide"), w);
}

use kubewatch_desktop::views::graph::ObjectSummary;
use kubewatch_desktop::views::resources::screen::{resources_step, ResourcesScreen, ScreenAction, ScreenEffect};
use kubewatch_desktop::widgets::confirm::{ConfirmAction, ResourceRef};

fn ecran() -> ResourcesScreen {
    ResourcesScreen {
        sort: (0, true),
        selected_kind: "pods".to_string(),
        namespace: Some("default".to_string()),
        selected: None,
        rows: vec![ObjectSummary::default()],
        continue_token: Some("jeton".to_string()),
        filter: "web".to_string(),
        confirm: None,
    }
}

fn objet(kind: &str, ns: Option<&str>, name: &str) -> ResourceRef {
    ResourceRef {
        kind: kind.to_string(),
        namespace: ns.map(str::to_string),
        name: name.to_string(),
        ..ResourceRef::default()
    }
}

#[test]
fn tri_inverse_sur_la_meme_colonne() {
    let mut st = ecran();
    resources_step(&mut st, ScreenAction::Sort(0), true);
    assert_eq!(st.sort, (0, false));
    resources_step(&mut st, ScreenAction::Sort(0), true);
    assert_eq!(st.sort, (0, true));
    resources_step(&mut st, ScreenAction::Sort(3), true);
    assert_eq!(st.sort, (3, true));
}

#[test]
fn changer_de_kind_repart_de_zero() {
    let mut st = ecran();
    st.selected = Some(objet("Pod", Some("default"), "web-1"));
    let fx = resources_step(&mut st, ScreenAction::SelectKind("deployments".to_string()), true);
    assert_eq!(st.selected_kind, "deployments");
    assert!(st.rows.is_empty());
    assert!(st.continue_token.is_none());
    assert!(st.selected.is_none());
    assert_eq!(fx.len(), 1);
    match &fx[0] {
        ScreenEffect::ListResources { kind, namespace, continue_token, limit } => {
            assert_eq!(kind, "deployments");
            assert_eq!(namespace.as_deref(), Some("default"));
            assert!(continue_token.is_none());
            assert_eq!(*limit, 500);
        }
        autre => panic!("effet inattendu : {autre:?}"),
    }
    // Le même kind ne redemande rien.
    let fx = resources_step(&mut st, ScreenAction::SelectKind("deployments".to_string()), true);
    assert!(fx.is_empty());
}

#[test]
fn page_suivante_consomme_le_jeton() {
    let mut st = ecran();
    let fx = resources_step(&mut st, ScreenAction::LoadMore, true);
    assert!(st.continue_token.is_none());
    match &fx[..] {
        [ScreenEffect::ListResources { continue_token, .. }] => {
            assert_eq!(continue_token.as_deref(), Some("jeton"));
        }
        autre => panic!("effets inattendus : {autre:?}"),
    }
    let fx = resources_step(&mut st, ScreenAction::LoadMore, true);
    assert!(fx.is_empty());
    assert_eq!(st.rows.len(), 1, "les lignes déjà reçues restent");
}

#[test]
fn suppression_confirmee_par_le_nom() {
    let mut st = ecran();
    let cible = objet("Deployment", Some("prod"), "api");
    let fx = resources_step(&mut st, ScreenAction::Delete(cible.clone()), true);
    assert!(fx.is_empty());
    let boite = st.confirm.clone().expect("confirmation demandée");
    assert!(boite.danger);
    assert_eq!(boite.require_text.as_deref(), Some("api"));
    assert_eq!(boite.title, "Supprimer");
    assert_eq!(
        boite.body,
        "Suppression définitive de prod/api (Deployment) et de ses dépendances."
    );
    assert_eq!(boite.on_confirm, ConfirmAction::DeleteResource(cible));
}

#[test]
fn redemarrage_et_vidange() {
    let mut st = ecran();
    resources_step(&mut st, ScreenAction::Restart(objet("Deployment", Some("prod"), "api")), true);
    let boite = st.confirm.clone().expect("confirmation demandée");
    assert!(!boite.danger);
    assert_eq!(boite.require_text.as_deref(), Some("api"));

    resources_step(&mut st, ScreenAction::Drain(objet("Node", None, "noeud-1")), true);
    let boite = st.confirm.clone().expect("confirmation demandée");
    assert!(boite.danger);
    assert_eq!(boite.on_confirm, ConfirmAction::DrainNode("noeud-1".to_string()));
}

#[test]
fn sans_cluster_rien_n_est_demande() {
    let mut st = ecran();
    assert!(resources_step(&mut st, ScreenAction::Delete(objet("Pod", Some("a"), "b")), false).is_empty());
    assert!(st.confirm.is_none());
    assert!(resources_step(&mut st, ScreenAction::Refresh, false).is_empty());
    assert!(st.continue_token.is_none());
    let fx = resources_step(&mut st, ScreenAction::Edit(objet("Pod", Some("a"), "b")), false);
    assert!(matches!(fx[..], [ScreenEffect::OpenYamlView]));
    assert_eq!(st.selected.as_ref().map(|r| r.name.as_str()), Some("b"));
}

#[test]
fn ouvrir_un_pod_lit_ses_conteneurs() {
    let mut st = ecran();
    let fx = resources_step(&mut st, ScreenAction::Open(objet("Pod", Some("a"), "b")), true);
    assert!(matches!(fx[..], [ScreenEffect::LoadYaml(_), ScreenEffect::LoadContainers(_)]));
    let fx = resources_step(&mut st, ScreenAction::Open(objet("Service", Some("a"), "b")), true);
    assert!(matches!(fx[..], [ScreenEffect::LoadYaml(_)]));
    let fx = resources_step(&mut st, ScreenAction::Terminal(objet("Pod", Some("a"), "b")), true);
    match &fx[..] {
        [ScreenEffect::LoadContainers(_), ScreenEffect::StartExec(_, commande)] => {
            assert_eq!(commande[0], "/bin/sh");
        }
        autre => panic!("effets inattendus : {autre:?}"),
    }
    resources_step(&mut st, ScreenAction::ClearFilter, true);
    assert!(st.filter.is_empty());
}

use kubewatch_desktop::widgets::confirm::{Confirm, ConfirmAction, ResourceRef};

#[test]
fn sans_texte_exige_la_boite_est_prete() {
    let confirm = Confirm::new(
        "Titre".to_string(),
        "Corps".to_string(),
        ConfirmAction::DrainNode("noeud-1".into()),
    );
    assert!(confirm.is_ready());
    assert_eq!(confirm.confirm_label(), "Confirmer");
}

#[test]
fn le_texte_exige_doit_correspondre_exactement() {
    let mut confirm = Confirm::new(
        "Supprimer le nœud".to_string(),
        "Cette opération est irréversible.".to_string(),
        ConfirmAction::DrainNode("node-1".to_string()),
    )
    .danger()
    .require_text("node-1".to_string());

    assert!(!confirm.is_ready());
    confirm.typed = "node".to_string();
    assert!(!confirm.is_ready());
    confirm.typed = "node-2".to_string();
    assert!(!confirm.is_ready());
    confirm.typed = "  node-1  ".to_string();
    assert!(confirm.is_ready(), "les espaces de bordure sont tolérés");
    confirm.typed = "node-1".to_string();
    assert!(confirm.is_ready());
    assert_eq!(confirm.confirm_label(), "Supprimer");
}

#[test]
fn action_porte_la_reference_complete() {
    let reference = ResourceRef {
        group: "apps".to_string(),
        version: "v1".to_string(),
        kind: "Deployment".to_string(),
        plural: "deployments".to_string(),
        namespace: Some("prod".to_string()),
        name: "api".to_string(),
    };
    let action = ConfirmAction::DeleteResource(reference.clone());
    assert_eq!(action, ConfirmAction::DeleteResource(reference));
}

#[test]
fn texte_exige_entoure_d_espaces() {
    let mut confirm = Confirm::new(
        "t".to_string(),
        "b".to_string(),
        ConfirmAction::DrainNode("n".to_string()),
    )
    .require_text("  nœud  ".to_string());
    confirm.typed = "nœud".to_string();
    assert!(confirm.is_ready());
    confirm.typed = "NŒUD".to_string();
    assert!(!confirm.is_ready());
}

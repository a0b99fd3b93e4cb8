use kubewatch_desktop::widgets::log_view::{matches_filter, resolve, severity, LogView, Severity};

#[test]
fn anneau_borne_a_max_lines() {
    let mut view = LogView {
        max_lines: 3,
        ..LogView::new()
    };
    for index in 0..10 {
        view.push(format!("ligne {index}"));
    }
    assert_eq!(view.len(), 3);
    assert_eq!(view.lines.front().map(String::as_str), Some("ligne 7"));
    assert_eq!(view.lines.back().map(String::as_str), Some("ligne 9"));
}

#[test]
fn anneau_de_taille_nulle_ne_conserve_rien() {
    let mut view = LogView {
        max_lines: 0,
        ..LogView::new()
    };
    view.push("perdue".to_string());
    assert!(view.is_empty());
}

#[test]
fn export_restitue_les_lignes_dans_l_ordre() {
    let mut view = LogView::new();
    view.push("une".to_string());
    view.push("deux".to_string());
    view.push("trois".to_string());
    assert_eq!(view.export(), "une\ndeux\ntrois");
    view.clear();
    assert_eq!(view.export(), "");
}

#[test]
fn log_view_filtre_insensible_a_la_casse() {
    assert!(matches_filter("Connexion REFUSÉE", "refus"));
    assert!(matches_filter("HTTP 500 Internal", "internal"));
    assert!(matches_filter("HTTP 500 Internal", "INTERNAL".to_lowercase().as_str()));
    assert!(!matches_filter("tout va bien", "erreur"));
    assert!(matches_filter("peu importe", ""));
}

#[test]
fn indices_filtres_pointent_sur_les_bonnes_lignes() {
    let mut view = LogView::new();
    view.push("démarrage".to_string());
    view.push("ERROR connexion refusée".to_string());
    view.push("prêt".to_string());
    view.filter = "error".to_string();

    let matched = view.matching().expect("un filtre est actif");
    assert_eq!(matched, vec![1]);
    assert_eq!(resolve(Some(&matched), 0), Some(1));
    assert_eq!(resolve(Some(&matched), 1), None);
    assert_eq!(resolve(None, 2), Some(2));
}

#[test]
fn niveaux_reconnus() {
    assert_eq!(severity("E0102 ERROR: boum"), Severity::Error);
    assert_eq!(severity("W0102 warning: attention"), Severity::Warning);
    assert_eq!(severity("I0102 tout va bien"), Severity::Normal);
    let longue = format!("{}error", " ".repeat(400));
    assert_eq!(severity(&longue), Severity::Normal);
}

#[test]
fn anneau_garde_les_dernieres_lignes_dans_l_ordre() {
    let mut view = LogView {
        max_lines: 2,
        ..LogView::new()
    };
    view.push("a".to_string());
    view.push("b".to_string());
    view.push("c".to_string());
    assert_eq!(view.export(), "b\nc");
    assert!(view.len() <= 2);
}

#[test]
fn sans_filtre_aucune_selection() {
    let mut view = LogView::new();
    view.push("x".to_string());
    assert_eq!(view.matching(), None);
    view.filter = "   ".to_string();
    assert_eq!(view.matching(), None);
}

#[test]
fn filtre_en_majuscules_est_replie() {
    let mut view = LogView::new();
    view.push("Alpha".to_string());
    view.push("beta".to_string());
    view.filter = "ALPHA".to_string();
    assert_eq!(view.matching(), Some(vec![0]));
}

#[test]
fn export_redonne_ses_lignes() {
    let mut view = LogView::new();
    for ligne in ["première", "", "troisième ligne"] {
        view.push(ligne.to_string());
    }
    let texte = view.export();
    let lignes: Vec<&str> = texte.split('\n').collect();
    assert_eq!(lignes, vec!["première", "", "troisième ligne"]);
}

use kubewatch_desktop::widgets::yaml_edit::{dedent_line, describe_error, expand_tabs, YamlEditor};

#[test]
fn compte_les_documents_non_vides() {
    let editor = YamlEditor::with_text(
        "apiVersion: v1\nkind: Namespace\nmetadata:\n  name: demo\n---\n\
         apiVersion: v1\nkind: ConfigMap\nmetadata:\n  name: reglages\n"
            .to_string(),
    );
    assert_eq!(editor.validate(), Ok(2));
}

#[test]
fn ignore_les_documents_vides() {
    let editor = YamlEditor::with_text("---\n---\napiVersion: v1\nkind: Pod\n---\n".to_string());
    assert_eq!(editor.validate(), Ok(1));
}

#[test]
fn refuse_un_texte_vide() {
    let editor = YamlEditor::with_text("   \n\n".to_string());
    let erreur = editor.validate().unwrap_err();
    assert!(erreur.contains("vide"), "message inattendu : {erreur}");
}

#[test]
fn signale_une_erreur_de_syntaxe_en_francais() {
    let editor = YamlEditor::with_text("kind: Pod\n  mauvaise: indentation\n".to_string());
    let erreur = editor.validate().unwrap_err();
    assert!(
        erreur.starts_with("YAML invalide"),
        "message inattendu : {erreur}"
    );
}

#[test]
fn compte_les_lignes_avec_saut_final() {
    assert_eq!(YamlEditor::with_text("a".to_string()).line_count(), 1);
    assert_eq!(YamlEditor::with_text("a\n".to_string()).line_count(), 2);
    assert_eq!(YamlEditor::with_text("a\nb\nc".to_string()).line_count(), 3);
    assert_eq!(YamlEditor::new().line_count(), 1);
}

#[test]
fn seulement_des_sections_vides() {
    let editor = YamlEditor::with_text("---\n---\n".to_string());
    assert_eq!(
        editor.validate(),
        Err("Aucun document exploitable : le YAML ne contient que des sections vides.".to_string())
    );
}

#[test]
fn message_d_erreur_avec_position() {
    assert_eq!(
        describe_error(&"oups".to_string(), Some((3, 14))),
        "YAML invalide (ligne 3, colonne 14) : oups"
    );
    assert_eq!(describe_error(&"oups".to_string(), None), "YAML invalide : oups");
}

#[test]
fn tabulations_remplacees_et_curseur_recale() {
    assert_eq!(expand_tabs("a\tb\tc", Some(3)), ("a  b  c".to_string(), Some(4)));
    assert_eq!(expand_tabs("\t", None), ("  ".to_string(), None));
}

#[test]
fn retrait_d_une_indentation() {
    assert_eq!(dedent_line("a\n    b", 6), Some(("a\n  b".to_string(), 4)));
    assert_eq!(dedent_line("a\n\tb", 3), Some(("a\nb".to_string(), 2)));
    assert_eq!(dedent_line("a\nb", 3), None);
    assert_eq!(dedent_line(" x", 0), Some(("x".to_string(), 0)));
}

#[test]
fn editeur_vide_est_blanc() {
    let mut editor = YamlEditor::new();
    assert!(editor.is_blank());
    editor.set_text("  x ".to_string());
    assert!(!editor.is_blank());
}

use kubewatch_desktop::widgets::term::rows::{cell_shades, row_runs, Shade};
use kubewatch_desktop::widgets::term::{
    apply_sgr, key_to_bytes, CellStyle, Key, Modifiers, TermEvent, Terminal, MAX_COLS, MAX_ROWS,
    MIN_COLS, MIN_ROWS, SCROLLBACK,
};

fn terminal() -> Terminal {
    let mut term = Terminal::new();
    term.set_size(20, 5);
    term
}

const CTRL: Modifiers = Modifiers {
    alt: false,
    ctrl: true,
    shift: false,
    mac_cmd: false,
    command: true,
};

const NONE: Modifiers = Modifiers {
    alt: false,
    ctrl: false,
    shift: false,
    mac_cmd: false,
    command: false,
};

#[test]
fn utf8_coupe_entre_deux_trames() {
    let mut term = terminal();
    let texte = "héllo → café";
    let octets = texte.as_bytes();
    for octet in octets {
        term.feed(&[*octet]);
    }
    assert_eq!(term.to_text(), texte);
}

#[test]
fn utf8_coupe_au_milieu_d_un_caractere() {
    let mut term = terminal();
    term.feed(&[b'c', b'a', b'f', 0xC3]);
    assert_eq!(term.to_text(), "caf");
    term.feed(&[0xA9]);
    assert_eq!(term.to_text(), "café");

    let mut term = terminal();
    let emoji = "🚀".as_bytes().to_vec();
    term.feed(&emoji[..1]);
    term.feed(&emoji[1..3]);
    term.feed(&emoji[3..]);
    assert_eq!(term.to_text(), "🚀");
}

#[test]
fn octets_invalides_remplaces_sans_perdre_la_suite() {
    let mut term = terminal();
    term.feed(&[b'a', 0xFF, b'b']);
    assert_eq!(term.to_text(), "a\u{fffd}b");
}

#[test]
fn sgr_couleurs_gras_et_remise_a_zero() {
    let mut style = CellStyle::default();

    apply_sgr(&mut style, "1;31");
    assert!(style.bold);
    assert_eq!(style.fg, Some(1));

    apply_sgr(&mut style, "42");
    assert_eq!(style.bg, Some(2));
    assert_eq!(style.fg, Some(1), "le fond ne touche pas au premier plan");

    apply_sgr(&mut style, "39");
    assert_eq!(style.fg, None);

    apply_sgr(&mut style, "96");
    assert_eq!(style.fg, Some(14), "les couleurs vives commencent à l'index 8");

    apply_sgr(&mut style, "0");
    assert_eq!(style, CellStyle::default());

    style.bold = true;
    apply_sgr(&mut style, "");
    assert_eq!(style, CellStyle::default());

    style.bold = true;
    apply_sgr(&mut style, ";");
    assert_eq!(style, CellStyle::default());

    apply_sgr(&mut style, "38;5;200;1");
    assert!(style.bold, "le gras qui suit doit être appliqué");
    apply_sgr(&mut style, "0;38;2;10;20;30;4");
    assert_eq!(style.fg, None);
}

#[test]
fn traduction_des_touches_en_octets() {
    assert_eq!(key_to_bytes(Key::Enter, NONE), Some(b"\r".to_vec()));
    assert_eq!(key_to_bytes(Key::Backspace, NONE), Some(vec![0x7f]));
    assert_eq!(key_to_bytes(Key::Tab, NONE), Some(b"\t".to_vec()));
    assert_eq!(key_to_bytes(Key::ArrowUp, NONE), Some(vec![0x1b, b'[', b'A']));
    assert_eq!(key_to_bytes(Key::ArrowDown, NONE), Some(vec![0x1b, b'[', b'B']));
    assert_eq!(key_to_bytes(Key::ArrowRight, NONE), Some(vec![0x1b, b'[', b'C']));
    assert_eq!(key_to_bytes(Key::ArrowLeft, NONE), Some(vec![0x1b, b'[', b'D']));

    assert_eq!(key_to_bytes(Key::C, CTRL), Some(vec![0x03]));
    assert_eq!(key_to_bytes(Key::A, CTRL), Some(vec![0x01]));
    assert_eq!(key_to_bytes(Key::D, CTRL), Some(vec![0x04]));
    assert_eq!(key_to_bytes(Key::Z, CTRL), Some(vec![0x1a]));
    assert_eq!(key_to_bytes(Key::Space, CTRL), Some(vec![0x00]));

    assert_eq!(key_to_bytes(Key::A, NONE), None);
    assert_eq!(key_to_bytes(Key::Other, NONE), None);
}

#[test]
fn sequences_ansi_de_base() {
    let mut term = terminal();
    term.feed(b"bonjour\r\nligne deux");
    assert_eq!(term.to_text(), "bonjour\nligne deux");

    let mut term = terminal();
    term.feed(b"abcdef\rXY");
    assert_eq!(term.to_text(), "XYcdef");

    let mut term = terminal();
    term.feed(b"abc\x08Z");
    assert_eq!(term.to_text(), "abZ");

    let mut term = terminal();
    term.feed(b"abcdef\r\x1b[3C\x1b[K");
    assert_eq!(term.to_text(), "abc");

    let mut term = terminal();
    term.feed(b"\x1b[1;1Habc\x1b[1;1HX");
    assert_eq!(term.to_text(), "Xbc");
}

#[test]
fn sequences_inconnues_ignorees_sans_affichage() {
    let mut term = terminal();
    term.feed(b"\x1b[?25l\x1b[?2004h\x1b]0;titre\x07\x1b(Bok");
    assert_eq!(term.to_text(), "ok");

    let mut term = terminal();
    term.feed(b"\x1b]0;titre\x1b\\suite");
    assert_eq!(term.to_text(), "suite");
}

#[test]
fn effacement_d_ecran() {
    let mut term = terminal();
    term.feed(b"une\r\ndeux\r\ntrois");
    term.feed(b"\x1b[2J");
    assert_eq!(term.to_text().trim(), "");
    assert_eq!(term.line_count(), 3);
}

#[test]
fn historique_de_defilement_borne() {
    let mut term = terminal();
    for index in 0..(SCROLLBACK + 50) {
        term.feed(format!("ligne {index}\r\n").as_bytes());
    }
    assert!(
        term.line_count() <= SCROLLBACK,
        "l'historique dépasse la borne : {}",
        term.line_count()
    );
}

#[test]
fn taille_bornee() {
    let mut term = Terminal::new();
    term.set_size(0, 0);
    assert_eq!(term.size(), (MIN_COLS, MIN_ROWS));
    term.set_size(u16::MAX, u16::MAX);
    assert_eq!(term.size(), (MAX_COLS, MAX_ROWS));
}

#[test]
fn repli_en_fin_de_ligne() {
    let mut term = Terminal::new();
    term.set_size(8, 4);
    term.feed(b"0123456789");
    assert_eq!(term.to_text(), "01234567\n89");
}

#[test]
fn deplacement_tres_lointain_sans_debordement() {
    let mut term = terminal();
    term.feed(b"a\x1b[99999999999999999999999B");
    assert!(term.line_count() <= SCROLLBACK);
    term.feed(b"z");
    assert!(term.to_text().ends_with('z'));
}

#[test]
fn effacements_partiels() {
    let mut term = terminal();
    term.feed(b"abcdef\r\x1b[2C\x1b[1K");
    assert_eq!(term.to_text(), "   def");
    let mut term = terminal();
    term.feed(b"abcdef\r\x1b[2K");
    assert_eq!(term.to_text(), "");
    let mut term = terminal();
    term.feed(b"un\r\ndeux\x1b[1;2H\x1b[J");
    assert_eq!(term.to_text(), "u\n");
    assert_eq!(term.line_count(), 2);
}

#[test]
fn tabulation_et_colonne_absolue() {
    let mut term = terminal();
    term.feed(b"a\tb");
    assert_eq!(term.to_text(), "a       b");
    let mut term = terminal();
    term.feed(b"\x1b[5Gx");
    assert_eq!(term.to_text(), "    x");
}

#[test]
fn historique_local_des_commandes() {
    let mut term = Terminal::new();
    term.local_history = true;
    let events = vec![
        TermEvent::Text("ls -l".to_string()),
        TermEvent::Key { key: Key::Enter, pressed: true, modifiers: NONE },
        TermEvent::Text("pwd".to_string()),
        TermEvent::Key { key: Key::Enter, pressed: true, modifiers: NONE },
        TermEvent::Key { key: Key::ArrowUp, pressed: true, modifiers: NONE },
    ];
    let bytes = term.consume_events(&events);
    assert_eq!(bytes, b"ls -l\rpwd\rpwd".to_vec());
    let again = term.consume_events(&vec![TermEvent::Key { key: Key::ArrowUp, pressed: true, modifiers: NONE }]);
    let mut expected = vec![0x7f; 3];
    expected.extend_from_slice(b"ls -l");
    assert_eq!(again, expected);
}

#[test]
fn fleches_transmises_sans_historique_local() {
    let mut term = Terminal::new();
    let bytes = term.consume_events(&vec![
        TermEvent::Key { key: Key::ArrowUp, pressed: true, modifiers: NONE },
        TermEvent::Key { key: Key::ArrowUp, pressed: false, modifiers: NONE },
        TermEvent::Other,
    ]);
    assert_eq!(bytes, vec![0x1b, b'[', b'A']);
}

#[test]
fn effacer_garde_la_taille() {
    let mut term = terminal();
    term.feed(b"texte");
    term.clear();
    assert_eq!(term.line_count(), 0);
    assert_eq!(term.to_text(), "");
    assert_eq!(term.size(), (20, 5));
}

#[test]
fn segments_d_une_ligne_et_curseur() {
    let mut term = terminal();
    term.feed(b"ab\x1b[1;31mcd\x1b[0me");
    let cells = term.line(0).expect("ligne écrite").clone();
    let runs = row_runs(&cells, None);
    let textes: Vec<&str> = runs.iter().map(|r| r.text.as_str()).collect();
    assert_eq!(textes, vec!["ab", "cd", "e"]);
    assert!(runs[1].style.bold);
    assert_eq!(runs[1].style.fg, Some(1));

    // Curseur au milieu : un segment à lui seul.
    let runs = row_runs(&cells, Some(0));
    let textes: Vec<&str> = runs.iter().map(|r| r.text.as_str()).collect();
    assert_eq!(textes, vec!["a", "b", "cd", "e"]);
    assert!(runs[0].cursor);

    // Curseur après la fin : des blancs, du même style que « e », puis la
    // case du curseur.
    let runs = row_runs(&cells, Some(7));
    let textes: Vec<&str> = runs.iter().map(|r| r.text.as_str()).collect();
    assert_eq!(textes, vec!["ab", "cd", "e  ", " "]);
    assert!(runs[3].cursor);
    assert!(row_runs(&Vec::new(), None).is_empty());
}

#[test]
fn couleurs_des_cases() {
    let style = CellStyle { fg: Some(1), bg: None, bold: true, inverse: false };
    assert_eq!(cell_shades(style, false), (Shade::Palette(9), Shade::Background));
    assert_eq!(cell_shades(style, true), (Shade::Background, Shade::Palette(9)));
    let inverse = CellStyle { fg: None, bg: Some(4), bold: false, inverse: true };
    assert_eq!(cell_shades(inverse, false), (Shade::Palette(4), Shade::Foreground));
    assert_eq!(cell_shades(inverse, true), (Shade::Foreground, Shade::Palette(4)));
    let clair = CellStyle { fg: Some(12), bg: None, bold: true, inverse: false };
    assert_eq!(cell_shades(clair, false).0, Shade::Palette(12));
}

#[test]
fn sgr_applique_deux_fois_ne_change_rien() {
    for params in ["1;31", "0", "38;5;200;44", "7;97;49", "", "22;27;39"] {
        let mut une = CellStyle::default();
        apply_sgr(&mut une, "33");
        apply_sgr(&mut une, params);
        let mut deux = une;
        apply_sgr(&mut deux, params);
        assert_eq!(une, deux, "paramètres {params:?}");
        assert!(une.fg.map_or(true, |c| c < 16));
        assert!(une.bg.map_or(true, |c| c < 16));
    }
}

#[test]
fn sortie_en_morceaux_comme_d_un_bloc() {
    let texte = "héllo → café\r\nfin 🚀";
    let octets = texte.as_bytes();
    let mut entier = terminal();
    entier.feed(octets);
    for taille in 1..5 {
        let mut morceaux = terminal();
        for bout in octets.chunks(taille) {
            morceaux.feed(bout);
        }
        assert_eq!(morceaux.to_text(), entier.to_text());
    }
}

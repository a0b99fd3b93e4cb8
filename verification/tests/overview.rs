use kubewatch_desktop::views::overview::format_bytes;
use kubewatch_desktop::views::resources::{default_shell, format_age};

#[test]
fn overview_octets_lisibles() {
    assert_eq!(format_bytes(0), "0 o");
    assert_eq!(format_bytes(-42), "0 o");
    assert_eq!(format_bytes(512), "512 o");
    assert_eq!(format_bytes(1024), "1.0 Kio");
    assert_eq!(format_bytes(3 * 1024 * 1024 * 1024), "3.0 Gio");
}

#[test]
fn age_lisible() {
    assert_eq!(format_age(None), "—");
    assert_eq!(format_age(Some(-5)), "0s");
    assert_eq!(format_age(Some(45)), "45s");
    assert_eq!(format_age(Some(3 * 60 + 5)), "3m05s");
    assert_eq!(format_age(Some(3 * 3600 + 20 * 60)), "3h20m");
    assert_eq!(format_age(Some(12 * 86400 + 4 * 3600)), "12j04h");
}

#[test]
fn age_en_annees() {
    assert_eq!(format_age(Some(400 * 86400)), "1a35j");
    assert_eq!(format_age(Some(59)), "59s");
    assert_eq!(format_age(Some(60)), "1m00s");
}

#[test]
fn octets_aux_arrondis_pairs() {
    for n in [1075i64, 1126, 1177, 5 * 1024 * 1024 * 1024 * 1024 + 3, i64::MAX] {
        let mut value = n as f64;
        let mut unit = 0;
        let units = ["o", "Kio", "Mio", "Gio", "Tio", "Pio"];
        while value >= 1024.0 && unit < units.len() - 1 {
            value /= 1024.0;
            unit += 1;
        }
        assert_eq!(format_bytes(n), format!("{value:.1} {}", units[unit]), "pour {n}");
    }
}

#[test]
fn coquille_par_defaut() {
    assert_eq!(
        default_shell(),
        vec![
            "/bin/sh".to_string(),
            "-c".to_string(),
            "command -v bash >/dev/null 2>&1 && exec bash || exec sh".to_string()
        ]
    );
}

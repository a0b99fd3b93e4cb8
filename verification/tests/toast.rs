use kubewatch_desktop::widgets::toast::{
    Toast, ToastKind, Toasts, DEFAULT_TTL, ERROR_TTL, MAX_VISIBLE,
};

#[test]
fn duree_de_vie_par_nature() {
    assert_eq!(ToastKind::Info.ttl(), DEFAULT_TTL);
    assert_eq!(ToastKind::Success.ttl(), DEFAULT_TTL);
    assert_eq!(ToastKind::Warning.ttl(), DEFAULT_TTL);
    assert_eq!(ToastKind::Error.ttl(), ERROR_TTL);
}

#[test]
fn peremption_et_purge() {
    let mut toasts = Toasts::new();
    let base: u64 = 1_000_000;
    toasts.push(Toast {
        kind: ToastKind::Info,
        message: "vieux".to_string(),
        created: base,
        ttl: 1000,
    });
    toasts.push(Toast {
        kind: ToastKind::Error,
        message: "récent".to_string(),
        created: base,
        ttl: 30_000,
    });
    assert_eq!(toasts.len(), 2);
    assert_eq!(toasts.prune(base + 2000), 1);
    assert_eq!(toasts.items()[0].message, "récent");
}

#[test]
fn pile_bornee() {
    let mut toasts = Toasts::new();
    for i in 0..(MAX_VISIBLE + 4) {
        toasts.info(format!("message {i}"));
    }
    assert_eq!(toasts.len(), MAX_VISIBLE);
    assert_eq!(
        toasts.items()[MAX_VISIBLE - 1].message,
        format!("message {}", MAX_VISIBLE + 3)
    );
}

#[test]
fn restant_et_peremption_exacts() {
    let toast = Toast {
        kind: ToastKind::Warning,
        message: "m".to_string(),
        created: 100,
        ttl: 5000,
    };
    assert_eq!(toast.remaining(100), 5000);
    assert_eq!(toast.remaining(4100), 1000);
    assert_eq!(toast.remaining(9000), 0);
    assert!(!toast.is_expired(5099));
    assert!(toast.is_expired(5100));
}

#[test]
fn nouvelle_notification_prend_la_duree_de_sa_nature() {
    let toast = Toast::new(ToastKind::Error, "panne".to_string());
    assert_eq!(toast.ttl, ERROR_TTL);
    assert_eq!(toast.message, "panne");
    let mut toasts = Toasts::new();
    toasts.error("a".to_string());
    toasts.success("b".to_string());
    toasts.warning("c".to_string());
    assert_eq!(toasts.items()[0].kind, ToastKind::Error);
    assert_eq!(toasts.items()[1].kind, ToastKind::Success);
    assert_eq!(toasts.items()[2].kind, ToastKind::Warning);
    toasts.clear();
    assert!(toasts.is_empty());
}

#[test]
fn fermeture_d_un_bandeau() {
    let mut pile = Toasts::new();
    pile.info("un".to_string());
    pile.success("deux".to_string());
    pile.error("trois".to_string());
    pile.close(1);
    let messages: Vec<&str> = pile.items().iter().map(|t| t.message.as_str()).collect();
    assert_eq!(messages, vec!["un", "trois"]);
    pile.close(5);
    assert_eq!(pile.len(), 2);
}

use semantic_geo::budget::{esaurito_dopo, residuo_dopo, Budget};

#[test]
fn budget_non_esaurito_subito() {
    let b = Budget::new(1_000_000_000);
    assert!(!b.esaurito());
    assert!(b.residuo_ns() > 0);
}

#[test]
fn budget_zero_esaurito_subito() {
    let b = Budget::new(0);
    assert!(b.esaurito());
    assert_eq!(b.residuo_ns(), 0);
}

#[test]
fn budget_ricorda_la_durata() {
    let b = Budget::new(42);
    assert_eq!(b.budget_ns(), 42);
    assert!(b.residuo_ns() <= 42);
}

#[test]
fn residuo_dopo_il_tempo_trascorso() {
    assert_eq!(residuo_dopo(10_000_000, 0), 10_000_000);
    assert_eq!(residuo_dopo(10_000_000, 4_000_000), 6_000_000);
    assert_eq!(residuo_dopo(10_000_000, 10_000_000), 0);
    assert_eq!(residuo_dopo(10_000_000, 20_000_000), 0);
    assert_eq!(residuo_dopo(5, u128::MAX), 0);
}

#[test]
fn esaurito_alla_scadenza() {
    assert!(!esaurito_dopo(10_000_000, 9_999_999));
    assert!(esaurito_dopo(10_000_000, 10_000_000));
    assert!(esaurito_dopo(0, 0));
    // the remaining time is zero exactly when the budget is spent
    for t in [0u128, 1, 9, 10, 11, 1000] {
        assert_eq!(residuo_dopo(10, t) == 0, esaurito_dopo(10, t));
    }
}

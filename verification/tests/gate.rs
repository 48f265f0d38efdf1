use semantic_geo::gate::{procede, punteggio_valido, verdetto, Verdict};

fn b(x: f64) -> u64 {
    x.to_bits()
}

#[test]
fn verdetto_sopra_e_sotto_soglia() {
    assert_eq!(verdetto(false, false, b(0.5), b(0.5)), Verdict::Passa);
    assert_eq!(verdetto(false, false, b(0.75), b(0.5)), Verdict::Passa);
    assert_eq!(verdetto(false, false, b(0.25), b(0.5)), Verdict::Blocca);
}

#[test]
fn verdetto_soglia_zero_tutto_passa() {
    assert_eq!(verdetto(false, false, b(0.0), b(0.0)), Verdict::Passa);
    assert_eq!(verdetto(false, false, b(-0.0), b(0.0)), Verdict::Passa);
    assert_eq!(verdetto(false, false, b(0.25), b(0.0)), Verdict::Passa);
}

#[test]
fn verdetto_budget_scaduto_timeout() {
    assert_eq!(verdetto(true, false, b(0.9), b(0.5)), Verdict::Timeout);
    assert_eq!(verdetto(false, true, b(0.1), b(0.5)), Verdict::Timeout);
    assert_eq!(verdetto(true, true, b(f64::NAN), b(0.5)), Verdict::Timeout);
}

#[test]
fn verdetto_sonda_ritirata_permissiva() {
    assert_eq!(verdetto(false, false, b(f64::NAN), b(0.5)), Verdict::Passa);
    assert_eq!(verdetto(false, false, b(f64::NAN), b(0.0)), Verdict::Passa);
}

#[test]
fn verdetto_soglia_nan_blocca() {
    // a valid score never reaches a NaN threshold
    assert_eq!(verdetto(false, false, b(0.9), b(f64::NAN)), Verdict::Blocca);
}

#[test]
fn punteggio_valido_solo_se_non_nan() {
    assert!(punteggio_valido(b(0.0)));
    assert!(punteggio_valido(b(f64::INFINITY)));
    assert!(!punteggio_valido(b(f64::NAN)));
    assert!(!punteggio_valido(0x7ff8_0000_0000_0001));
}

#[test]
fn procede_salvo_blocco() {
    assert!(procede(Verdict::Passa));
    assert!(procede(Verdict::Timeout));
    assert!(!procede(Verdict::Blocca));
}

#[test]
fn alzare_il_punteggio_non_blocca() {
    let soglia = b(0.5);
    let mut ultimo = Verdict::Blocca;
    for s in [0.0, 0.2, 0.49, 0.5, 0.6, 1.0] {
        let v = verdetto(false, false, b(s), soglia);
        if ultimo == Verdict::Passa {
            assert_eq!(v, Verdict::Passa);
        }
        ultimo = v;
    }
    assert_eq!(ultimo, Verdict::Passa);
}

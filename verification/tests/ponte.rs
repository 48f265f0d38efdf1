use semantic_geo::ponte::{
    finestra_media, proietta_sui_centroidi, verifica_proiezione, Dizionario, ErrorePonte,
    ProiezionePunti, Walk,
};

fn b(x: f32) -> u64 {
    (x as f64).to_bits()
}

fn bits(v: &[f32]) -> Vec<u64> {
    v.iter().map(|&x| b(x)).collect()
}

fn f(x: u64) -> f64 {
    f64::from_bits(x)
}

#[test]
fn walk_coerente_valido() {
    let conf = bits(&[0.9, 0.8, 0.7]);
    let colbert = bits(&[1.0, 0.0, 0.0, 1.0, 0.5, 0.5]);
    let w = Walk { celle: &[0, 1, 2], pos: &[0, 1, 2], conf: &conf, colbert: &colbert, dim: 2 };
    assert!(w.coerente());
}

#[test]
fn walk_disallineato_rilevato() {
    let conf = bits(&[0.9, 0.8, 0.7]);
    let colbert = bits(&[1.0, 0.0, 0.0, 1.0]);
    let w = Walk { celle: &[0, 1, 2], pos: &[0, 1, 2], conf: &conf, colbert: &colbert, dim: 2 };
    assert!(!w.coerente());
}

#[test]
fn walk_vuoto_non_coerente() {
    let w = Walk { celle: &[], pos: &[], conf: &[], colbert: &[], dim: 2 };
    assert!(!w.coerente());
}

#[test]
fn dizionario_coerente() {
    let centroidi = bits(&[1.0, 0.0, 0.0, 1.0, 0.5, 0.5, 1.0, 1.0]);
    let d = Dizionario { centroidi: &centroidi, k: 4, dim: 2 };
    assert!(d.coerente());
}

#[test]
fn dizionario_incoerente() {
    let centroidi = bits(&[1.0, 0.0, 0.0, 1.0]);
    let d = Dizionario { centroidi: &centroidi, k: 4, dim: 2 };
    assert!(!d.coerente());
}

fn centroidi_esempio() -> Vec<u64> {
    bits(&[1.0, 0.0, 0.0, 1.0, 0.5, 0.5, 1.0, 1.0])
}

#[test]
fn centroide_proietta_sul_centroide() {
    let conf = bits(&[0.9, 0.8, 0.7]);
    let colbert = bits(&[1.0, 0.0, 0.0, 1.0, 0.5, 0.5]);
    let w = Walk { celle: &[0, 1, 2], pos: &[0, 1, 2], conf: &conf, colbert: &colbert, dim: 2 };
    let centroidi = centroidi_esempio();
    let d = Dizionario { centroidi: &centroidi, k: 4, dim: 2 };
    let mut out = vec![0u64; 6];
    let n = proietta_sui_centroidi(&w, &d, &mut out).unwrap();
    assert_eq!(n, 6);
    let punti: Vec<f64> = out[..n].iter().map(|&x| f(x)).collect();
    assert!((punti[0] - 1.0).abs() < 1e-9);
    assert!((punti[1] - 0.0).abs() < 1e-9);
    assert!((punti[2] - 0.0).abs() < 1e-9);
    assert!((punti[3] - 1.0).abs() < 1e-9);
    assert!((punti[4] - 0.5).abs() < 1e-9);
    assert!((punti[5] - 0.5).abs() < 1e-9);
}

#[test]
fn buffer_insufficiente_ritiro() {
    let conf = bits(&[0.9, 0.8, 0.7]);
    let colbert = bits(&[1.0, 0.0, 0.0, 1.0, 0.5, 0.5]);
    let w = Walk { celle: &[0, 1, 2], pos: &[0, 1, 2], conf: &conf, colbert: &colbert, dim: 2 };
    let centroidi = centroidi_esempio();
    let d = Dizionario { centroidi: &centroidi, k: 4, dim: 2 };
    let mut out = vec![0u64; 2];
    assert!(proietta_sui_centroidi(&w, &d, &mut out).is_none());
}

#[test]
fn cammino_vuoto_ritiro() {
    let w = Walk { celle: &[], pos: &[], conf: &[], colbert: &[], dim: 2 };
    let centroidi = centroidi_esempio();
    let d = Dizionario { centroidi: &centroidi, k: 4, dim: 2 };
    let mut out = vec![0u64; 6];
    assert!(proietta_sui_centroidi(&w, &d, &mut out).is_none());
}

#[test]
fn cella_fuori_range_ritiro() {
    let conf = bits(&[0.9, 0.8]);
    let colbert = bits(&[1.0, 0.0, 0.0, 1.0]);
    let w = Walk { celle: &[0, 7], pos: &[0, 1], conf: &conf, colbert: &colbert, dim: 2 };
    let centroidi = centroidi_esempio();
    let d = Dizionario { centroidi: &centroidi, k: 4, dim: 2 };
    let mut out = vec![9u64; 4];
    assert!(proietta_sui_centroidi(&w, &d, &mut out).is_none());
    // the steps before the cell outside the dictionary have been written
    assert_eq!(out, vec![b(1.0), b(0.0), 9, 9]);
}

#[test]
fn dim_disallineate_ritiro() {
    let conf = bits(&[0.9, 0.8]);
    let colbert = bits(&[1.0, 0.0, 0.0, 1.0]);
    let w = Walk { celle: &[0, 1], pos: &[0, 1], conf: &conf, colbert: &colbert, dim: 3 };
    let centroidi = centroidi_esempio();
    let d = Dizionario { centroidi: &centroidi, k: 4, dim: 2 };
    let mut out = vec![0u64; 6];
    assert!(proietta_sui_centroidi(&w, &d, &mut out).is_none(), "dim disallineate devono produrre ritiro");
}

#[test]
fn proiezione_lascia_intatta_la_coda_del_buffer() {
    let conf = bits(&[0.9]);
    let colbert = bits(&[1.0, 0.0]);
    let w = Walk { celle: &[3], pos: &[0], conf: &conf, colbert: &colbert, dim: 2 };
    let centroidi = centroidi_esempio();
    let d = Dizionario { centroidi: &centroidi, k: 4, dim: 2 };
    let mut out = vec![7u64; 5];
    assert_eq!(proietta_sui_centroidi(&w, &d, &mut out), Some(2));
    assert_eq!(out, vec![b(1.0), b(1.0), 7, 7, 7]);
}

#[test]
fn verifica_proiezione_per_ogni_strategia() {
    let conf = bits(&[0.9, 0.8, 0.7]);
    let colbert = bits(&[1.0, 0.0, 0.0, 1.0, 0.5, 0.5]);
    let w = Walk { celle: &[0, 1, 2], pos: &[0, 1, 2], conf: &conf, colbert: &colbert, dim: 2 };
    let centroidi = centroidi_esempio();
    let d = Dizionario { centroidi: &centroidi, k: 4, dim: 2 };
    assert!(verifica_proiezione(&w, &d, 6));
    assert!(!verifica_proiezione(&w, &d, 5));
    let d3 = Dizionario { centroidi: &centroidi[..6], k: 3, dim: 2 };
    assert!(verifica_proiezione(&w, &d3, 6));
    let d2 = Dizionario { centroidi: &centroidi[..4], k: 2, dim: 2 };
    assert!(!verifica_proiezione(&w, &d2, 6));
}

#[test]
fn finestra_media_ai_bordi() {
    assert_eq!(finestra_media(0, 3), (0, 1));
    assert_eq!(finestra_media(1, 3), (0, 2));
    assert_eq!(finestra_media(2, 3), (1, 2));
    assert_eq!(finestra_media(0, 1), (0, 0));
}

#[test]
fn proiezione_predefinita_e_centroide() {
    assert_eq!(ProiezionePunti::default(), ProiezionePunti::Centroide);
    assert_ne!(ProiezionePunti::default(), ProiezionePunti::MediaPesata);
}

#[test]
fn errori_del_ponte_distinti() {
    let e = ErrorePonte::BufferInadeguato { richiesti: 6, disponibili: 2 };
    assert_ne!(e, ErrorePonte::DatiInconsistenti("dim"));
    assert_eq!(e, ErrorePonte::BufferInadeguato { richiesti: 6, disponibili: 2 });
}

#[test]
fn buffer_intatto_se_non_ammissibile() {
    let w = Walk { celle: &[], pos: &[], conf: &[], colbert: &[], dim: 2 };
    let centroidi = centroidi_esempio();
    let d = Dizionario { centroidi: &centroidi, k: 4, dim: 2 };
    let mut out = vec![9u64; 4];
    assert!(proietta_sui_centroidi(&w, &d, &mut out).is_none());
    assert_eq!(out, vec![9u64; 4]);
}

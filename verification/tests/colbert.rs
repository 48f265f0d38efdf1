use semantic_geo::colbert::{dimensione_comune, NativeMaxSim};

fn righe(v: &[&[f64]]) -> Vec<Vec<u64>> {
    v.iter().map(|r| r.iter().map(|x| x.to_bits()).collect()).collect()
}

#[test]
fn matrici_confrontabili() {
    let q = righe(&[&[1.0, 0.0], &[0.0, 1.0]]);
    let d = righe(&[&[0.0, 1.0]]);
    assert_eq!(dimensione_comune(&q, &d), Some(2));
}

#[test]
fn matrice_vuota_si_ritira() {
    let q = righe(&[&[1.0, 0.0]]);
    let vuoto: Vec<Vec<u64>> = vec![];
    assert_eq!(dimensione_comune(&q, &vuoto), None);
    assert_eq!(dimensione_comune(&vuoto, &q), None);
}

#[test]
fn dimensione_disallineata_si_ritira() {
    let q = righe(&[&[1.0, 0.0]]);
    let d = righe(&[&[1.0, 0.0, 0.0]]);
    assert_eq!(dimensione_comune(&q, &d), None);
    let q2 = righe(&[&[1.0, 0.0], &[1.0]]);
    assert_eq!(dimensione_comune(&q2, &q), None);
}

#[test]
fn dimensione_nulla_si_ritira() {
    let q: Vec<Vec<u64>> = vec![vec![]];
    assert_eq!(dimensione_comune(&q, &q), None);
}

#[test]
fn scorer_nativo_costruibile() {
    let s = NativeMaxSim::default();
    let t = s;
    assert_eq!(format!("{:?}", t), "NativeMaxSim");
}

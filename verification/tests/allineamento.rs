use semantic_geo::allineamento::{
    allineare_dopo_verdetto, verifica_righe, ERR_DIMENSIONI_DIVERSE, ERR_RIGA_A, ERR_RIGA_B,
    banda, cammino_di_allineamento, verifica_allineamento, verifica_allineamento_guidato,
    verifica_coseno, KinematicAligner, ERR_COSENO_DIMENSIONI, ERR_COSENO_NAN, ERR_COSENO_VUOTI,
    ERR_DIMENSIONE_NULLA, ERR_GUIDA_DISALLINEATA, ERR_TRAIETTORIA_VUOTA,
};
use semantic_geo::gate::Verdict;
use semantic_geo::ordinato::OrderedSparseSequence;

fn b(x: f64) -> u64 {
    x.to_bits()
}

fn sparse_identico(n: usize) -> OrderedSparseSequence {
    OrderedSparseSequence::from_frames(
        &(0..n)
            .map(|_| vec![(1u32, (0.5f32 as f64).to_bits()), (2u32, (0.3f32 as f64).to_bits())])
            .collect::<Vec<_>>(),
    )
    .unwrap()
}

fn sparse_disgiunto(n: usize) -> OrderedSparseSequence {
    OrderedSparseSequence::from_frames(
        &(0..n)
            .map(|_| {
                vec![(100_000u32, (0.5f32 as f64).to_bits()), (4_000_000u32, (0.3f32 as f64).to_bits())]
            })
            .collect::<Vec<_>>(),
    )
    .unwrap()
}

const SOGLIA_DISCRIMINANTE: u32 = 90;

/// A cost matrix of `n + 1` rows of `m + 1` cells, infinite but at the origin.
fn matrice(n: usize, m: usize) -> Vec<Vec<u64>> {
    let mut c = vec![vec![b(f64::INFINITY); m + 1]; n + 1];
    c[0][0] = b(0.0);
    c
}

fn valido(p: &[(usize, usize)], n: usize, m: usize) -> bool {
    p.first() == Some(&(0, 0))
        && p.last() == Some(&(n - 1, m - 1))
        && p.windows(2).all(|w| {
            let (a, c) = (w[0], w[1]);
            (c.0 == a.0 + 1 && c.1 == a.1)
                || (c.0 == a.0 && c.1 == a.1 + 1)
                || (c.0 == a.0 + 1 && c.1 == a.1 + 1)
        })
}

#[test]
fn test_strato1_pruning_ritiro_geometrico() {
    let sa = sparse_identico(4);
    let sb = sparse_disgiunto(4);
    let res = verifica_allineamento_guidato(4, 4, 4, &sa, &sb, SOGLIA_DISCRIMINANTE, 1, 3).unwrap();
    assert!(res.is_none());
}

#[test]
fn test_disallineamento_dimensione_sparse_dense() {
    let sa = sparse_identico(4);
    let sb = sparse_identico(3);
    let res = verifica_allineamento_guidato(4, 4, 4, &sa, &sb, 4, 1, 3);
    assert!(res.is_err());
    assert_eq!(res, Err(ERR_GUIDA_DISALLINEATA));
}

#[test]
fn guardiano_passa_con_firme_identiche() {
    let sa = sparse_identico(4);
    let sb = sparse_identico(4);
    let res = verifica_allineamento_guidato(4, 4, 4, &sa, &sb, SOGLIA_DISCRIMINANTE, 1, 3);
    assert_eq!(res, Ok(Some((1, 3))));
}

#[test]
fn guardiano_soglia_zero_non_ritira() {
    let sa = sparse_identico(4);
    let sb = sparse_disgiunto(4);
    assert_eq!(verifica_allineamento_guidato(4, 4, 4, &sa, &sb, 0, 1, 3), Ok(Some((1, 3))));
}

#[test]
fn limiti_di_banda_invertiti_riordinati() {
    let sa = sparse_identico(4);
    let sb = sparse_identico(4);
    assert_eq!(verifica_allineamento_guidato(4, 4, 4, &sa, &sb, 0, 5, 1), Ok(Some((1, 5))));
}

#[test]
fn controlli_in_ordine() {
    let sa = sparse_identico(4);
    let sb = sparse_identico(3);
    // emptiness first, then the guides, then the dimension
    assert_eq!(verifica_allineamento_guidato(0, 3, 0, &sa, &sb, 0, 1, 3), Err(ERR_TRAIETTORIA_VUOTA));
    assert_eq!(verifica_allineamento_guidato(4, 4, 0, &sa, &sb, 0, 1, 3), Err(ERR_GUIDA_DISALLINEATA));
    assert_eq!(verifica_allineamento_guidato(4, 3, 0, &sa, &sb, 0, 1, 3), Err(ERR_DIMENSIONE_NULLA));
}

#[test]
fn sequenza_vuota_errore() {
    assert!(verifica_allineamento(0, 1, 2).is_err());
    assert_eq!(verifica_allineamento(0, 1, 2), Err(ERR_TRAIETTORIA_VUOTA));
    assert_eq!(verifica_allineamento(1, 1, 0), Err(ERR_DIMENSIONE_NULLA));
    assert_eq!(verifica_allineamento(3, 2, 2), Ok(()));
}

#[test]
fn disallineamento_dimensionale_errore() {
    let a = vec![b(1.0), b(0.0)];
    let c = vec![b(1.0), b(0.0), b(0.0)];
    assert!(verifica_coseno(&a, &c).is_err());
}

#[test]
fn coseno_errori_distinti() {
    assert_eq!(verifica_coseno(&[b(1.0)], &[]), Err(ERR_COSENO_DIMENSIONI));
    assert_eq!(verifica_coseno(&[], &[]), Err(ERR_COSENO_VUOTI));
    assert_eq!(verifica_coseno(&[b(1.0), b(f64::NAN)], &[b(1.0), b(0.0)]), Err(ERR_COSENO_NAN));
    assert_eq!(verifica_coseno(&[b(1.0), b(0.0)], &[b(f64::NAN), b(0.0)]), Err(ERR_COSENO_NAN));
    assert_eq!(verifica_coseno(&[b(f64::INFINITY)], &[b(0.0)]), Ok(()));
}

#[test]
fn banda_di_sakoe_chiba() {
    assert_eq!(banda(1, 3, 4), (1, 4));
    assert_eq!(banda(5, 1, 8), (4, 6));
    assert_eq!(banda(5, usize::MAX, 8), (1, 8));
    // a band too narrow for a long first trajectory leaves the last row empty
    let (inizio, fine) = banda(10, 1, 2);
    assert!(inizio > fine);
    let k = KinematicAligner::new(1);
    assert_eq!(k.finestra(10, 2), (9, 2));
    assert_eq!(k.alpha, b(0.0));
    let k = KinematicAligner::with_alpha(3, b(1.0));
    assert_eq!((k.window_size, k.alpha), (3, b(1.0)));
}

#[test]
fn cammino_diagonale_su_costi_nulli() {
    let mut c = matrice(3, 3);
    for i in 1..=3 {
        for j in 1..=3 {
            c[i][j] = if i == j { b(0.0) } else { b(1.0) };
        }
    }
    let p = cammino_di_allineamento(&c, 3, 3);
    assert_eq!(p, vec![(0, 0), (1, 1), (2, 2)]);
}

#[test]
fn cammino_lunghezze_diverse() {
    // three points against two: the cheapest path repeats the first point
    let mut c = matrice(3, 2);
    c[1][1] = b(0.0);
    c[1][2] = b(1.0);
    c[2][1] = b(0.0);
    c[2][2] = b(1.0);
    c[3][1] = b(1.0);
    c[3][2] = b(0.0);
    let p = cammino_di_allineamento(&c, 3, 2);
    assert_eq!(p, vec![(0, 0), (1, 0), (2, 1)]);
    assert!(valido(&p, 3, 2));
}

#[test]
fn cammino_su_un_solo_punto() {
    let c = matrice(1, 1);
    assert_eq!(cammino_di_allineamento(&c, 1, 1), vec![(0, 0)]);
}

#[test]
fn cammino_lungo_i_bordi_e_valido_anche_con_costi_infiniti() {
    let c = matrice(4, 1);
    let p = cammino_di_allineamento(&c, 4, 1);
    assert_eq!(p, vec![(0, 0), (1, 0), (2, 0), (3, 0)]);
    let c = matrice(2, 5);
    let p = cammino_di_allineamento(&c, 2, 5);
    assert!(valido(&p, 2, 5));
}

#[test]
fn cammino_preferisce_la_diagonale_a_parita() {
    let mut c = matrice(2, 2);
    c[1][1] = b(0.5);
    c[1][2] = b(0.5);
    c[2][1] = b(0.5);
    c[2][2] = b(0.5);
    assert_eq!(cammino_di_allineamento(&c, 2, 2), vec![(0, 0), (1, 1)]);
}

#[test]
fn verifica_righe_nell_ordine_di_visita() {
    let ok = (2usize, false);
    // all fine
    assert_eq!(verifica_righe(2, &[ok, ok], &[ok, ok], &[3, 3]), Ok(()));
    // a bad row of the first trajectory
    assert_eq!(verifica_righe(2, &[ok, (3, false)], &[ok, ok], &[3, 3]), Err(ERR_RIGA_A));
    // a NaN met on row 1 comes before a bad row 2 of the first trajectory
    assert_eq!(verifica_righe(2, &[(2, true), (3, false)], &[ok, ok], &[3, 3]), Err(ERR_COSENO_NAN));
    // a bad point of the second trajectory outside every band is never seen
    assert_eq!(verifica_righe(2, &[ok], &[ok, ok, (5, false)], &[1]), Ok(()));
    assert_eq!(verifica_righe(2, &[ok], &[ok, (5, false)], &[1]), Err(ERR_RIGA_B));
    // an empty band checks nothing of the row beyond its dimension
    assert_eq!(verifica_righe(2, &[ok, ok, (2, true)], &[ok], &[0, 0, 0]), Ok(()));
}

#[test]
fn allineamento_dopo_il_verdetto() {
    assert_eq!(allineare_dopo_verdetto(4, 3, Verdict::Passa), Err(ERR_DIMENSIONI_DIVERSE));
    assert_eq!(allineare_dopo_verdetto(4, 4, Verdict::Passa), Ok(true));
    assert_eq!(allineare_dopo_verdetto(4, 4, Verdict::Timeout), Ok(true));
    assert_eq!(allineare_dopo_verdetto(4, 4, Verdict::Blocca), Ok(false));
}

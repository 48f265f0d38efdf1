use semantic_geo::ordinato::{
    OrderedSparseSequence, TokenId, ERR_PESO_NON_FINITO, ERR_POSIZIONE_VUOTA, ERR_SEQUENZA_VUOTA,
};

fn b(x: f32) -> u64 {
    (x as f64).to_bits()
}

fn frames(v: Vec<Vec<(u32, f32)>>) -> Vec<Vec<(TokenId, u64)>> {
    v.into_iter()
        .map(|f| f.into_iter().map(|(t, w)| (t, b(w))).collect())
        .collect()
}

fn pesi(v: &[f32]) -> Vec<u64> {
    v.iter().map(|&w| b(w)).collect()
}

/// The local Jaccard coefficient at position `i`, from the shared and total
/// emitted tokens (1.0 for two empty frames, 0.0 when nothing is emitted).
fn jaccard(a: &OrderedSparseSequence, other: &OrderedSparseSequence, i: usize) -> f32 {
    match a.concordanza_posizionale(other, i) {
        None => 1.0,
        Some((_, 0)) => 0.0,
        Some((inter, union)) => inter as f32 / union as f32,
    }
}

#[test]
fn test_costruzione_e_slice() {
    let s = OrderedSparseSequence::from_frames(&frames(vec![
        vec![(1, 0.5), (2, 0.3)],
        vec![(3, 0.9)],
        vec![(1, 0.1), (4, 0.7)],
    ]))
    .unwrap();

    assert_eq!(s.num_positions(), 3);
    assert_eq!(s.tokens_at(0), &[1, 2]);
    assert_eq!(s.weights_at(0), pesi(&[0.5, 0.3]).as_slice());
    assert_eq!(s.tokens_at(1), &[3]);
    assert_eq!(s.tokens_at(2), &[1, 4]);
    assert_eq!(s.offsets, vec![0, 2, 3, 5]);
    assert_eq!(s.tokens.len(), 5);
    assert_eq!(s.weights.len(), 5);
}

#[test]
fn test_ordina_frame_multi_token_in_ingresso() {
    let s = OrderedSparseSequence::from_frames(&frames(vec![
        vec![(5, 0.1), (2, 0.4), (9, 0.2)],
        vec![(1, 0.3)],
    ]))
    .unwrap();
    assert_eq!(s.tokens_at(0), &[2, 5, 9]);
    assert_eq!(s.weights_at(0), pesi(&[0.4, 0.1, 0.2]).as_slice());
    assert_eq!(s.offsets, vec![0, 3, 4]);
}

#[test]
fn test_positional_jaccard_con_frame_ordinati_da_from_frames() {
    let a = OrderedSparseSequence::from_frames(&frames(vec![vec![(2, 0.3), (1, 0.5), (3, 0.2)]]))
        .unwrap();
    let b = OrderedSparseSequence::from_frames(&frames(vec![vec![(3, 0.2), (1, 0.5), (2, 0.3)]]))
        .unwrap();
    assert!((jaccard(&a, &b, 0) - 1.0).abs() < 1e-6);
}

#[test]
fn test_rifiuta_sequenza_vuota() {
    assert!(OrderedSparseSequence::from_frames(&vec![]).is_err());
}

#[test]
fn test_rifiuta_posizione_vuota() {
    let r = OrderedSparseSequence::from_frames(&frames(vec![vec![(1, 0.5)], vec![]]));
    assert!(r.is_err());
}

#[test]
fn test_rifiuta_peso_non_finito() {
    let r = OrderedSparseSequence::from_frames(&frames(vec![vec![(1, f32::NAN)]]));
    assert!(r.is_err());
    let r = OrderedSparseSequence::from_frames(&frames(vec![vec![(1, f32::INFINITY)]]));
    assert!(r.is_err());
}

#[test]
fn test_global_overlap_identiche_massimo() {
    let a = OrderedSparseSequence::from_frames(&frames(vec![
        vec![(1, 0.5), (2, 0.3)],
        vec![(3, 0.9)],
    ]))
    .unwrap();
    let b = OrderedSparseSequence::from_frames(&frames(vec![
        vec![(1, 0.5), (2, 0.3)],
        vec![(3, 0.9)],
    ]))
    .unwrap();
    let overlap = a.global_overlap(&b);
    assert_eq!(overlap, a.global_signature[0].count_ones() + a.global_signature[1].count_ones());
}

#[test]
fn test_global_overlap_disgiunte_zero() {
    let a = OrderedSparseSequence::from_frames(&frames(vec![vec![(1, 0.5)]])).unwrap();
    let b = OrderedSparseSequence::from_frames(&frames(vec![vec![(2, 0.5)]])).unwrap();
    let o = a.global_overlap(&b);
    assert!(o <= 128);
}

#[test]
fn test_positional_jaccard_identico() {
    let a = OrderedSparseSequence::from_frames(&frames(vec![vec![(1, 0.5), (2, 0.3)]])).unwrap();
    let b = OrderedSparseSequence::from_frames(&frames(vec![vec![(1, 0.5), (2, 0.3)]])).unwrap();
    assert!((jaccard(&a, &b, 0) - 1.0).abs() < 1e-6);
}

#[test]
fn test_positional_jaccard_disgiunto() {
    let a = OrderedSparseSequence::from_frames(&frames(vec![vec![(1, 0.5), (2, 0.3)]])).unwrap();
    let b = OrderedSparseSequence::from_frames(&frames(vec![vec![(3, 0.5), (4, 0.3)]])).unwrap();
    assert!((jaccard(&a, &b, 0)).abs() < 1e-6);
}

#[test]
fn test_positional_jaccard_parziale() {
    let a = OrderedSparseSequence::from_frames(&frames(vec![vec![(1, 0.5), (2, 0.3)]])).unwrap();
    let b = OrderedSparseSequence::from_frames(&frames(vec![vec![(1, 0.5), (3, 0.3)]])).unwrap();
    assert!((jaccard(&a, &b, 0) - 1.0 / 3.0).abs() < 1e-6);
}

#[test]
fn test_soppressi_non_contribuiscono_alla_firma() {
    let a_soppr =
        OrderedSparseSequence::from_frames(&frames(vec![vec![(1, -0.5), (2, 0.3)]])).unwrap();
    let b_soppr =
        OrderedSparseSequence::from_frames(&frames(vec![vec![(1, -0.5), (3, 0.7)]])).unwrap();
    let a_senza = OrderedSparseSequence::from_frames(&frames(vec![vec![(2, 0.3)]])).unwrap();
    let b_senza = OrderedSparseSequence::from_frames(&frames(vec![vec![(3, 0.7)]])).unwrap();

    assert_eq!(
        a_soppr.global_overlap(&b_soppr),
        a_senza.global_overlap(&b_senza),
        "il soppresso condiviso non deve contribuire alla firma del pruning"
    );
    assert_eq!(a_soppr.tokens_at(0), &[1, 2]);
    assert_eq!(a_soppr.weights_at(0), pesi(&[-0.5, 0.3]).as_slice());
}

#[test]
fn test_soppresso_identico_emesso_non_collide() {
    let a = OrderedSparseSequence::from_frames(&frames(vec![vec![(7, -0.2)]])).unwrap();
    let b = OrderedSparseSequence::from_frames(&frames(vec![vec![(7, 0.9)]])).unwrap();

    assert_eq!(a.global_overlap(&b), 0);
    let sig_a = a.global_signature[0].count_ones() + a.global_signature[1].count_ones();
    assert_eq!(sig_a, 0);
}

#[test]
fn test_soppresso_condiviso_non_conta_come_concordanza() {
    let a = OrderedSparseSequence::from_frames(&frames(vec![vec![(1, -0.5), (2, 0.3)]])).unwrap();
    let b = OrderedSparseSequence::from_frames(&frames(vec![vec![(1, -0.5), (2, 0.3)]])).unwrap();
    assert!((jaccard(&a, &b, 0) - 1.0).abs() < 1e-6);
}

#[test]
fn test_soppresso_condiviso_con_emessi_diversi() {
    let a = OrderedSparseSequence::from_frames(&frames(vec![vec![(1, -0.5), (2, 0.3)]])).unwrap();
    let b = OrderedSparseSequence::from_frames(&frames(vec![vec![(1, -0.5), (3, 0.7)]])).unwrap();
    assert!((jaccard(&a, &b, 0)).abs() < 1e-6);
}

#[test]
fn test_frame_solo_soppressi_jaccard_zero() {
    let a = OrderedSparseSequence::from_frames(&frames(vec![vec![(1, -0.5), (2, -0.3)]])).unwrap();
    let b = OrderedSparseSequence::from_frames(&frames(vec![vec![(1, -0.5), (2, -0.3)]])).unwrap();
    assert!((jaccard(&a, &b, 0)).abs() < 1e-6);
}

#[test]
fn test_soppresso_vs_emesso_stesso_token_non_conta() {
    let a = OrderedSparseSequence::from_frames(&frames(vec![vec![(7, -0.2)]])).unwrap();
    let b = OrderedSparseSequence::from_frames(&frames(vec![vec![(7, 0.9)]])).unwrap();
    assert!((jaccard(&a, &b, 0)).abs() < 1e-6);
}

#[test]
fn from_frames_distingue_gli_errori() {
    assert_eq!(OrderedSparseSequence::from_frames(&vec![]), Err(ERR_SEQUENZA_VUOTA));
    assert_eq!(
        OrderedSparseSequence::from_frames(&frames(vec![vec![(1, 0.5)], vec![]])),
        Err(ERR_POSIZIONE_VUOTA)
    );
    assert_eq!(
        OrderedSparseSequence::from_frames(&frames(vec![vec![(1, 0.5)], vec![(2, f32::NEG_INFINITY)]])),
        Err(ERR_PESO_NON_FINITO)
    );
    // the first defect decides: an empty position before a bad weight
    assert_eq!(
        OrderedSparseSequence::from_frames(&frames(vec![vec![], vec![(2, f32::NAN)]])),
        Err(ERR_POSIZIONE_VUOTA)
    );
}

#[test]
fn concordanza_conta_condivisi_e_unione_degli_emessi() {
    let a = OrderedSparseSequence::from_frames(&frames(vec![vec![(1, 0.5), (2, 0.3), (4, -0.1)]]))
        .unwrap();
    let b = OrderedSparseSequence::from_frames(&frames(vec![vec![(2, 0.5), (3, 0.3), (4, 0.2)]]))
        .unwrap();
    // emitted: a {1, 2}, b {2, 3, 4}; shared {2}
    assert_eq!(a.concordanza_posizionale(&b, 0), Some((1, 4)));
    assert_eq!(b.concordanza_posizionale(&a, 0), Some((1, 4)));
}

#[test]
fn sovrapposizione_simmetrica() {
    let a = OrderedSparseSequence::from_frames(&frames(vec![vec![(10, 0.5)], vec![(20, 0.3)]]))
        .unwrap();
    let b = OrderedSparseSequence::from_frames(&frames(vec![vec![(20, 0.5), (30, 0.1)]])).unwrap();
    assert_eq!(a.global_overlap(&b), b.global_overlap(&a));
}

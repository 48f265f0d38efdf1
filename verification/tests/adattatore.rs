use semantic_geo::adattatore::{
    colbert_json_to_raw, walk_json_to_raw, AdapterError, ColbertResultJson, ServerResponse,
    WalkResultJson,
};
use semantic_geo::cammino::{colbert_to_trajectory, verifica_coerenza_posizionale, walk_to_sequence};
use semantic_geo::ordinato::TokenId;

fn b(x: f32) -> u64 {
    (x as f64).to_bits()
}

fn colbert_json(n_tokens: usize, dim: usize) -> ColbertResultJson {
    ColbertResultJson {
        embeddings: (0..n_tokens)
            .map(|i| {
                let mut v = vec![0.0f64.to_bits(); dim];
                v[i % dim] = 1.0f64.to_bits();
                v
            })
            .collect(),
        n_tokens,
        dimension: dim,
        tokens: Some((0..n_tokens).map(|i| format!("tok_{i}")).collect()),
    }
}

fn walk_json(t: usize) -> WalkResultJson {
    WalkResultJson {
        count: t,
        ids: (0..t).map(|i| (i + 4) as TokenId).collect(),
        w: (0..t).map(|i| b(0.1 + i as f32)).collect(),
        pos: (0..t).map(|i| i as u32).collect(),
        st: vec![0; t],
    }
}

#[test]
fn colbert_json_ben_formato_costruisce_raw() {
    let resp = ServerResponse { results: vec![colbert_json(4, 1024)] };
    let raw = colbert_json_to_raw(&resp, "fatto_test").unwrap();
    assert_eq!(raw.sequence_id, "fatto_test");
    assert_eq!(raw.tokens.len(), 4);
    assert_eq!(raw.embeddings.len(), 4);
    assert_eq!(raw.embeddings[3], resp.results[0].embeddings[3]);
}

#[test]
fn colbert_json_risultato_assente_rifiutato() {
    let resp: ServerResponse<ColbertResultJson> = ServerResponse { results: vec![] };
    assert_eq!(colbert_json_to_raw(&resp, "fatto_test"), Err(AdapterError::RisultatoAssente));
}

#[test]
fn colbert_json_conteggio_token_incoerente_rifiutato() {
    let mut result = colbert_json(4, 1024);
    result.tokens = Some(result.tokens.unwrap().into_iter().take(3).collect());
    let resp = ServerResponse { results: vec![result] };
    assert_eq!(
        colbert_json_to_raw(&resp, "fatto_test"),
        Err(AdapterError::ConteggioTokenIncoerente)
    );
}

#[test]
fn colbert_json_conteggio_multivector_incoerente_rifiutato() {
    let mut result = colbert_json(4, 1024);
    result.embeddings.pop();
    result.tokens = None;
    let resp = ServerResponse { results: vec![result] };
    assert_eq!(
        colbert_json_to_raw(&resp, "fatto_test"),
        Err(AdapterError::ConteggioTokenIncoerente)
    );
}

#[test]
fn colbert_json_senza_tokens_deriva_placeholder() {
    let result = ColbertResultJson {
        embeddings: vec![vec![0.1f64.to_bits(); 1024]; 4],
        n_tokens: 4,
        dimension: 1024,
        tokens: None,
    };
    let resp = ServerResponse { results: vec![result] };
    let raw = colbert_json_to_raw(&resp, "fatto_test").unwrap();
    assert_eq!(raw.tokens.len(), 4);
    assert_eq!(raw.embeddings.len(), 4);
    assert!(raw.tokens.iter().all(|t| t.is_empty()));
}

#[test]
fn walk_json_ben_formato_costruisce_raw() {
    let resp = ServerResponse { results: vec![walk_json(4)] };
    let raw = walk_json_to_raw(&resp, "fatto_test").unwrap();
    assert_eq!(raw.sequence_id, "fatto_test");
    assert_eq!(raw.ids.len(), 4);
    assert_eq!(raw.w.len(), 4);
    assert_eq!(raw.pos.len(), 4);
    assert_eq!(raw.st.len(), 4);
    assert_eq!(raw.pos[3], 3);
    assert_eq!(raw.st[2], 0);
}

#[test]
fn walk_json_risultato_assente_rifiutato() {
    let resp: ServerResponse<WalkResultJson> = ServerResponse { results: vec![] };
    assert_eq!(walk_json_to_raw(&resp, "fatto_test"), Err(AdapterError::RisultatoAssente));
}

#[test]
fn walk_json_conteggio_incoerente_rifiutato() {
    let mut result = walk_json(4);
    result.ids.pop();
    let resp = ServerResponse { results: vec![result] };
    assert_eq!(walk_json_to_raw(&resp, "fatto_test"), Err(AdapterError::ConteggioIncoerente));
}

#[test]
fn adapter_poi_parse_anello_completo() {
    let colbert_resp = ServerResponse { results: vec![colbert_json(3, 1024)] };
    let walk_resp = ServerResponse { results: vec![walk_json(3)] };

    let raw_colbert = colbert_json_to_raw(&colbert_resp, "fatto_test").unwrap();
    let raw_walk = walk_json_to_raw(&walk_resp, "fatto_test").unwrap();

    verifica_coerenza_posizionale(&raw_walk, raw_colbert.embeddings.len()).unwrap();

    let traj = colbert_to_trajectory(&raw_colbert).unwrap();
    let seq = walk_to_sequence(&raw_walk).unwrap();
    assert_eq!(traj.len(), 3);
    assert_eq!(seq.num_positions(), 3);
}

#[test]
fn solo_il_primo_risultato_conta() {
    let resp = ServerResponse { results: vec![walk_json(2), walk_json(5)] };
    let raw = walk_json_to_raw(&resp, "x").unwrap();
    assert_eq!(raw.ids, vec![4, 5]);
    assert_eq!(raw.w, vec![b(0.1), b(1.1)]);
}

#[test]
fn descrizioni_adattatore_distinte() {
    let a = AdapterError::RisultatoAssente.descrizione();
    let c = AdapterError::ConteggioIncoerente.descrizione();
    let t = AdapterError::ConteggioTokenIncoerente.descrizione();
    assert!(a != c && c != t && a != t);
}

use semantic_geo::combinatore::{satura01, NormalizedAxes};
use semantic_geo::costruzione::{
    archi_da_classifiche, assembla_grafo, indici_fatti_unici, primi_k, soglia_effettiva, Candidato,
    Classifica, Valutato,
};
use semantic_geo::grafo::{Edge, Graph, GraphConfig, NodeId};
use semantic_geo::metriche::{archi_di, clustering_coppie, e_orfano, grado, gradi, orfani};

fn b(x: f64) -> u64 {
    x.to_bits()
}

fn arco(a: u64, c: u64, s: f64) -> Edge {
    Edge { from: NodeId(a), to: NodeId(c), score: b(s), dense: b(s), sparse: b(s), colbert: b(s) }
}

fn grafo_con(nodi: Vec<u64>, archi: &[(u64, u64, f64)]) -> Graph {
    let mut g = Graph::new(GraphConfig::default());
    g.nodi = nodi.into_iter().map(NodeId).collect();
    g.archi = archi.iter().map(|&(a, c, s)| arco(a, c, s)).collect();
    g
}

fn grafo_test() -> Graph {
    //  1 — 2 — 3
    //  |       |
    //  4 — 5   6
    grafo_con(
        (1..=6).collect(),
        &[(1, 2, 0.9), (2, 3, 0.8), (1, 4, 0.7), (4, 5, 0.6), (3, 6, 0.5)],
    )
}

/// The clustering coefficient from its two counts.
fn clustering(g: &Graph, id: NodeId) -> Option<f64> {
    clustering_coppie(g, id).map(|(legate, tutte)| legate as f64 / tutte as f64)
}

fn candidato(altro: u64, score: f64) -> Candidato {
    Candidato { altro: NodeId(altro), score: b(score), dense: b(score), sparse: b(score), colbert: b(score) }
}

/// The ranked candidates of a fact, all above a zero threshold.
fn classifica(fatto: u64, vicini: &[u64]) -> Classifica {
    Classifica {
        fatto: NodeId(fatto),
        soglia_effettiva: b(0.0),
        candidati: vicini.iter().enumerate().map(|(i, &v)| candidato(v, 0.9 - 0.1 * i as f64)).collect(),
    }
}

#[test]
fn grafo_vuoto() {
    let g = Graph::new(GraphConfig::default());
    assert_eq!(g.n_nodi(), 0);
    assert_eq!(g.n_archi(), 0);
}

#[test]
fn arco_simmetrico() {
    let g = grafo_con(vec![1, 2], &[(1, 2, 0.7)]);
    assert!(g.ha_arco(NodeId(1), NodeId(2)));
    assert!(g.ha_arco(NodeId(2), NodeId(1)));
    assert!(!g.ha_arco(NodeId(1), NodeId(3)));
}

#[test]
fn gradi_ok() {
    let g = grafo_test();
    assert_eq!(grado(&g, NodeId(1)), 2);
    assert_eq!(grado(&g, NodeId(2)), 2);
    assert_eq!(grado(&g, NodeId(6)), 1);
}

#[test]
fn nessun_orfano_nel_grafo_connesso() {
    let g = grafo_test();
    assert!(orfani(&g).is_empty());
}

#[test]
fn orfano_isolato() {
    let mut g = grafo_test();
    g.nodi.push(NodeId(7));
    g.nodi.sort_unstable();
    assert_eq!(orfani(&g), vec![NodeId(7)]);
    assert!(e_orfano(&g, NodeId(7)));
    assert!(!e_orfano(&g, NodeId(1)));
}

#[test]
fn clustering_completo() {
    let g = grafo_con(vec![1, 2, 3], &[(1, 2, 0.9), (1, 3, 0.7), (2, 3, 0.8)]);
    assert_eq!(clustering(&g, NodeId(1)), Some(1.0));
}

#[test]
fn clustering_ponte() {
    let g = grafo_con(vec![1, 2, 3], &[(1, 2, 0.9), (2, 3, 0.8)]);
    assert_eq!(clustering(&g, NodeId(2)), Some(0.0));
    assert_eq!(clustering(&g, NodeId(1)), None);
}

#[test]
fn soglia_esclude_i_candidati_sotto() {
    let c = Classifica {
        fatto: NodeId(1),
        soglia_effettiva: b(0.7),
        candidati: vec![candidato(2, 0.9), candidato(3, 0.5), candidato(4, 0.7)],
    };
    let archi = archi_da_classifiche(5, &[c]);
    let coppie: Vec<(u64, u64)> = archi.iter().map(|e| (e.from.0, e.to.0)).collect();
    assert_eq!(coppie, vec![(1, 2), (1, 4)]);
}

#[test]
fn candidato_verso_se_stesso_ignorato_e_archi_ordinati() {
    let archi = archi_da_classifiche(
        5,
        &[classifica(5, &[5, 2]), classifica(2, &[5, 1]), classifica(1, &[2])],
    );
    let coppie: Vec<(u64, u64)> = archi.iter().map(|e| (e.from.0, e.to.0)).collect();
    assert_eq!(coppie, vec![(1, 2), (2, 5)]);
}

#[test]
fn primo_arco_proposto_vince() {
    let c1 = Classifica { fatto: NodeId(1), soglia_effettiva: b(0.0), candidati: vec![candidato(2, 0.8)] };
    let c2 = Classifica { fatto: NodeId(2), soglia_effettiva: b(0.0), candidati: vec![candidato(1, 0.3)] };
    let archi = archi_da_classifiche(1, &[c1, c2]);
    assert_eq!(archi.len(), 1);
    assert_eq!(archi[0].score(), b(0.8));
}

#[test]
fn k_zero_vale_uno() {
    let config = GraphConfig { k: 0, ..GraphConfig::default() };
    let g = assembla_grafo(config, vec![NodeId(1), NodeId(2), NodeId(3)], &[classifica(1, &[2, 3])]);
    assert_eq!(g.n_archi(), 1);
}

#[test]
fn vicini_e_archi_di_un_nodo() {
    let g = grafo_test();
    let mut v = g.vicini(NodeId(1));
    v.sort();
    assert_eq!(v, vec![NodeId(2), NodeId(4)]);
    assert_eq!(archi_di(&g, NodeId(3)).len(), 2);
    let tutti = gradi(&g);
    assert_eq!(tutti.len(), 6);
    assert_eq!(tutti[4], (NodeId(5), 1));
}

#[test]
fn configurazione_predefinita() {
    let c = GraphConfig::default();
    assert_eq!(c.k, 5);
    assert_eq!(c.soglia, b(0.0));
    assert_eq!(c.percentile_cutoff, b(0.0));
    assert_eq!(c.pesi, [b(0.6), b(0.25), b(0.15)]);
}

// The construction from facts: the double-precision scores and percentile
// are computed here as the application computes them; the ranking and the
// assembly are the library's.

const LAMBDA: f64 = 10.64;

#[derive(Clone, Copy)]
struct Fatto {
    id: NodeId,
    dense: f64,
    sparse: f64,
    colbert: f64,
}

fn fatto(id: u64, dense: f64, sparse: f64, colbert: f64) -> Fatto {
    Fatto { id: NodeId(id), dense, sparse, colbert }
}

fn sat(x: f64) -> f64 {
    f64::from_bits(satura01(x.to_bits()))
}

fn assi(a: &Fatto, c: &Fatto) -> NormalizedAxes {
    NormalizedAxes {
        dense: b(sat((a.dense * c.dense + 1.0) / 2.0)),
        sparse: b(sat(1.0 - (-LAMBDA * (a.sparse * c.sparse)).exp())),
        colbert: b(sat((a.colbert * c.colbert + 1.0) / 2.0)),
    }
}

fn combina(x: &NormalizedAxes, pesi: [f64; 3]) -> f64 {
    f64::from_bits(x.dense) * pesi[0] + f64::from_bits(x.sparse) * pesi[1] + f64::from_bits(x.colbert) * pesi[2]
}

fn percentile(scores: &[f64], p: f64) -> f64 {
    if scores.is_empty() {
        return 0.0;
    }
    let p = p.clamp(0.0, 1.0);
    let mut o = scores.to_vec();
    o.sort_by(|x, y| x.partial_cmp(y).unwrap());
    let idx = p * (o.len() - 1) as f64;
    let (lo, hi) = (idx.floor() as usize, idx.ceil() as usize);
    if lo == hi {
        o[lo]
    } else {
        let w = idx - lo as f64;
        o[lo] * (1.0 - w) + o[hi] * w
    }
}

fn costruisci(fatti: &[Fatto], config: GraphConfig) -> Graph {
    if fatti.is_empty() {
        return Graph::new(config);
    }
    let ids: Vec<NodeId> = fatti.iter().map(|f| f.id).collect();
    let fatti: Vec<Fatto> = indici_fatti_unici(&ids).into_iter().map(|i| fatti[i]).collect();
    let nodi: Vec<NodeId> = fatti.iter().map(|f| f.id).collect();
    let pesi = [f64::from_bits(config.pesi[0]), f64::from_bits(config.pesi[1]), f64::from_bits(config.pesi[2])];
    let cutoff = f64::from_bits(config.percentile_cutoff).clamp(0.0, 1.0);
    let mut classifiche = Vec::new();
    for (i, f) in fatti.iter().enumerate() {
        let candidati: Vec<Valutato> = fatti
            .iter()
            .enumerate()
            .filter(|(j, _)| *j != i)
            .map(|(_, a)| {
                let x = assi(f, a);
                (b(combina(&x, pesi)), x, a.id)
            })
            .collect();
        let migliori = primi_k(&candidati, config.k);
        let scores: Vec<f64> = migliori.iter().map(|c| f64::from_bits(c.0)).collect();
        classifiche.push(Classifica {
            fatto: f.id,
            soglia_effettiva: soglia_effettiva(config.soglia, b(percentile(&scores, cutoff))),
            candidati: migliori
                .iter()
                .map(|&(score, _, id)| {
                    let a = fatti.iter().find(|x| x.id == id).unwrap();
                    Candidato {
                        altro: id,
                        score,
                        dense: b(f.dense * a.dense),
                        sparse: b(f.sparse * a.sparse),
                        colbert: b(f.colbert * a.colbert),
                    }
                })
                .collect(),
        });
    }
    assembla_grafo(config, nodi, &classifiche)
}

#[test]
fn costruzione_vuota() {
    let g = costruisci(&[], GraphConfig::default());
    assert_eq!(g.n_nodi(), 0);
    assert_eq!(g.n_archi(), 0);
}

#[test]
fn nodi_unici_e_ordinati() {
    let fatti = vec![fatto(3, 0.9, 0.8, 0.7), fatto(1, 0.8, 0.7, 0.6), fatto(3, 0.9, 0.8, 0.7)];
    let g = costruisci(&fatti, GraphConfig::default());
    assert_eq!(g.n_nodi(), 2);
    assert_eq!(g.nodi, vec![NodeId(1), NodeId(3)]);
    assert!(g.archi.iter().all(|e| e.from != e.to), "nessun self-loop (from == to)");
    assert_eq!(grado(&g, NodeId(3)), 1);
}

#[test]
fn simmetria_degli_archi() {
    let fatti = vec![fatto(1, 1.0, 1.0, 1.0), fatto(2, 1.0, 1.0, 1.0)];
    let g = costruisci(&fatti, GraphConfig::default());
    assert!(g.ha_arco(NodeId(1), NodeId(2)));
    assert!(g.ha_arco(NodeId(2), NodeId(1)));
    assert_eq!(g.n_archi(), 1);
}

#[test]
fn soglia_filtra_archi_deboli() {
    let fatti = vec![fatto(1, 0.1, 0.1, 0.1), fatto(2, 0.9, 0.9, 0.9)];
    let config = GraphConfig { soglia: b(0.7), ..GraphConfig::default() };
    let g = costruisci(&fatti, config);
    assert_eq!(g.n_archi(), 0);
}

#[test]
fn k_limita_i_vicini() {
    let fatti = vec![
        fatto(1, 1.0, 1.0, 1.0),
        fatto(2, 0.9, 0.9, 0.9),
        fatto(3, 0.1, 0.1, 0.1),
        fatto(4, 0.2, 0.2, 0.2),
    ];
    let config = GraphConfig { k: 1, ..GraphConfig::default() };
    let g = costruisci(&fatti, config);
    assert!(g.ha_arco(NodeId(1), NodeId(2)));
    assert!(g.ha_arco(NodeId(3), NodeId(1)));
    assert!(g.ha_arco(NodeId(4), NodeId(1)));
    assert!(!g.ha_arco(NodeId(3), NodeId(4)));
    assert_eq!(g.n_archi(), 3);
}

#[test]
fn tie_break_pareto_prioritizza_dominatore() {
    let f0 = fatto(1, 1.0, 1.0, 1.0);
    let f_dominante = fatto(10, 0.5, 0.5, 0.9);
    let f_dominato = fatto(2, 0.5, 0.5, 0.1);
    let config = GraphConfig { k: 1, soglia: b(0.0), percentile_cutoff: b(0.0), pesi: [b(0.5), b(0.5), b(0.0)] };
    let g = costruisci(&[f0, f_dominante, f_dominato], config);
    let vicini_f0 = g.vicini(NodeId(1));
    assert!(
        vicini_f0.contains(&NodeId(10)),
        "il vicino di f0 deve essere il dominante (10), trovati: {vicini_f0:?}"
    );
}

#[test]
fn percentile_cutoff_zero_retrocompatibile() {
    let fatti = vec![fatto(1, 0.9, 0.9, 0.9), fatto(2, 0.8, 0.8, 0.8), fatto(3, 0.7, 0.7, 0.7)];
    let config_dinamica = GraphConfig { soglia: b(0.5), percentile_cutoff: b(0.0), ..GraphConfig::default() };
    let config_statica = GraphConfig { soglia: b(0.5), ..GraphConfig::default() };
    let g_dinamica = costruisci(&fatti, config_dinamica);
    let g_statica = costruisci(&fatti, config_statica);
    assert_eq!(g_dinamica.archi, g_statica.archi);
}

#[test]
fn soglia_dinamica_piu_selettiva_del_floor() {
    let fatti = vec![
        fatto(1, 1.0, 1.0, 1.0),
        fatto(2, 0.9, 0.9, 0.9),
        fatto(3, 0.5, 0.5, 0.5),
        fatto(4, 0.1, 0.1, 0.1),
    ];
    let config_statica = GraphConfig { k: 3, soglia: b(0.0), ..GraphConfig::default() };
    let config_dinamica = GraphConfig { k: 3, soglia: b(0.0), percentile_cutoff: b(0.5), ..GraphConfig::default() };
    let g_statica = costruisci(&fatti, config_statica);
    let g_dinamica = costruisci(&fatti, config_dinamica);
    assert_eq!(g_statica.n_archi(), 6);
    assert!(g_dinamica.n_archi() < g_statica.n_archi());
}

#[test]
fn coerenza_pareto() {
    let a = fatto(1, 0.9, 0.9, 0.9);
    let c = fatto(2, 0.5, 0.5, 0.5);
    let r = fatto(3, 0.8, 0.8, 0.8);
    let g = costruisci(&[a, c, r], GraphConfig::default());
    assert!(g.ha_arco(NodeId(2), NodeId(3)), "B—R deve esistere");
    assert!(g.ha_arco(NodeId(1), NodeId(3)), "A—R deve esistere (A domina B)");
}

#[test]
fn selfloop_con_id_duplicati() {
    let fatti = vec![fatto(3, 0.9, 0.8, 0.7), fatto(1, 0.8, 0.7, 0.6), fatto(3, 0.9, 0.8, 0.7)];
    let g = costruisci(&fatti, GraphConfig::default());
    let self_loops: Vec<_> = g.archi.iter().filter(|e| e.from == e.to).collect();
    assert!(self_loops.is_empty(), "self-loop presente: {}", self_loops.len());
}

fn v(score: f64, d: f64, s: f64, c: f64, id: u64) -> Valutato {
    (b(score), NormalizedAxes { dense: b(d), sparse: b(s), colbert: b(c) }, NodeId(id))
}

fn ids(r: &[Valutato]) -> Vec<u64> {
    r.iter().map(|x| x.2 .0).collect()
}

#[test]
fn primi_k_per_punteggio_decrescente() {
    let c = vec![v(0.2, 0.5, 0.5, 0.5, 1), v(0.9, 0.5, 0.5, 0.5, 2), v(0.5, 0.5, 0.5, 0.5, 3)];
    assert_eq!(ids(&primi_k(&c, 2)), vec![2, 3]);
    assert_eq!(ids(&primi_k(&c, 10)), vec![2, 3, 1]);
    // k = 0 keeps one
    assert_eq!(ids(&primi_k(&c, 0)), vec![2]);
    assert!(primi_k(&[], 3).is_empty());
}

#[test]
fn primi_k_a_parita_il_dominante_poi_l_id() {
    let c = vec![
        v(0.5, 0.5, 0.5, 0.1, 2),
        v(0.5, 0.5, 0.5, 0.9, 10),
        v(0.5, 0.1, 0.9, 0.5, 4),
        v(0.5, 0.9, 0.1, 0.5, 3),
    ];
    // 10 dominates 2; 3 and 4 are incomparable with the others: by id
    assert_eq!(ids(&primi_k(&c, 4)), vec![3, 4, 10, 2]);
}

#[test]
fn primi_k_punteggio_nan_in_fondo() {
    let c = vec![v(f64::NAN, 0.9, 0.9, 0.9, 1), v(0.1, 0.1, 0.1, 0.1, 2)];
    assert_eq!(ids(&primi_k(&c, 1)), vec![2]);
    assert_eq!(ids(&primi_k(&c, 2)), vec![2, 1]);
}

#[test]
fn soglia_effettiva_pavimento_e_percentile() {
    let t = |p: f64, q: f64| f64::from_bits(soglia_effettiva(b(p), b(q)));
    assert_eq!(t(0.3, 0.5), 0.5);
    assert_eq!(t(0.7, 0.5), 0.7);
    assert_eq!(t(2.0, 0.5), 1.0);
    assert_eq!(t(-1.0, f64::NAN), 0.0);
    assert_eq!(t(f64::NAN, 0.4), 0.4);
}

#[test]
fn pavimento_piu_alto_non_aggiunge_archi() {
    let fatti = vec![fatto(1, 1.0, 1.0, 1.0), fatto(2, 0.9, 0.9, 0.9), fatto(3, 0.5, 0.5, 0.5), fatto(4, 0.1, 0.1, 0.1)];
    let basso = costruisci(&fatti, GraphConfig { k: 3, soglia: b(0.0), ..GraphConfig::default() });
    let alto = costruisci(&fatti, GraphConfig { k: 3, soglia: b(0.6), ..GraphConfig::default() });
    assert!(alto.n_archi() < basso.n_archi());
    for e in &alto.archi {
        assert!(basso.ha_arco(e.from, e.to));
    }
}

#[test]
fn clustering_con_arco_ripetuto() {
    // neighbours are taken once each: node 1 has neighbours {2, 3}, joined
    let g = grafo_con(vec![1, 2, 3], &[(1, 2, 0.9), (1, 2, 0.9), (1, 3, 0.7), (2, 3, 0.8)]);
    assert_eq!(clustering(&g, NodeId(1)), Some(1.0));
}

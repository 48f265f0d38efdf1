//! The construction of the proximity graph, hybrid k-nearest plus threshold:
//! every fact links to its best `k` neighbours whose score reaches its
//! threshold, and the resulting graph is symmetric, each bond stored once.
//! Scoring the candidates is the caller's part; here they are ranked, and
//! the ranked lists become the nodes and edges of the graph.

use crate::grafo::{
    archi_ordinati, cerca_chiave, coppia_minore, estremo_maggiore, estremo_minore, ha_arco_tra,
    Edge, Graph, GraphConfig, NodeId,
};
use crate::combinatore::{
    domina, pareto_compare, satura01, saturato, saturazione_monotona, NormalizedAxes, ParetoOrder,
};
use crate::reale::{chiave, e_nan, le, lt, minore, minore_uguale, nan, Reale, BIT_SEGNO};
use vstd::multiset::Multiset;
use vstd::prelude::*;

verus! {

/// The indices of the first occurrence of every id, ordered by id: the
/// facts that remain once the duplicates are dropped.
pub open spec fn indici_unici(ids: Seq<NodeId>, r: Seq<usize>) -> bool {
    &&& forall|k: int| 0 <= k < r.len() ==> (#[trigger] r[k]) < ids.len()
    &&& forall|a: int, b: int| 0 <= a < b < r.len() ==> ids[r[a] as int].0 < ids[r[b] as int].0
    &&& forall|k: int, j: int|
        0 <= k < r.len() && 0 <= j < r[k] ==> #[trigger] ids[j].0 != ids[#[trigger] r[k] as int].0
    &&& forall|j: int| 0 <= j < ids.len() ==> id_selezionato(ids, r, #[trigger] ids[j].0)
}

/// Some selected index carries the id `x`.
pub open spec fn id_selezionato(ids: Seq<NodeId>, r: Seq<usize>, x: u64) -> bool {
    exists|k: int| 0 <= k < r.len() && ids[#[trigger] r[k] as int].0 == x
}

/// The invariant of the selection after the first `i` ids.
#[verifier::opaque]
spec fn selezione_fino_a(ids: Seq<NodeId>, r: Seq<usize>, i: int) -> bool {
    &&& forall|k: int| 0 <= k < r.len() ==> (#[trigger] r[k]) < i
    &&& forall|a: int, b: int| 0 <= a < b < r.len() ==> ids[r[a] as int].0 < ids[r[b] as int].0
    &&& forall|k: int, j: int|
        0 <= k < r.len() && 0 <= j < r[k] ==> #[trigger] ids[j].0 != ids[#[trigger] r[k] as int].0
    &&& forall|j: int| 0 <= j < i ==> id_selezionato(ids, r, #[trigger] ids[j].0)
}

proof fn lemma_selezione_iniziale(ids: Seq<NodeId>)
    ensures
        selezione_fino_a(ids, Seq::empty(), 0),
{
    reveal(selezione_fino_a);
}

proof fn lemma_selezione_finale(ids: Seq<NodeId>, r: Seq<usize>)
    requires
        selezione_fino_a(ids, r, ids.len() as int),
    ensures
        indici_unici(ids, r),
{
    reveal(selezione_fino_a);

}

/// The id at `i` was already selected: nothing changes.
proof fn lemma_selezione_presente(ids: Seq<NodeId>, r: Seq<usize>, i: int, p: int)
    requires
        selezione_fino_a(ids, r, i),
        0 <= i < ids.len(),
        0 <= p < r.len(),
        ids[r[p] as int].0 == ids[i].0,
    ensures
        selezione_fino_a(ids, r, i + 1),
{
    reveal(selezione_fino_a);
    assert forall|j: int| 0 <= j < i + 1 implies id_selezionato(ids, r, #[trigger] ids[j].0) by {
        if j == i {
            assert(ids[r[p] as int].0 == ids[j].0);
        }
    }
}

/// The id at `i` is new: it is inserted at its place `p` in id order.
proof fn lemma_selezione_nuova(ids: Seq<NodeId>, prima: Seq<usize>, i: int, p: int)
    requires
        selezione_fino_a(ids, prima, i),
        0 <= i < ids.len(),
        i <= usize::MAX,
        0 <= p <= prima.len(),
        forall|a: int| 0 <= a < p ==> ids[prima[a] as int].0 < ids[i].0,
        p < prima.len() ==> ids[prima[p] as int].0 > ids[i].0,
    ensures
        selezione_fino_a(ids, prima.insert(p, i as usize), i + 1),
{
    reveal(selezione_fino_a);
    let x = ids[i].0;
    let r = prima.insert(p, i as usize);
    prima.insert_ensures(p, i as usize);
    assert forall|k: int| 0 <= k < prima.len() implies ids[prima[k] as int].0 != x by {
        if k > p {
            assert(ids[prima[p] as int].0 < ids[prima[k] as int].0);
        }
    }
    assert forall|a: int, b: int| 0 <= a < b < r.len() implies ids[r[a] as int].0 < ids[r[
        b] as int].0 by {
        if b == p {
            assert(r[a] == prima[a]);
        } else if a == p {
            assert(r[b] == prima[b - 1]);
            if b - 1 > p {
                assert(ids[prima[p] as int].0 < ids[prima[b - 1] as int].0);
            }
        } else if a < p && b > p {
            assert(r[a] == prima[a] && r[b] == prima[b - 1]);
        } else if a > p {
            assert(r[a] == prima[a - 1] && r[b] == prima[b - 1]);
        } else {
            assert(r[a] == prima[a] && r[b] == prima[b]);
        }
    }
    assert forall|k: int, j: int| 0 <= k < r.len() && 0 <= j < r[k] implies #[trigger] ids[j].0
        != ids[#[trigger] r[k] as int].0 by {
        if k == p {
            if ids[j].0 == x {
                assert(id_selezionato(ids, prima, ids[j].0));
                let kk = choose|kk: int|
                    0 <= kk < prima.len() && ids[#[trigger] prima[kk] as int].0 == ids[j].0;
                assert(false);
            }
        } else if k < p {
            assert(r[k] == prima[k]);
        } else {
            assert(r[k] == prima[k - 1]);
        }
    }
    assert forall|j: int| 0 <= j < i + 1 implies id_selezionato(ids, r, #[trigger] ids[j].0) by {
        if j == i {
            assert(ids[r[p] as int].0 == ids[j].0);
        } else {
            assert(id_selezionato(ids, prima, ids[j].0));
            let kk = choose|kk: int|
                0 <= kk < prima.len() && ids[#[trigger] prima[kk] as int].0 == ids[j].0;
            if kk < p {
                assert(r[kk] == prima[kk]);
            } else {
                assert(r[kk + 1] == prima[kk]);
            }
        }
    }
    assert forall|k: int| 0 <= k < r.len() implies (#[trigger] r[k]) < i + 1 by {
        if k < p {
            assert(r[k] == prima[k]);
        } else if k > p {
            assert(r[k] == prima[k - 1]);
        }
    }
}

/// The facts kept by the construction: for every distinct id the first
/// fact that carries it, in increasing order of id.
pub fn indici_fatti_unici(ids: &[NodeId]) -> (r: Vec<usize>)
    ensures
        indici_unici(ids@, r@),
{
    let mut r: Vec<usize> = Vec::new();
    let mut i: usize = 0;
    proof {
        lemma_selezione_iniziale(ids@);
        assert(r@ =~= Seq::<usize>::empty());
    }
    while i < ids.len()
        invariant
            0 <= i <= ids@.len(),
            selezione_fino_a(ids@, r@, i as int),
        decreases ids.len() - i,
    {
        let x = ids[i].0;
        proof {
            reveal(selezione_fino_a);
        }
        let mut p: usize = 0;
        while p < r.len() && ids[r[p]].0 < x
            invariant
                0 <= p <= r@.len(),
                forall|k: int| 0 <= k < r@.len() ==> (#[trigger] r@[k]) < i,
                i < ids@.len(),
                x == ids@[i as int].0,
                forall|a: int| 0 <= a < p ==> ids@[r@[a] as int].0 < x,
            decreases r.len() - p,
        {
            p += 1;
        }
        if p < r.len() && ids[r[p]].0 == x {
            proof {
                lemma_selezione_presente(ids@, r@, i as int, p as int);
            }
        } else {
            proof {
                lemma_selezione_nuova(ids@, r@, i as int, p as int);
            }
            r.insert(p, i);
        }
        i += 1;
    }
    proof {
        lemma_selezione_finale(ids@, r@);
    }
    r
}

/// A candidate neighbour of a fact, as ranked by the caller: its id, the
/// combined score and the three products of the probes.
#[derive(Clone, Copy, Debug, PartialEq, Eq)]
pub struct Candidato {
    pub altro: NodeId,
    pub score: Reale,
    pub dense: Reale,
    pub sparse: Reale,
    pub colbert: Reale,
}

/// The ranked candidates of one fact, best first, with the threshold its
/// neighbours must reach (the floor, or the dynamic percentile cutoff).
#[derive(Clone, Debug)]
pub struct Classifica {
    pub fatto: NodeId,
    pub soglia_effettiva: Reale,
    pub candidati: Vec<Candidato>,
}

/// Two edges join the same pair.
pub open spec fn stessa_chiave(a: Edge, b: Edge) -> bool {
    a.from.0 == b.from.0 && a.to.0 == b.to.0
}

/// The edge a fact proposes towards a candidate: the smaller id first.
pub open spec fn arco_proposto(fatto: NodeId, c: Candidato) -> Edge {
    Edge {
        from: if fatto.0 <= c.altro.0 {
            fatto
        } else {
            c.altro
        },
        to: if fatto.0 <= c.altro.0 {
            c.altro
        } else {
            fatto
        },
        score: c.score,
        dense: c.dense,
        sparse: c.sparse,
        colbert: c.colbert,
    }
}

/// A candidate becomes an edge when its score reaches the threshold and it
/// is not the fact itself.
pub open spec fn accettato(fatto: NodeId, soglia: Reale, c: Candidato) -> bool {
    minore_uguale(soglia, c.score) && fatto.0 != c.altro.0
}

/// The edges proposed by a fact from a run of its candidates, in order.
pub open spec fn proposte_candidati(fatto: NodeId, soglia: Reale, cs: Seq<Candidato>) -> Seq<Edge>
    decreases cs.len(),
{
    if cs.len() == 0 {
        Seq::empty()
    } else {
        let prima = proposte_candidati(fatto, soglia, cs.drop_last());
        if accettato(fatto, soglia, cs.last()) {
            prima.push(arco_proposto(fatto, cs.last()))
        } else {
            prima
        }
    }
}

/// The first `k` candidates (all of them when there are fewer).
pub open spec fn primi(k: int, cs: Seq<Candidato>) -> Seq<Candidato> {
    if k < cs.len() {
        cs.take(k)
    } else {
        cs
    }
}

/// All the edges proposed by the facts, each fact from its best `k`
/// candidates, in order.
pub open spec fn proposte(k: int, cl: Seq<Classifica>) -> Seq<Edge>
    decreases cl.len(),
{
    if cl.len() == 0 {
        Seq::empty()
    } else {
        proposte(k, cl.drop_last()) + proposte_candidati(
            cl.last().fatto,
            cl.last().soglia_effettiva,
            primi(k, cl.last().candidati@),
        )
    }
}

/// `e` is the first proposal of its pair.
pub open spec fn prima_proposta(props: Seq<Edge>, e: Edge) -> bool {
    exists|j: int|
        0 <= j < props.len() && #[trigger] props[j] == e && forall|j2: int|
            0 <= j2 < j ==> !stessa_chiave(#[trigger] props[j2], e)
}

/// Some edge of `r` joins the pair of `e`.
pub open spec fn coppia_presente(r: Seq<Edge>, e: Edge) -> bool {
    exists|k: int| 0 <= k < r.len() && stessa_chiave(#[trigger] r[k], e)
}

/// `r` holds, sorted by pair, one edge per proposed pair: the first one
/// proposed.
pub open spec fn archi_deduplicati(r: Seq<Edge>, props: Seq<Edge>) -> bool {
    &&& archi_ordinati(r)
    &&& forall|k: int| 0 <= k < r.len() ==> prima_proposta(props, #[trigger] r[k])
    &&& forall|j: int| 0 <= j < props.len() ==> coppia_presente(r, #[trigger] props[j])
}

/// Every proposal joins two different facts, the smaller id first.
pub open spec fn proposte_orientate(props: Seq<Edge>) -> bool {
    forall|j: int| 0 <= j < props.len() ==> (#[trigger] props[j]).from.0 < props[j].to.0
}

/// Adds a proposal: kept when its pair is new, at its place in pair order.
fn aggiungi_proposta(r: &mut Vec<Edge>, e: Edge, Ghost(props): Ghost<Seq<Edge>>)
    requires
        archi_deduplicati(old(r)@, props),
        proposte_orientate(props),
        e.from.0 < e.to.0,
    ensures
        archi_deduplicati(final(r)@, props.push(e)),
        proposte_orientate(props.push(e)),
{
    let (trovato, pos) = cerca_chiave(r, e.from.0, e.to.0);
    let ghost props2 = props.push(e);
    let ghost prima = r@;
    if trovato {
        proof {
            assert forall|k: int| 0 <= k < prima.len() implies prima_proposta(
                props2,
                #[trigger] prima[k],
            ) by {
                assert(prima_proposta(props, prima[k]));
                let j = choose|j: int|
                    0 <= j < props.len() && #[trigger] props[j] == prima[k] && forall|j2: int|
                        0 <= j2 < j ==> !stessa_chiave(#[trigger] props[j2], prima[k]);
                assert(props2[j] == prima[k]);
                assert forall|j2: int| 0 <= j2 < j implies !stessa_chiave(
                    #[trigger] props2[j2],
                    prima[k],
                ) by {
                    assert(props2[j2] == props[j2]);
                }
            }
            assert forall|j: int| 0 <= j < props2.len() implies coppia_presente(
                prima,
                #[trigger] props2[j],
            ) by {
                if j < props.len() {
                    assert(props2[j] == props[j]);
                } else {
                    assert(stessa_chiave(prima[pos as int], e));
                }
            }
        }
    } else {
        r.insert(pos, e);
        proof {
            prima.insert_ensures(pos as int, e);
            let nuovo = r@;
            assert forall|a: int, b: int| 0 <= a < b < nuovo.len() implies coppia_minore(
                nuovo[a].from.0,
                nuovo[a].to.0,
                nuovo[b].from.0,
                nuovo[b].to.0,
            ) by {
                if b < pos {
                } else if b == pos {
                } else if a < pos {
                    assert(nuovo[b] == prima[b - 1]);
                } else if a == pos {
                    assert(nuovo[b] == prima[b - 1]);
                } else {
                    assert(nuovo[a] == prima[a - 1] && nuovo[b] == prima[b - 1]);
                }
            }
            assert forall|j2: int| 0 <= j2 < props.len() implies !stessa_chiave(
                #[trigger] props2[j2],
                e,
            ) by {
                assert(props2[j2] == props[j2]);
                assert(coppia_presente(prima, props[j2]));
            }
            assert forall|k: int| 0 <= k < nuovo.len() implies prima_proposta(
                props2,
                #[trigger] nuovo[k],
            ) by {
                if k == pos {
                    assert(props2[props.len() as int] == e);
                } else {
                    let kk = if k < pos {
                        k
                    } else {
                        k - 1
                    };
                    assert(nuovo[k] == prima[kk]);
                    assert(prima_proposta(props, prima[kk]));
                    let j = choose|j: int|
                        0 <= j < props.len() && #[trigger] props[j] == prima[kk] && forall|j2: int|
                            0 <= j2 < j ==> !stessa_chiave(#[trigger] props[j2], prima[kk]);
                    assert(props2[j] == prima[kk]);
                    assert forall|j2: int| 0 <= j2 < j implies !stessa_chiave(
                        #[trigger] props2[j2],
                        prima[kk],
                    ) by {
                        assert(props2[j2] == props[j2]);
                    }
                }
            }
            assert forall|j: int| 0 <= j < props2.len() implies coppia_presente(
                nuovo,
                #[trigger] props2[j],
            ) by {
                if j < props.len() {
                    assert(props2[j] == props[j]);
                    assert(coppia_presente(prima, props[j]));
                    let k = choose|k: int| 0 <= k < prima.len() && stessa_chiave(#[trigger] prima[k], props[j]);
                    if k < pos {
                        assert(nuovo[k] == prima[k]);
                    } else {
                        assert(nuovo[k + 1] == prima[k]);
                    }
                } else {
                    assert(stessa_chiave(nuovo[pos as int], e));
                }
            }
        }
    }
    proof {
        assert forall|j: int| 0 <= j < props2.len() implies (#[trigger] props2[j]).from.0
            < props2[j].to.0 by {
            if j < props.len() {
                assert(props2[j] == props[j]);
            }
        }
    }
}

proof fn lemma_proposte_passo(k: int, cl: Seq<Classifica>, i: int)
    requires
        0 <= i < cl.len(),
    ensures
        proposte(k, cl.take(i + 1)) == proposte(k, cl.take(i)) + proposte_candidati(
            cl[i].fatto,
            cl[i].soglia_effettiva,
            primi(k, cl[i].candidati@),
        ),
{
    assert(cl.take(i + 1).drop_last() =~= cl.take(i));
}

proof fn lemma_candidati_passo(fatto: NodeId, soglia: Reale, cs: Seq<Candidato>, j: int)
    requires
        0 <= j < cs.len(),
    ensures
        proposte_candidati(fatto, soglia, cs.take(j + 1)) == if accettato(fatto, soglia, cs[j]) {
            proposte_candidati(fatto, soglia, cs.take(j)).push(arco_proposto(fatto, cs[j]))
        } else {
            proposte_candidati(fatto, soglia, cs.take(j))
        },
{
    assert(cs.take(j + 1).drop_last() =~= cs.take(j));
}

/// The edges of the graph from the ranked candidates of every fact: each
/// fact proposes an edge towards each of its best `k` candidates whose score
/// reaches its threshold (never towards itself); the graph keeps, sorted by
/// pair, the first edge proposed for every pair.
pub fn archi_da_classifiche(k: usize, classifiche: &[Classifica]) -> (r: Vec<Edge>)
    ensures
        archi_deduplicati(r@, proposte(k as int, classifiche@)),
        proposte_orientate(proposte(k as int, classifiche@)),
        forall|q: int|
            0 <= q < r@.len() ==> porta_i_punteggi_del_primo(
                k as int,
                classifiche@,
                #[trigger] r@[q],
            ),
{
    let mut r: Vec<Edge> = Vec::new();
    let ghost mut props: Seq<Edge> = Seq::empty();
    let ghost cl = classifiche@;
    let mut i: usize = 0;
    proof {
        assert(cl.take(0) =~= Seq::<Classifica>::empty());
    }
    while i < classifiche.len()
        invariant
            cl == classifiche@,
            0 <= i <= cl.len(),
            props == proposte(k as int, cl.take(i as int)),
            archi_deduplicati(r@, props),
            proposte_orientate(props),
        decreases cl.len() - i,
    {
        let c = &classifiche[i];
        let lim = if k < c.candidati.len() {
            k
        } else {
            c.candidati.len()
        };
        let ghost base = props;
        let ghost cs = c.candidati@;
        let mut j: usize = 0;
        proof {
            assert(cs.take(0) =~= Seq::<Candidato>::empty());
            assert(props =~= base + proposte_candidati(c.fatto, c.soglia_effettiva, cs.take(0)));
        }
        while j < lim
            invariant
                cs == c.candidati@,
                lim <= cs.len(),
                lim == (if k < cs.len() { k as int } else { cs.len() as int }),
                0 <= j <= lim,
                props == base + proposte_candidati(c.fatto, c.soglia_effettiva, cs.take(j as int)),
                archi_deduplicati(r@, props),
                proposte_orientate(props),
            decreases lim - j,
        {
            let cand = c.candidati[j];
            proof {
                lemma_candidati_passo(c.fatto, c.soglia_effettiva, cs, j as int);
            }
            if le(c.soglia_effettiva, cand.score) && c.fatto.0 != cand.altro.0 {
                let e = Edge {
                    from: if c.fatto.0 <= cand.altro.0 {
                        c.fatto
                    } else {
                        cand.altro
                    },
                    to: if c.fatto.0 <= cand.altro.0 {
                        cand.altro
                    } else {
                        c.fatto
                    },
                    score: cand.score,
                    dense: cand.dense,
                    sparse: cand.sparse,
                    colbert: cand.colbert,
                };
                aggiungi_proposta(&mut r, e, Ghost(props));
                proof {
                    assert(e == arco_proposto(c.fatto, cs[j as int]));
                    props = props.push(e);
                }
            }
            j += 1;
        }
        proof {
            lemma_proposte_passo(k as int, cl, i as int);
            assert(primi(k as int, cs) =~= cs.take(lim as int));
        }
        i += 1;
    }
    proof {
        assert(cl.take(cl.len() as int) =~= cl);
        arco_dal_primo_candidato(k as int, cl, r@);
    }
    r
}

/// The graph of a set of facts: the nodes, and the edges from the ranked
/// candidates of every fact, each fact keeping at most `max(k, 1)` of them.
pub fn assembla_grafo(config: GraphConfig, nodi: Vec<NodeId>, classifiche: &[Classifica]) -> (g:
    Graph)
    ensures
        g.config == config,
        g.nodi@ == nodi@,
        archi_deduplicati(g.archi@, proposte(k_effettivo(config), classifiche@)),
        proposte_orientate(proposte(k_effettivo(config), classifiche@)),
        forall|q: int|
            0 <= q < g.archi@.len() ==> porta_i_punteggi_del_primo(
                k_effettivo(config),
                classifiche@,
                #[trigger] g.archi@[q],
            ),
{
    let k = if config.k == 0 {
        1
    } else {
        config.k
    };
    let archi = archi_da_classifiche(k, classifiche);
    Graph { config, nodi, archi }
}

/// The number of neighbours each fact may keep: `k`, at least one.
pub open spec fn k_effettivo(config: GraphConfig) -> int {
    if config.k == 0 {
        1
    } else {
        config.k as int
    }
}

/// The edge joins `a` and `b`.
pub open spec fn unisce(e: Edge, a: NodeId, b: NodeId) -> bool {
    e.from.0 == estremo_minore(a, b) && e.to.0 == estremo_maggiore(a, b)
}

/// The candidate at `j` of a fact links it to `a` and `b`, one on each side.
pub open spec fn collega(fatto: NodeId, c: Candidato, a: NodeId, b: NodeId) -> bool {
    (fatto.0 == a.0 && c.altro.0 == b.0) || (fatto.0 == b.0 && c.altro.0 == a.0)
}

/// Some fact keeps, among its best `k` candidates, one that reaches its
/// threshold and links `a` and `b`.
pub open spec fn proposto_tra(k: int, cl: Seq<Classifica>, a: NodeId, b: NodeId) -> bool {
    exists|i: int, j: int|
        0 <= i < cl.len() && 0 <= j < primi(k, cl[i].candidati@).len() && accettato(
            cl[i].fatto,
            cl[i].soglia_effettiva,
            #[trigger] primi(k, cl[i].candidati@)[j],
        ) && collega(cl[i].fatto, primi(k, cl[i].candidati@)[j], a, b)
}

proof fn lemma_candidati_unisce(fatto: NodeId, soglia: Reale, cs: Seq<Candidato>, a: NodeId, b: NodeId)
    ensures
        (exists|q: int|
            0 <= q < proposte_candidati(fatto, soglia, cs).len() && unisce(
                #[trigger] proposte_candidati(fatto, soglia, cs)[q],
                a,
                b,
            )) <==> (exists|j: int|
            0 <= j < cs.len() && accettato(fatto, soglia, #[trigger] cs[j]) && collega(
                fatto,
                cs[j],
                a,
                b,
            )),
    decreases cs.len(),
{
    if cs.len() > 0 {
        let pre = cs.drop_last();
        lemma_candidati_unisce(fatto, soglia, pre, a, b);
        let p0 = proposte_candidati(fatto, soglia, pre);
        let p = proposte_candidati(fatto, soglia, cs);
        let last = cs.last();
        if exists|q: int| 0 <= q < p.len() && unisce(#[trigger] p[q], a, b) {
            let q = choose|q: int| 0 <= q < p.len() && unisce(#[trigger] p[q], a, b);
            if q < p0.len() {
                assert(p[q] == p0[q]);
                let j = choose|j: int|
                    0 <= j < pre.len() && accettato(fatto, soglia, #[trigger] pre[j]) && collega(
                        fatto,
                        pre[j],
                        a,
                        b,
                    );
                assert(cs[j] == pre[j]);
            } else {
                assert(p[q] == arco_proposto(fatto, last));
                assert(cs[cs.len() - 1] == last);
            }
        }
        if exists|j: int|
            0 <= j < cs.len() && accettato(fatto, soglia, #[trigger] cs[j]) && collega(
                fatto,
                cs[j],
                a,
                b,
            ) {
            let j = choose|j: int|
                0 <= j < cs.len() && accettato(fatto, soglia, #[trigger] cs[j]) && collega(
                    fatto,
                    cs[j],
                    a,
                    b,
                );
            if j < pre.len() {
                assert(pre[j] == cs[j]);
                let q = choose|q: int| 0 <= q < p0.len() && unisce(#[trigger] p0[q], a, b);
                assert(p[q] == p0[q]);
            } else {
                assert(p[p0.len() as int] == arco_proposto(fatto, last));
                assert(unisce(p[p0.len() as int], a, b));
            }
        }
    }
}

proof fn lemma_proposte_unisce(k: int, cl: Seq<Classifica>, a: NodeId, b: NodeId)
    ensures
        (exists|q: int|
            0 <= q < proposte(k, cl).len() && unisce(#[trigger] proposte(k, cl)[q], a, b))
            <==> proposto_tra(k, cl, a, b),
    decreases cl.len(),
{
    if cl.len() > 0 {
        let pre = cl.drop_last();
        let last = cl.last();
        lemma_proposte_unisce(k, pre, a, b);
        let cs = primi(k, last.candidati@);
        lemma_candidati_unisce(last.fatto, last.soglia_effettiva, cs, a, b);
        let p0 = proposte(k, pre);
        let p1 = proposte_candidati(last.fatto, last.soglia_effettiva, cs);
        let p = proposte(k, cl);
        assert(p == p0 + p1);
        if exists|q: int| 0 <= q < p.len() && unisce(#[trigger] p[q], a, b) {
            let q = choose|q: int| 0 <= q < p.len() && unisce(#[trigger] p[q], a, b);
            if q < p0.len() {
                assert(p[q] == p0[q]);
                let (i, j) = choose|i: int, j: int|
                    0 <= i < pre.len() && 0 <= j < primi(k, pre[i].candidati@).len() && accettato(
                        pre[i].fatto,
                        pre[i].soglia_effettiva,
                        #[trigger] primi(k, pre[i].candidati@)[j],
                    ) && collega(pre[i].fatto, primi(k, pre[i].candidati@)[j], a, b);
                assert(cl[i] == pre[i]);
                assert(accettato(
                    cl[i].fatto,
                    cl[i].soglia_effettiva,
                    primi(k, cl[i].candidati@)[j],
                ));
            } else {
                assert(p[q] == p1[q - p0.len()]);
                let j = choose|j: int|
                    0 <= j < cs.len() && accettato(
                        last.fatto,
                        last.soglia_effettiva,
                        #[trigger] cs[j],
                    ) && collega(last.fatto, cs[j], a, b);
                let i = cl.len() - 1;
                assert(cl[i] == last);
                assert(accettato(
                    cl[i].fatto,
                    cl[i].soglia_effettiva,
                    primi(k, cl[i].candidati@)[j],
                ));
            }
        }
        if proposto_tra(k, cl, a, b) {
            let (i, j) = choose|i: int, j: int|
                0 <= i < cl.len() && 0 <= j < primi(k, cl[i].candidati@).len() && accettato(
                    cl[i].fatto,
                    cl[i].soglia_effettiva,
                    #[trigger] primi(k, cl[i].candidati@)[j],
                ) && collega(cl[i].fatto, primi(k, cl[i].candidati@)[j], a, b);
            if i < pre.len() {
                assert(pre[i] == cl[i]);
                assert(accettato(
                    pre[i].fatto,
                    pre[i].soglia_effettiva,
                    primi(k, pre[i].candidati@)[j],
                ));
                let q = choose|q: int| 0 <= q < p0.len() && unisce(#[trigger] p0[q], a, b);
                assert(p[q] == p0[q]);
            } else {
                assert(cl[i] == last);
                assert(accettato(last.fatto, last.soglia_effettiva, cs[j]));
                let q = choose|q: int| 0 <= q < p1.len() && unisce(#[trigger] p1[q], a, b);
                assert(p[p0.len() + q] == p1[q]);
            }
        }
    }
}

/// The graph is symmetric and built from the neighbourhoods: two facts are
/// joined exactly when one of them keeps the other among its best `k`
/// candidates above its threshold, whichever of the two it is.
pub proof fn legame_sse_proposto(k: int, cl: Seq<Classifica>, archi: Seq<Edge>, a: NodeId, b: NodeId)
    requires
        archi_deduplicati(archi, proposte(k, cl)),
    ensures
        ha_arco_tra(archi, a, b) <==> proposto_tra(k, cl, a, b),
        ha_arco_tra(archi, a, b) <==> ha_arco_tra(archi, b, a),
{
    lemma_proposte_unisce(k, cl, a, b);
    let props = proposte(k, cl);
    if ha_arco_tra(archi, a, b) {
        let kk = choose|kk: int|
            0 <= kk < archi.len() && archi[kk].from.0 == estremo_minore(a, b) && archi[kk].to.0
                == estremo_maggiore(a, b);
        assert(prima_proposta(props, archi[kk]));
        let j = choose|j: int|
            0 <= j < props.len() && #[trigger] props[j] == archi[kk] && forall|j2: int|
                0 <= j2 < j ==> !stessa_chiave(#[trigger] props[j2], archi[kk]);
        assert(unisce(props[j], a, b));
    }
    if proposto_tra(k, cl, a, b) {
        let q = choose|q: int| 0 <= q < props.len() && unisce(#[trigger] props[q], a, b);
        assert(coppia_presente(archi, props[q]));
        let kk = choose|kk: int| 0 <= kk < archi.len() && stessa_chiave(#[trigger] archi[kk], props[q]);
        assert(archi[kk].from.0 == estremo_minore(a, b));
    }
}

/// No fact is joined to itself, every bond is stored once with its smaller
/// end first, and it carries the scores of the first proposal of its pair.
pub proof fn archi_senza_anelli(k: int, cl: Seq<Classifica>, archi: Seq<Edge>)
    requires
        archi_deduplicati(archi, proposte(k, cl)),
        proposte_orientate(proposte(k, cl)),
    ensures
        forall|q: int| 0 <= q < archi.len() ==> (#[trigger] archi[q]).from.0 < archi[q].to.0,
        archi_ordinati(archi),
{
    let props = proposte(k, cl);
    assert forall|q: int| 0 <= q < archi.len() implies (#[trigger] archi[q]).from.0
        < archi[q].to.0 by {
        assert(prima_proposta(props, archi[q]));
        let j = choose|j: int|
            0 <= j < props.len() && #[trigger] props[j] == archi[q] && forall|j2: int|
                0 <= j2 < j ==> !stessa_chiave(#[trigger] props[j2], archi[q]);
    }
}

/// The candidate at `j` among the best `k` of the fact at `i` reaches that
/// fact's threshold and links `a` and `b`.
pub open spec fn candidato_tra(k: int, cl: Seq<Classifica>, i: int, j: int, a: NodeId, b: NodeId) -> bool {
    &&& 0 <= i < cl.len()
    &&& 0 <= j < primi(k, cl[i].candidati@).len()
    &&& accettato(cl[i].fatto, cl[i].soglia_effettiva, primi(k, cl[i].candidati@)[j])
    &&& collega(cl[i].fatto, primi(k, cl[i].candidati@)[j], a, b)
}

/// The candidate at `j` of the fact at `i` links `a` and `b` above its
/// threshold, and no candidate before it does (in the order of the facts,
/// then of their rankings).
pub open spec fn primo_candidato_tra(k: int, cl: Seq<Classifica>, i: int, j: int, a: NodeId, b: NodeId) -> bool {
    &&& candidato_tra(k, cl, i, j, a, b)
    &&& forall|i2: int, j2: int|
        (i2 < i || (i2 == i && j2 < j)) ==> !#[trigger] candidato_tra(k, cl, i2, j2, a, b)
}

/// The edge carries the combined score and the three probe products of the
/// first candidate that links its two ends above its fact's threshold.
pub open spec fn porta_i_punteggi_del_primo(k: int, cl: Seq<Classifica>, e: Edge) -> bool {
    exists|i: int, j: int|
        #[trigger] primo_candidato_tra(k, cl, i, j, e.from, e.to) && e.score == primi(
            k,
            cl[i].candidati@,
        )[j].score && e.dense == primi(k, cl[i].candidati@)[j].dense && e.sparse == primi(
            k,
            cl[i].candidati@,
        )[j].sparse && e.colbert == primi(k, cl[i].candidati@)[j].colbert
}

proof fn lemma_candidati_primo(fatto: NodeId, soglia: Reale, cs: Seq<Candidato>, q: int, a: NodeId, b: NodeId)
    requires
        0 <= q < proposte_candidati(fatto, soglia, cs).len(),
        unisce(proposte_candidati(fatto, soglia, cs)[q], a, b),
        forall|q2: int|
            0 <= q2 < q ==> !unisce(#[trigger] proposte_candidati(fatto, soglia, cs)[q2], a, b),
    ensures
        exists|j: int|
            0 <= j < cs.len() && accettato(fatto, soglia, #[trigger] cs[j]) && collega(
                fatto,
                cs[j],
                a,
                b,
            ) && (forall|j2: int|
                0 <= j2 < j ==> !(accettato(fatto, soglia, #[trigger] cs[j2]) && collega(
                    fatto,
                    cs[j2],
                    a,
                    b,
                ))) && proposte_candidati(fatto, soglia, cs)[q].score == cs[j].score
                && proposte_candidati(fatto, soglia, cs)[q].dense == cs[j].dense
                && proposte_candidati(fatto, soglia, cs)[q].sparse == cs[j].sparse
                && proposte_candidati(fatto, soglia, cs)[q].colbert == cs[j].colbert,
    decreases cs.len(),
{
    let pre = cs.drop_last();
    let last = cs.last();
    let p0 = proposte_candidati(fatto, soglia, pre);
    let p = proposte_candidati(fatto, soglia, cs);
    if q < p0.len() {
        assert(p[q] == p0[q]);
        assert forall|q2: int| 0 <= q2 < q implies !unisce(#[trigger] p0[q2], a, b) by {
            assert(p[q2] == p0[q2]);
        }
        lemma_candidati_primo(fatto, soglia, pre, q, a, b);
        let j = choose|j: int|
            0 <= j < pre.len() && accettato(fatto, soglia, #[trigger] pre[j]) && collega(
                fatto,
                pre[j],
                a,
                b,
            ) && (forall|j2: int|
                0 <= j2 < j ==> !(accettato(fatto, soglia, #[trigger] pre[j2]) && collega(
                    fatto,
                    pre[j2],
                    a,
                    b,
                ))) && p0[q].score == pre[j].score && p0[q].dense == pre[j].dense
                && p0[q].sparse == pre[j].sparse && p0[q].colbert == pre[j].colbert;
        assert(cs[j] == pre[j]);
        assert forall|j2: int| 0 <= j2 < j implies !(accettato(fatto, soglia, #[trigger] cs[j2])
            && collega(fatto, cs[j2], a, b)) by {
            assert(cs[j2] == pre[j2]);
        }
    } else {
        lemma_candidati_unisce(fatto, soglia, pre, a, b);
        assert(accettato(fatto, soglia, last));
        assert(p == p0.push(arco_proposto(fatto, last)));
        assert(q == p0.len());
        assert(p[q] == arco_proposto(fatto, last));
        assert forall|q2: int| 0 <= q2 < p0.len() implies !unisce(#[trigger] p0[q2], a, b) by {
            assert(p[q2] == p0[q2]);
        }
        let j = cs.len() - 1;
        assert(cs[j] == last);
        assert(collega(fatto, last, a, b));
        assert forall|j2: int| 0 <= j2 < j implies !(accettato(fatto, soglia, #[trigger] cs[j2])
            && collega(fatto, cs[j2], a, b)) by {
            assert(cs[j2] == pre[j2]);
        }
    }
}

proof fn lemma_proposte_primo(k: int, cl: Seq<Classifica>, q: int, a: NodeId, b: NodeId)
    requires
        0 <= q < proposte(k, cl).len(),
        unisce(proposte(k, cl)[q], a, b),
        forall|q2: int| 0 <= q2 < q ==> !unisce(#[trigger] proposte(k, cl)[q2], a, b),
    ensures
        exists|i: int, j: int|
            #[trigger] primo_candidato_tra(k, cl, i, j, a, b) && proposte(k, cl)[q].score == primi(
                k,
                cl[i].candidati@,
            )[j].score && proposte(k, cl)[q].dense == primi(k, cl[i].candidati@)[j].dense
                && proposte(k, cl)[q].sparse == primi(k, cl[i].candidati@)[j].sparse && proposte(
                k,
                cl,
            )[q].colbert == primi(k, cl[i].candidati@)[j].colbert,
    decreases cl.len(),
{
    let pre = cl.drop_last();
    let last = cl.last();
    let cs = primi(k, last.candidati@);
    let p0 = proposte(k, pre);
    let p1 = proposte_candidati(last.fatto, last.soglia_effettiva, cs);
    let p = proposte(k, cl);
    assert(p == p0 + p1);
    if q < p0.len() {
        assert(p[q] == p0[q]);
        assert forall|q2: int| 0 <= q2 < q implies !unisce(#[trigger] p0[q2], a, b) by {
            assert(p[q2] == p0[q2]);
        }
        lemma_proposte_primo(k, pre, q, a, b);
        let (i, j) = choose|i: int, j: int|
            #[trigger] primo_candidato_tra(k, pre, i, j, a, b) && p0[q].score == primi(
                k,
                pre[i].candidati@,
            )[j].score && p0[q].dense == primi(k, pre[i].candidati@)[j].dense && p0[q].sparse
                == primi(k, pre[i].candidati@)[j].sparse && p0[q].colbert == primi(
                k,
                pre[i].candidati@,
            )[j].colbert;
        assert(cl[i] == pre[i]);
        assert(candidato_tra(k, cl, i, j, a, b));
        assert forall|i2: int, j2: int| (i2 < i || (i2 == i && j2 < j)) implies !#[trigger] candidato_tra(
            k,
            cl,
            i2,
            j2,
            a,
            b,
        ) by {
            if 0 <= i2 {
                assert(cl[i2] == pre[i2]);
                assert(!candidato_tra(k, pre, i2, j2, a, b));
            }
        }
        assert(primo_candidato_tra(k, cl, i, j, a, b));
    } else {
        let qq = q - p0.len();
        assert(p[q] == p1[qq]);
        assert forall|q2: int| 0 <= q2 < qq implies !unisce(#[trigger] p1[q2], a, b) by {
            assert(p[p0.len() + q2] == p1[q2]);
        }
        assert forall|q2: int| 0 <= q2 < p0.len() implies !unisce(#[trigger] p0[q2], a, b) by {
            assert(p[q2] == p0[q2]);
        }
        lemma_proposte_unisce(k, pre, a, b);
        lemma_candidati_primo(last.fatto, last.soglia_effettiva, cs, qq, a, b);
        let j = choose|j: int|
            0 <= j < cs.len() && accettato(last.fatto, last.soglia_effettiva, #[trigger] cs[j])
                && collega(last.fatto, cs[j], a, b) && (forall|j2: int|
                0 <= j2 < j ==> !(accettato(last.fatto, last.soglia_effettiva, #[trigger] cs[j2])
                    && collega(last.fatto, cs[j2], a, b))) && p1[qq].score == cs[j].score
                && p1[qq].dense == cs[j].dense && p1[qq].sparse == cs[j].sparse && p1[qq].colbert
                == cs[j].colbert;
        let i = cl.len() - 1;
        assert(cl[i] == last);
        assert(candidato_tra(k, cl, i, j, a, b));
        assert forall|i2: int, j2: int| (i2 < i || (i2 == i && j2 < j)) implies !#[trigger] candidato_tra(
            k,
            cl,
            i2,
            j2,
            a,
            b,
        ) by {
            if i2 < i && 0 <= i2 && candidato_tra(k, cl, i2, j2, a, b) {
                assert(cl[i2] == pre[i2]);
                assert(accettato(
                    pre[i2].fatto,
                    pre[i2].soglia_effettiva,
                    primi(k, pre[i2].candidati@)[j2],
                ));
                assert(proposto_tra(k, pre, a, b));
            }
        }
        assert(primo_candidato_tra(k, cl, i, j, a, b));
    }
}

/// Every edge of the graph carries the scores of the candidate whose
/// proposal created it: the combined score (the one compared with the
/// threshold) and the three probe products of the first candidate, in the
/// order of the facts and of their rankings, that reaches its fact's
/// threshold and links the two ends of the edge.
pub proof fn arco_dal_primo_candidato(k: int, cl: Seq<Classifica>, archi: Seq<Edge>)
    requires
        archi_deduplicati(archi, proposte(k, cl)),
        proposte_orientate(proposte(k, cl)),
    ensures
        forall|q: int|
            0 <= q < archi.len() ==> porta_i_punteggi_del_primo(k, cl, #[trigger] archi[q]),
{
    let props = proposte(k, cl);
    assert forall|q: int| 0 <= q < archi.len() implies porta_i_punteggi_del_primo(
        k,
        cl,
        #[trigger] archi[q],
    ) by {
        let e = archi[q];
        assert(prima_proposta(props, e));
        let jj = choose|j: int|
            0 <= j < props.len() && #[trigger] props[j] == e && forall|j2: int|
                0 <= j2 < j ==> !stessa_chiave(#[trigger] props[j2], e);
        assert(props[jj].from.0 < props[jj].to.0);
        assert(unisce(props[jj], e.from, e.to));
        assert forall|q2: int| 0 <= q2 < jj implies !unisce(#[trigger] props[q2], e.from, e.to) by {
            assert(!stessa_chiave(props[q2], e));
        }
        lemma_proposte_primo(k, cl, jj, e.from, e.to);
    }
}

/// A candidate neighbour as scored by the caller: its combined score, its
/// normalized axes and its id.
pub type Valutato = (Reale, NormalizedAxes, NodeId);

/// The rank of a score: its IEEE key, a NaN below every number.
pub open spec fn rango_punteggio(x: Reale) -> int {
    if e_nan(x) {
        -0x1_0000_0000_0000_0000
    } else {
        chiave(x)
    }
}

/// `a` has a higher score than `b`.
pub open spec fn punteggio_migliore(a: Valutato, b: Valutato) -> bool {
    rango_punteggio(a.0) > rango_punteggio(b.0)
}

/// `a` and `b` have equal scores (or both a NaN).
pub open spec fn stesso_punteggio(a: Valutato, b: Valutato) -> bool {
    rango_punteggio(a.0) == rango_punteggio(b.0)
}

/// `x` is a best pick among the candidates `m`: none has a higher score;
/// among those of equal score none Pareto-dominates it; and one of equal
/// score with a smaller id is itself dominated by one of equal score.
pub open spec fn scelta_migliore(x: Valutato, m: Multiset<Valutato>) -> bool {
    &&& m.count(x) > 0
    &&& forall|y: Valutato| #[trigger] m.count(y) > 0 ==> !punteggio_migliore(y, x)
    &&& forall|y: Valutato|
        #[trigger] m.count(y) > 0 && stesso_punteggio(y, x) ==> !domina(y.1, x.1)
    &&& forall|y: Valutato|
        #[trigger] m.count(y) > 0 && stesso_punteggio(y, x) && y.2.0 < x.2.0 ==> exists|
            z: Valutato,
        | #[trigger] m.count(z) > 0 && stesso_punteggio(z, y) && domina(z.1, y.1)
}

/// The candidates left once the first `p` of the ranking are taken.
pub open spec fn rimasti(c: Seq<Valutato>, r: Seq<Valutato>, p: int) -> Multiset<Valutato> {
    c.to_multiset().sub(r.take(p).to_multiset())
}

/// The number of neighbours kept among `n` candidates: `max(k, 1)`, at most `n`.
pub open spec fn quanti_primi(k: int, n: int) -> int {
    let kk = if k == 0 {
        1
    } else {
        k
    };
    if kk < n {
        kk
    } else {
        n
    }
}

fn chiave_exec(x: Reale) -> (r: i128)
    ensures
        r == chiave(x),
{
    if x < BIT_SEGNO {
        x as i128
    } else {
        -((x - BIT_SEGNO) as i128)
    }
}

fn somma_assi(a: &NormalizedAxes) -> (r: i128)
    ensures
        r == chiave(a.dense) + chiave(a.sparse) + chiave(a.colbert),
{
    chiave_exec(a.dense) + chiave_exec(a.sparse) + chiave_exec(a.colbert)
}

fn sopra(a: Reale, b: Reale) -> (r: bool)
    ensures
        r == (rango_punteggio(a) > rango_punteggio(b)),
{
    if nan(a) {
        false
    } else if nan(b) {
        true
    } else {
        lt(b, a)
    }
}

fn pari(a: Reale, b: Reale) -> (r: bool)
    ensures
        r == (rango_punteggio(a) == rango_punteggio(b)),
{
    (nan(a) && nan(b)) || (!nan(a) && !nan(b) && le(a, b) && le(b, a))
}

fn domina_exec(a: &NormalizedAxes, b: &NormalizedAxes) -> (r: bool)
    ensures
        r == domina(*a, *b),
{
    match pareto_compare(a, b) {
        ParetoOrder::ADominatesB => true,
        _ => false,
    }
}

/// No candidate of the score of `resto[b]` dominates `resto[h]`.
fn non_dominato(resto: &Vec<Valutato>, h: usize, b: usize) -> (r: bool)
    requires
        h < resto@.len(),
        b < resto@.len(),
    ensures
        r == forall|g: int|
            0 <= g < resto@.len() && stesso_punteggio(#[trigger] resto@[g], resto@[b as int])
                ==> !domina(resto@[g].1, resto@[h as int].1),
{
    let mut g: usize = 0;
    while g < resto.len()
        invariant
            h < resto@.len(),
            b < resto@.len(),
            0 <= g <= resto@.len(),
            forall|q: int|
                0 <= q < g && stesso_punteggio(#[trigger] resto@[q], resto@[b as int]) ==> !domina(
                    resto@[q].1,
                    resto@[h as int].1,
                ),
        decreases resto@.len() - g,
    {
        if pari(resto[g].0, resto[b].0) && domina_exec(&resto[g].1, &resto[h].1) {
            return false;
        }
        g += 1;
    }
    true
}

/// The index of a best pick among the candidates left.
fn scegli(resto: &Vec<Valutato>) -> (sel: usize)
    requires
        resto@.len() > 0,
    ensures
        sel < resto@.len(),
        scelta_migliore(resto@[sel as int], resto@.to_multiset()),
{
    broadcast use vstd::seq_lib::group_to_multiset_ensures;

    let n = resto.len();
    // the best score
    let mut b: usize = 0;
    let mut h: usize = 1;
    while h < n
        invariant
            n == resto@.len(),
            b < n,
            1 <= h <= n,
            forall|q: int| 0 <= q < h ==> !punteggio_migliore(#[trigger] resto@[q], resto@[b as int]),
        decreases n - h,
    {
        if sopra(resto[h].0, resto[b].0) {
            b = h;
        }
        h += 1;
    }
    // a candidate of that score with the largest sum of axes: none dominates it
    let mut m: usize = b;
    let mut s: i128 = somma_assi(&resto[b].1);
    let mut h: usize = 0;
    while h < n
        invariant
            n == resto@.len(),
            b < n,
            m < n,
            0 <= h <= n,
            stesso_punteggio(resto@[m as int], resto@[b as int]),
            s == chiave(resto@[m as int].1.dense) + chiave(resto@[m as int].1.sparse) + chiave(
                resto@[m as int].1.colbert,
            ),
            forall|q: int|
                0 <= q < h && stesso_punteggio(#[trigger] resto@[q], resto@[b as int]) ==> chiave(
                    resto@[q].1.dense,
                ) + chiave(resto@[q].1.sparse) + chiave(resto@[q].1.colbert) <= s,
        decreases n - h,
    {
        if pari(resto[h].0, resto[b].0) {
            let t = somma_assi(&resto[h].1);
            if t > s {
                m = h;
                s = t;
            }
        }
        h += 1;
    }
    // among the undominated ones of that score, the smallest id
    let mut sel: usize = m;
    let mut h: usize = 0;
    while h < n
        invariant
            n == resto@.len(),
            b < n,
            sel < n,
            0 <= h <= n,
            stesso_punteggio(resto@[sel as int], resto@[b as int]),
            forall|g: int|
                0 <= g < n && stesso_punteggio(#[trigger] resto@[g], resto@[b as int]) ==> !domina(
                    resto@[g].1,
                    resto@[sel as int].1,
                ),
            forall|q: int|
                0 <= q < h && stesso_punteggio(#[trigger] resto@[q], resto@[b as int])
                    && resto@[q].2.0 < resto@[sel as int].2.0 ==> exists|g: int|
                    0 <= g < n && stesso_punteggio(#[trigger] resto@[g], resto@[b as int])
                        && domina(resto@[g].1, resto@[q].1),
        decreases n - h,
    {
        if pari(resto[h].0, resto[b].0) {
            if non_dominato(resto, h, b) {
                if resto[h].2.0 < resto[sel].2.0 {
                    sel = h;
                }
            }
        }
        h += 1;
    }
    proof {
        let ms = resto@.to_multiset();
        let x = resto@[sel as int];
        assert(resto@.contains(x));
        assert forall|y: Valutato| #[trigger] ms.count(y) > 0 implies !punteggio_migliore(y, x) by {
            assert(resto@.contains(y));
            let q = choose|q: int| 0 <= q < n && resto@[q] == y;
            assert(!punteggio_migliore(resto@[q], resto@[b as int]));
        }
        assert forall|y: Valutato| #[trigger] ms.count(y) > 0 && stesso_punteggio(y, x) implies !domina(
            y.1,
            x.1,
        ) by {
            assert(resto@.contains(y));
            let q = choose|q: int| 0 <= q < n && resto@[q] == y;
            assert(stesso_punteggio(resto@[q], resto@[b as int]));
        }
        assert forall|y: Valutato|
            #[trigger] ms.count(y) > 0 && stesso_punteggio(y, x) && y.2.0 < x.2.0 implies exists|
                z: Valutato,
            | #[trigger] ms.count(z) > 0 && stesso_punteggio(z, y) && domina(z.1, y.1) by {
            assert(resto@.contains(y));
            let q = choose|q: int| 0 <= q < n && resto@[q] == y;
            assert(stesso_punteggio(resto@[q], resto@[b as int]));
            let g = choose|g: int|
                0 <= g < n && stesso_punteggio(#[trigger] resto@[g], resto@[b as int]) && domina(
                    resto@[g].1,
                    resto@[q].1,
                );
            assert(ms.count(resto@[g]) > 0);
        }
    }
    sel
}

/// The `max(k, 1)` best candidates of a fact, best first: higher score
/// first, then (at equal score) a Pareto-dominating candidate before the
/// one it dominates, then the smaller id. Each kept candidate is a best pick
/// among those not kept before it; a NaN score ranks below every number.
pub fn primi_k(candidati: &[Valutato], k: usize) -> (r: Vec<Valutato>)
    ensures
        r@.len() == quanti_primi(k as int, candidati@.len() as int),
        r@.to_multiset().subset_of(candidati@.to_multiset()),
        forall|p: int|
            0 <= p < r@.len() ==> scelta_migliore(
                #[trigger] r@[p],
                rimasti(candidati@, r@, p),
            ),
        forall|p: int, y: Valutato|
            0 <= p < r@.len() && #[trigger] candidati@.to_multiset().count(y)
                > r@.to_multiset().count(y) ==> !punteggio_migliore(y, #[trigger] r@[p]),
{
    broadcast use vstd::seq_lib::group_to_multiset_ensures;
    broadcast use vstd::multiset::group_multiset_axioms;

    let ghost c = candidati@;
    let n = candidati.len();
    let quanti = if k == 0 {
        1
    } else if k < n {
        k
    } else {
        n
    };
    let quanti = if quanti < n {
        quanti
    } else {
        n
    };
    let mut resto: Vec<Valutato> = Vec::new();
    let mut i: usize = 0;
    while i < n
        invariant
            c == candidati@,
            n == c.len(),
            0 <= i <= n,
            resto@ == c.take(i as int),
        decreases n - i,
    {
        resto.push(candidati[i]);
        i += 1;
        proof {
            assert(resto@ =~= c.take(i as int));
        }
    }
    proof {
        assert(c.take(n as int) =~= c);
        assert(Seq::<Valutato>::empty().to_multiset().add(resto@.to_multiset()) =~= c.to_multiset());
    }
    let mut r: Vec<Valutato> = Vec::new();
    while r.len() < quanti
        invariant
            c == candidati@,
            n == c.len(),
            quanti == quanti_primi(k as int, n as int),
            r@.len() <= quanti,
            r@.len() + resto@.len() == n,
            r@.to_multiset().add(resto@.to_multiset()) =~= c.to_multiset(),
            forall|p: int| 0 <= p < r@.len() ==> scelta_migliore(#[trigger] r@[p], rimasti(c, r@, p)),
        decreases quanti - r@.len(),
    {
        let sel = scegli(&resto);
        let ghost prima = r@;
        let ghost resto_prima = resto@;
        let x = resto.remove(sel);
        r.push(x);
        proof {
            let l = prima.len() as int;
            assert(r@.take(l) =~= prima);
            assert(rimasti(c, r@, l) =~= resto_prima.to_multiset());
            assert forall|p: int| 0 <= p < r@.len() implies scelta_migliore(
                #[trigger] r@[p],
                rimasti(c, r@, p),
            ) by {
                if p < l {
                    assert(r@.take(p) =~= prima.take(p));
                }
            }
            assert(r@ == prima.push(x));
            assert(resto@ == resto_prima.remove(sel as int));
            assert(resto_prima[sel as int] == x);
            vstd::seq_lib::to_multiset_build(prima, x);
            vstd::seq_lib::to_multiset_remove(resto_prima, sel as int);
            assert(r@.to_multiset() =~= prima.to_multiset().insert(x));
            assert(resto@.to_multiset() =~= resto_prima.to_multiset().remove(x));
            assert(resto_prima.to_multiset().count(x) > 0);
            assert forall|v: Valutato|
                #[trigger] r@.to_multiset().add(resto@.to_multiset()).count(v)
                    == c.to_multiset().count(v) by {
                assert(prima.to_multiset().add(resto_prima.to_multiset()).count(v)
                    == c.to_multiset().count(v));
            }
            assert(r@.to_multiset().add(resto@.to_multiset()) =~= c.to_multiset());
        }
    }
    proof {
        assert forall|v: Valutato| r@.to_multiset().count(v) <= c.to_multiset().count(v) by {}
        assert forall|p: int, y: Valutato|
            0 <= p < r@.len() && #[trigger] c.to_multiset().count(y) > r@.to_multiset().count(y)
            implies !punteggio_migliore(y, #[trigger] r@[p]) by {
            vstd::seq_lib::lemma_multiset_commutative(r@.take(p), r@.skip(p));
            assert(r@.take(p) + r@.skip(p) =~= r@);
            assert(rimasti(c, r@, p).count(y) > 0);
        }
    }
    r
}

/// A ranking of best picks is in order: no kept candidate has a higher score
/// than one kept before it, and at equal score none dominates one kept
/// before it.
pub proof fn primi_in_ordine(c: Seq<Valutato>, r: Seq<Valutato>, p: int, q: int)
    requires
        r.to_multiset().subset_of(c.to_multiset()),
        forall|t: int| 0 <= t < r.len() ==> scelta_migliore(#[trigger] r[t], rimasti(c, r, t)),
        0 <= p < q < r.len(),
    ensures
        !punteggio_migliore(r[q], r[p]),
        stesso_punteggio(r[q], r[p]) ==> !domina(r[q].1, r[p].1),
{
    broadcast use vstd::seq_lib::group_to_multiset_ensures;
    broadcast use vstd::multiset::group_multiset_axioms;

    let y = r[q];
    let a = r.take(p);
    let m = r.subrange(p, q + 1);
    let z = r.skip(q + 1);
    vstd::seq_lib::lemma_multiset_commutative(a, m);
    vstd::seq_lib::lemma_multiset_commutative(a + m, z);
    assert(a + m + z =~= r);
    assert(m.contains(y)) by {
        assert(m[q - p] == y);
    }
    assert(r.to_multiset().count(y) <= c.to_multiset().count(y));
    assert(rimasti(c, r, p).count(y) > 0);
    assert(scelta_migliore(r[p], rimasti(c, r, p)));
}

/// The threshold of a fact: the floor clamped in `[0, 1]`, raised to the
/// percentile cutoff of its kept scores; a NaN on either side gives the other.
pub open spec fn spec_soglia_effettiva(pavimento: Reale, percentile: Reale) -> Reale {
    let s = saturato(pavimento);
    if e_nan(s) {
        percentile
    } else if e_nan(percentile) {
        s
    } else if minore(s, percentile) {
        percentile
    } else {
        s
    }
}

/// The threshold of a fact from the floor of the graph and the percentile
/// cutoff of its kept scores.
pub fn soglia_effettiva(pavimento: Reale, percentile: Reale) -> (r: Reale)
    ensures
        r == spec_soglia_effettiva(pavimento, percentile),
{
    let s = satura01(pavimento);
    if nan(s) {
        percentile
    } else if nan(percentile) {
        s
    } else if lt(s, percentile) {
        percentile
    } else {
        s
    }
}

/// Two rankings of the same facts with the same candidates, the second with
/// every threshold at least that of the first.
pub open spec fn soglie_non_piu_basse(cl1: Seq<Classifica>, cl2: Seq<Classifica>) -> bool {
    &&& cl1.len() == cl2.len()
    &&& forall|i: int|
        0 <= i < cl1.len() ==> {
            &&& (#[trigger] cl1[i]).fatto == cl2[i].fatto
            &&& cl1[i].candidati@ == cl2[i].candidati@
            &&& minore_uguale(cl1[i].soglia_effettiva, cl2[i].soglia_effettiva)
        }
}

/// Raising the thresholds never adds an edge: with the same candidates and
/// every threshold at least as high, every pair joined in the second graph
/// is joined in the first.
pub proof fn soglie_piu_alte_meno_archi(
    k: int,
    cl1: Seq<Classifica>,
    cl2: Seq<Classifica>,
    archi1: Seq<Edge>,
    archi2: Seq<Edge>,
    a: NodeId,
    b: NodeId,
)
    requires
        archi_deduplicati(archi1, proposte(k, cl1)),
        archi_deduplicati(archi2, proposte(k, cl2)),
        soglie_non_piu_basse(cl1, cl2),
    ensures
        ha_arco_tra(archi2, a, b) ==> ha_arco_tra(archi1, a, b),
{
    legame_sse_proposto(k, cl1, archi1, a, b);
    legame_sse_proposto(k, cl2, archi2, a, b);
    if proposto_tra(k, cl2, a, b) {
        let (i, j) = choose|i: int, j: int|
            0 <= i < cl2.len() && 0 <= j < primi(k, cl2[i].candidati@).len() && accettato(
                cl2[i].fatto,
                cl2[i].soglia_effettiva,
                #[trigger] primi(k, cl2[i].candidati@)[j],
            ) && collega(cl2[i].fatto, primi(k, cl2[i].candidati@)[j], a, b);
        assert(cl1[i].fatto == cl2[i].fatto);
        assert(accettato(
            cl1[i].fatto,
            cl1[i].soglia_effettiva,
            primi(k, cl1[i].candidati@)[j],
        ));
    }
}

/// Raising the floor of the graph never adds an edge: with the same
/// candidates and the same percentile cutoffs, the thresholds built from a
/// higher floor join only pairs that the lower floor joins.
pub proof fn pavimento_piu_alto_meno_archi(
    k: int,
    cl1: Seq<Classifica>,
    cl2: Seq<Classifica>,
    archi1: Seq<Edge>,
    archi2: Seq<Edge>,
    pavimento1: Reale,
    pavimento2: Reale,
    percentili: Seq<Reale>,
    a: NodeId,
    b: NodeId,
)
    requires
        archi_deduplicati(archi1, proposte(k, cl1)),
        archi_deduplicati(archi2, proposte(k, cl2)),
        minore_uguale(pavimento1, pavimento2),
        cl1.len() == cl2.len(),
        percentili.len() == cl1.len(),
        forall|i: int|
            0 <= i < cl1.len() ==> {
                &&& (#[trigger] cl1[i]).fatto == cl2[i].fatto
                &&& cl1[i].candidati@ == cl2[i].candidati@
                &&& cl1[i].soglia_effettiva == spec_soglia_effettiva(pavimento1, percentili[i])
                &&& cl2[i].soglia_effettiva == spec_soglia_effettiva(pavimento2, percentili[i])
            },
    ensures
        ha_arco_tra(archi2, a, b) ==> ha_arco_tra(archi1, a, b),
{
    saturazione_monotona(pavimento1, pavimento2);
    assert forall|i: int| 0 <= i < cl1.len() implies minore_uguale(
        (#[trigger] cl1[i]).soglia_effettiva,
        cl2[i].soglia_effettiva,
    ) by {
        saturazione_monotona(pavimento1, pavimento2);
    }
    soglie_piu_alte_meno_archi(k, cl1, cl2, archi1, archi2, a, b);
}

} // verus!

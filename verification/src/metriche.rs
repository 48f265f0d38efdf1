//! The geography of the graph: metrics derived on demand from the edges
//! (degree, orphans, neighbours, clustering).

use crate::grafo::{
    altro_estremo, archi_incidenti, archi_ordinati, ha_arco_tra, incide, nodi_ordinati,
    vicini_in, Edge, Graph, NodeId,
};
use vstd::prelude::*;

verus! {

/// The degree of a node in a list of edges: the edges touching it.
pub open spec fn grado_in(archi: Seq<Edge>, n: NodeId) -> nat {
    archi_incidenti(archi, n).len()
}

proof fn lemma_incidenti_passo(archi: Seq<Edge>, n: NodeId, i: int)
    requires
        0 <= i < archi.len(),
    ensures
        archi_incidenti(archi.take(i + 1), n) == if incide(archi[i], n) {
            archi_incidenti(archi.take(i), n).push(archi[i])
        } else {
            archi_incidenti(archi.take(i), n)
        },
{
    assert(archi.take(i + 1).drop_last() =~= archi.take(i));
    reveal_with_fuel(Seq::filter, 1);
}

/// The degree of a node: the number of edges touching it.
pub fn grado(grafo: &Graph, id: NodeId) -> (r: usize)
    ensures
        r == grado_in(grafo.archi@, id),
{
    let mut c: usize = 0;
    let mut i: usize = 0;
    while i < grafo.archi.len()
        invariant
            0 <= i <= grafo.archi@.len(),
            c == grado_in(grafo.archi@.take(i as int), id),
            c <= i,
        decreases grafo.archi.len() - i,
    {
        proof {
            lemma_incidenti_passo(grafo.archi@, id, i as int);
        }
        let e = grafo.archi[i];
        if e.from == id || e.to == id {
            c += 1;
        }
        i += 1;
    }
    proof {
        assert(grafo.archi@.take(grafo.archi@.len() as int) =~= grafo.archi@);
    }
    c
}

/// The degree of every node, in the order of the nodes.
pub fn gradi(grafo: &Graph) -> (r: Vec<(NodeId, usize)>)
    ensures
        r@.len() == grafo.nodi@.len(),
        forall|k: int|
            0 <= k < r@.len() ==> #[trigger] r@[k] == (
                grafo.nodi@[k],
                grado_in(grafo.archi@, grafo.nodi@[k]) as usize,
            ),
{
    let mut r: Vec<(NodeId, usize)> = Vec::new();
    let mut i: usize = 0;
    while i < grafo.nodi.len()
        invariant
            0 <= i <= grafo.nodi@.len(),
            r@.len() == i,
            forall|k: int|
                0 <= k < i ==> #[trigger] r@[k] == (
                    grafo.nodi@[k],
                    grado_in(grafo.archi@, grafo.nodi@[k]) as usize,
                ),
        decreases grafo.nodi.len() - i,
    {
        let n = grafo.nodi[i];
        let g = grado(grafo, n);
        r.push((n, g));
        i += 1;
    }
    r
}

/// `true` if the node is an orphan: no edge touches it.
pub fn e_orfano(grafo: &Graph, id: NodeId) -> (r: bool)
    ensures
        r == (grado_in(grafo.archi@, id) == 0),
{
    grado(grafo, id) == 0
}

/// The orphans of the graph, in the order of the nodes.
pub fn orfani(grafo: &Graph) -> (r: Vec<NodeId>)
    ensures
        r@ == grafo.nodi@.filter(|n: NodeId| grado_in(grafo.archi@, n) == 0),
{
    let ghost pred = |n: NodeId| grado_in(grafo.archi@, n) == 0;
    let mut r: Vec<NodeId> = Vec::new();
    let mut i: usize = 0;
    while i < grafo.nodi.len()
        invariant
            0 <= i <= grafo.nodi@.len(),
            pred == (|n: NodeId| grado_in(grafo.archi@, n) == 0),
            r@ == grafo.nodi@.take(i as int).filter(pred),
        decreases grafo.nodi.len() - i,
    {
        let n = grafo.nodi[i];
        proof {
            assert(grafo.nodi@.take(i + 1).drop_last() =~= grafo.nodi@.take(i as int));
            reveal_with_fuel(Seq::filter, 1);
        }
        if e_orfano(grafo, n) {
            r.push(n);
        }
        i += 1;
    }
    proof {
        assert(grafo.nodi@.take(grafo.nodi@.len() as int) =~= grafo.nodi@);
    }
    r
}

/// The edges of a node, in edge order (for inspection).
pub fn archi_di(grafo: &Graph, id: NodeId) -> (r: Vec<&Edge>)
    ensures
        r@.map_values(|e: &Edge| *e) == archi_incidenti(grafo.archi@, id),
{
    let mut r: Vec<&Edge> = Vec::new();
    let mut i: usize = 0;
    while i < grafo.archi.len()
        invariant
            0 <= i <= grafo.archi@.len(),
            r@.map_values(|e: &Edge| *e) == archi_incidenti(grafo.archi@.take(i as int), id),
        decreases grafo.archi.len() - i,
    {
        proof {
            lemma_incidenti_passo(grafo.archi@, id, i as int);
        }
        let e = &grafo.archi[i];
        if e.from == id || e.to == id {
            let ghost prima = r@;
            r.push(e);
            proof {
                assert(r@.map_values(|e: &Edge| *e) =~= prima.map_values(|e: &Edge| *e).push(*e));
            }
        }
        i += 1;
    }
    proof {
        assert(grafo.archi@.take(grafo.archi@.len() as int) =~= grafo.archi@);
    }
    r
}

/// The neighbours of a node, sorted and without repetitions: the set of the
/// other ends of its edges.
fn vicini_distinti(grafo: &Graph, id: NodeId) -> (r: Vec<NodeId>)
    ensures
        nodi_ordinati(r@),
        forall|x: NodeId| r@.contains(x) <==> vicini_in(grafo.archi@, id).contains(x),
        r@.len() <= grafo.archi@.len(),
{
    let v = grafo.vicini(id);
    let mut r: Vec<NodeId> = Vec::new();
    let mut i: usize = 0;
    proof {
        grafo.archi@.lemma_filter_len(|e: Edge| incide(e, id));
    }
    while i < v.len()
        invariant
            0 <= i <= v@.len(),
            v@ == vicini_in(grafo.archi@, id),
            v@.len() <= grafo.archi@.len(),
            nodi_ordinati(r@),
            r@.len() <= i,
            forall|x: NodeId| r@.contains(x) <==> v@.take(i as int).contains(x),
        decreases v.len() - i,
    {
        let x = v[i];
        let mut p: usize = 0;
        while p < r.len() && r[p].0 < x.0
            invariant
                0 <= p <= r@.len(),
                forall|a: int| 0 <= a < p ==> r@[a].0 < x.0,
            decreases r.len() - p,
        {
            p += 1;
        }
        proof {
            assert(v@.take(i + 1) =~= v@.take(i as int).push(x));
        }
        if p < r.len() && r[p].0 == x.0 {
            proof {
                assert(r@[p as int] == x);
                assert forall|y: NodeId| r@.contains(y) <==> v@.take(i + 1).contains(y) by {
                    if v@.take(i + 1).contains(y) {
                        let k = choose|k: int| 0 <= k < i + 1 && #[trigger] v@.take(i + 1)[k] == y;
                        if k == i {
                            assert(y == x);
                        } else {
                            assert(v@.take(i as int)[k] == y);
                        }
                    }
                    if r@.contains(y) {
                        assert(v@.take(i as int).contains(y));
                        let k = choose|k: int| 0 <= k < i && #[trigger] v@.take(i as int)[k] == y;
                        assert(v@.take(i + 1)[k] == y);
                    }
                }
            }
        } else {
            let ghost prima = r@;
            r.insert(p, x);
            proof {
                assert forall|a: int, b: int| 0 <= a < b < r@.len() implies r@[a].0 < r@[b].0 by {
                    if p < prima.len() {
                        assert(prima[p as int].0 > x.0);
                    }
                    if a < p && b > p {
                        assert(prima[a].0 < x.0);
                    }
                }
                assert forall|y: NodeId| r@.contains(y) <==> v@.take(i + 1).contains(y) by {
                    if r@.contains(y) {
                        let k = choose|k: int| 0 <= k < r@.len() && #[trigger] r@[k] == y;
                        if k < p {
                            assert(prima[k] == y);
                        } else if k > p {
                            assert(prima[k - 1] == y);
                        }
                        if y != x {
                            assert(prima.contains(y));
                            assert(v@.take(i as int).contains(y));
                            let q = choose|q: int| 0 <= q < i && #[trigger] v@.take(i as int)[q] == y;
                            assert(v@.take(i + 1)[q] == y);
                        } else {
                            assert(v@.take(i + 1)[i as int] == y);
                        }
                    }
                    if v@.take(i + 1).contains(y) {
                        let q = choose|q: int| 0 <= q < i + 1 && #[trigger] v@.take(i + 1)[q] == y;
                        if q == i {
                            assert(r@[p as int] == y);
                        } else {
                            assert(v@.take(i as int)[q] == y);
                            assert(prima.contains(y));
                            let k = choose|k: int| 0 <= k < prima.len() && #[trigger] prima[k] == y;
                            if k < p {
                                assert(r@[k] == y);
                            } else {
                                assert(r@[k + 1] == y);
                            }
                        }
                    }
                }
            }
        }
        i += 1;
    }
    proof {
        assert(v@.take(v@.len() as int) =~= v@);
    }
    r
}

/// How many of the first `m` nodes of `v` are joined to `x`.
pub open spec fn collegati_a(archi: Seq<Edge>, v: Seq<NodeId>, x: NodeId, m: int) -> nat
    decreases m,
{
    if m <= 0 {
        0
    } else {
        collegati_a(archi, v, x, m - 1) + if ha_arco_tra(archi, v[m - 1], x) {
            1nat
        } else {
            0nat
        }
    }
}

/// The joined pairs `(v[i], v[j])` with `i < j < m`.
pub open spec fn coppie_collegate(archi: Seq<Edge>, v: Seq<NodeId>, m: int) -> nat
    decreases m,
{
    if m <= 0 {
        0
    } else {
        coppie_collegate(archi, v, m - 1) + collegati_a(archi, v, v[m - 1], m - 1)
    }
}

proof fn lemma_collegati_limite(archi: Seq<Edge>, v: Seq<NodeId>, x: NodeId, m: int)
    requires
        m >= 0,
    ensures
        collegati_a(archi, v, x, m) <= m,
    decreases m,
{
    if m > 0 {
        lemma_collegati_limite(archi, v, x, m - 1);
    }
}

proof fn lemma_coppie_limite(archi: Seq<Edge>, v: Seq<NodeId>, m: int)
    requires
        m >= 0,
    ensures
        coppie_collegate(archi, v, m) <= m * m,
    decreases m,
{
    if m > 0 {
        lemma_coppie_limite(archi, v, m - 1);
        lemma_collegati_limite(archi, v, v[m - 1], m - 1);
        assert((m - 1) * (m - 1) + (m - 1) <= m * m) by (nonlinear_arith)
            requires
                m >= 1,
        ;
    }
}

/// The number of pairs `i < j` among `m` items.
pub open spec fn tutte_le_coppie(m: int) -> nat
    decreases m,
{
    if m <= 0 {
        0
    } else {
        tutte_le_coppie(m - 1) + (m - 1) as nat
    }
}

proof fn lemma_tutte_le_coppie(m: int)
    requires
        m >= 0,
    ensures
        2 * tutte_le_coppie(m) == m * (m - 1),
    decreases m,
{
    if m > 0 {
        lemma_tutte_le_coppie(m - 1);
        let t1 = tutte_le_coppie(m - 1);
        let t = tutte_le_coppie(m);
        assert(t == t1 + (m - 1));
        assert(2 * t == m * (m - 1)) by (nonlinear_arith)
            requires
                2 * t1 == (m - 1) * ((m - 1) - 1),
                t == t1 + (m - 1),
        ;
        assert(2 * tutte_le_coppie(m) == m * (m - 1));
    } else {
        assert(tutte_le_coppie(0) == 0);
        assert(m * (m - 1) == 0) by (nonlinear_arith)
            requires
                m == 0,
        ;
    }
}

proof fn lemma_coppie_collegate_limite(archi: Seq<Edge>, v: Seq<NodeId>, m: int)
    requires
        m >= 0,
    ensures
        coppie_collegate(archi, v, m) <= tutte_le_coppie(m),
    decreases m,
{
    if m > 0 {
        lemma_coppie_collegate_limite(archi, v, m - 1);
        lemma_collegati_limite(archi, v, v[m - 1], m - 1);
    }
}

proof fn lemma_tutte_crescente(a: int, b: int)
    requires
        0 <= a <= b,
    ensures
        tutte_le_coppie(a) <= tutte_le_coppie(b),
    decreases b - a,
{
    if a < b {
        lemma_tutte_crescente(a, b - 1);
    }
}

/// A sorted list of nodes has no repetition, so it has as many nodes as
/// the set of its nodes.
proof fn lemma_insieme_ordinato(v: Seq<NodeId>)
    requires
        nodi_ordinati(v),
    ensures
        v.to_set().len() == v.len(),
{
    assert(v.no_duplicates());
    v.unique_seq_to_set();
}

/// The local clustering of a node as two counts: the pairs of distinct
/// neighbours joined by an edge, and all the pairs of distinct neighbours.
/// Their ratio is the clustering coefficient (1 for a dense cluster, 0 for
/// a bridge); `None` when the node has fewer than two distinct neighbours.
/// The first count is exact on edges sorted by `(from, to)`, the order the
/// edge lookup relies on.
pub fn clustering_coppie(grafo: &Graph, id: NodeId) -> (r: Option<(u128, u128)>)
    ensures
        vicini_in(grafo.archi@, id).to_set().len() < 2 <==> r is None,
        r matches Some(c) ==> ({
            let n = vicini_in(grafo.archi@, id).to_set().len() as int;
            &&& c.1 == n * (n - 1) / 2
            &&& c.0 <= c.1
        }),
        archi_ordinati(grafo.archi@) ==> (r matches Some(c) ==> exists|v: Seq<NodeId>|
            nodi_ordinati(v) && v.to_set() == vicini_in(grafo.archi@, id).to_set() && c.0
                == coppie_collegate(grafo.archi@, v, v.len() as int)),
{
    let v = vicini_distinti(grafo, id);
    proof {
        lemma_insieme_ordinato(v@);
        assert(v@.to_set() =~= vicini_in(grafo.archi@, id).to_set());
    }
    let n = v.len();
    if n < 2 {
        return None;
    }
    let nn = n as u128;
    proof {
        assert(nn * (nn - 1) <= 0xffff_ffff_ffff_ffffu128 * 0xffff_ffff_ffff_ffffu128)
            by (nonlinear_arith)
            requires
                2 <= nn <= 0xffff_ffff_ffff_ffffu128,
        ;
        lemma_tutte_le_coppie(n as int);
    }
    let possibili: u128 = nn * (nn - 1) / 2;
    let mut presenti: u128 = 0;
    proof {
        assert(coppie_collegate(grafo.archi@, v@, 0) == 0);
        assert(collegati_a(grafo.archi@, v@, v@[0], 0) == 0);
        assert(coppie_collegate(grafo.archi@, v@, 1) == 0);
    }
    let mut j: usize = 1;
    while j < n
        invariant
            1 <= j <= n,
            n == v@.len(),
            possibili == tutte_le_coppie(n as int),
            presenti <= tutte_le_coppie(j as int),
            archi_ordinati(grafo.archi@) ==> presenti == coppie_collegate(
                grafo.archi@,
                v@,
                j as int,
            ),
        decreases n - j,
    {
        let mut i: usize = 0;
        let mut conta: u128 = 0;
        while i < j
            invariant
                0 <= i <= j < n,
                n == v@.len(),
                    conta <= i,
                archi_ordinati(grafo.archi@) ==> conta == collegati_a(
                    grafo.archi@,
                    v@,
                    v@[j as int],
                    i as int,
                ),
            decreases j - i,
        {
            if grafo.ha_arco(v[i], v[j]) {
                conta += 1;
            }
            i += 1;
        }
        proof {
            lemma_tutte_crescente(j + 1, n as int);
        }
        presenti = presenti + conta;
        j += 1;
    }
    proof {
        if archi_ordinati(grafo.archi@) {
            lemma_coppie_collegate_limite(grafo.archi@, v@, n as int);
        }
    }
    Some((presenti, possibili))
}

} // verus!

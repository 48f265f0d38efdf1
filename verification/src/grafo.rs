//! The proximity graph of the facts: nodes, symmetric weighted edges stored
//! once with the smaller end first, and the local metrics derived from them
//! (degree, orphans, clustering).

use crate::reale::Reale;
use vstd::prelude::*;

verus! {

/// The identifier of a node: the id of a fact of the memory.
#[derive(Clone, Copy, Debug, PartialEq, Eq, Structural, PartialOrd, Ord, Hash)]
pub struct NodeId(pub u64);

/// An edge: a weighted bond between two facts. The score is the combined
/// score, the triplet says from which axis the closeness comes.
#[derive(Clone, Copy, Debug, PartialEq, Eq, Structural)]
pub struct Edge {
    pub from: NodeId,
    pub to: NodeId,
    pub score: Reale,
    pub dense: Reale,
    pub sparse: Reale,
    pub colbert: Reale,
}

impl Edge {
    /// The symmetric score of the edge.
    pub fn score(&self) -> (r: Reale)
        ensures
            r == self.score,
    {
        self.score
    }
}

/// The configuration of the graph: neighbours per node, absolute floor,
/// dynamic percentile cutoff (0 disables it) and combiner weights.
#[derive(Clone, Copy, Debug, PartialEq)]
pub struct GraphConfig {
    pub k: usize,
    pub soglia: Reale,
    pub percentile_cutoff: Reale,
    pub pesi: [Reale; 3],
}

/// `0.6`, `0.25`, `0.15`: the canonical fusion weights of the project.
pub const PESO_DENSE_CANONICO: Reale = 0x3fe3_3333_3333_3333;
pub const PESO_SPARSE_CANONICO: Reale = 0x3fd0_0000_0000_0000;
pub const PESO_COLBERT_CANONICO: Reale = 0x3fc3_3333_3333_3333;

impl Default for GraphConfig {
    /// Five neighbours, no floor, no dynamic cutoff, canonical weights.
    fn default() -> (r: Self)
        ensures
            r.k == 5,
            r.soglia == 0,
            r.percentile_cutoff == 0,
            r.pesi@ == seq![PESO_DENSE_CANONICO, PESO_SPARSE_CANONICO, PESO_COLBERT_CANONICO],
    {
        let r = GraphConfig {
            k: 5,
            soglia: 0,
            percentile_cutoff: 0,
            pesi: [PESO_DENSE_CANONICO, PESO_SPARSE_CANONICO, PESO_COLBERT_CANONICO],
        };
        proof {
            assert(r.pesi@ =~= seq![PESO_DENSE_CANONICO, PESO_SPARSE_CANONICO, PESO_COLBERT_CANONICO]);
        }
        r
    }
}

/// The proximity graph: its configuration, its nodes (sorted, unique) and
/// its edges (sorted by `(from, to)` with `from < to`, unique).
#[derive(Clone, Debug, PartialEq)]
pub struct Graph {
    pub config: GraphConfig,
    pub nodi: Vec<NodeId>,
    pub archi: Vec<Edge>,
}

/// `(a1, b1)` comes strictly before `(a2, b2)` in lexicographic order.
pub open spec fn coppia_minore(a1: u64, b1: u64, a2: u64, b2: u64) -> bool {
    a1 < a2 || (a1 == a2 && b1 < b2)
}

/// The edges are strictly sorted by `(from, to)`.
pub open spec fn archi_ordinati(archi: Seq<Edge>) -> bool {
    forall|i: int, j: int|
        0 <= i < j < archi.len() ==> coppia_minore(
            archi[i].from.0,
            archi[i].to.0,
            archi[j].from.0,
            archi[j].to.0,
        )
}

/// The nodes are strictly sorted (hence unique).
pub open spec fn nodi_ordinati(nodi: Seq<NodeId>) -> bool {
    forall|i: int, j: int| 0 <= i < j < nodi.len() ==> nodi[i].0 < nodi[j].0
}

/// The smaller id of two nodes.
pub open spec fn estremo_minore(a: NodeId, b: NodeId) -> u64 {
    if a.0 <= b.0 {
        a.0
    } else {
        b.0
    }
}

/// The larger id of two nodes.
pub open spec fn estremo_maggiore(a: NodeId, b: NodeId) -> u64 {
    if a.0 <= b.0 {
        b.0
    } else {
        a.0
    }
}

/// Some edge joins `a` and `b`, stored with the smaller end first.
pub open spec fn ha_arco_tra(archi: Seq<Edge>, a: NodeId, b: NodeId) -> bool {
    exists|k: int|
        0 <= k < archi.len() && archi[k].from.0 == estremo_minore(a, b) && archi[k].to.0
            == estremo_maggiore(a, b)
}

/// The edge touches `n`.
pub open spec fn incide(e: Edge, n: NodeId) -> bool {
    e.from == n || e.to == n
}

/// The other end of an edge touching `n`.
pub open spec fn altro_estremo(e: Edge, n: NodeId) -> NodeId {
    if e.from == n {
        e.to
    } else {
        e.from
    }
}

/// The edges touching `n`, in order.
pub open spec fn archi_incidenti(archi: Seq<Edge>, n: NodeId) -> Seq<Edge> {
    archi.filter(|e: Edge| incide(e, n))
}

/// The other ends of the edges touching `n`, in edge order.
pub open spec fn vicini_in(archi: Seq<Edge>, n: NodeId) -> Seq<NodeId> {
    archi_incidenti(archi, n).map_values(|e: Edge| altro_estremo(e, n))
}

/// Where the key `(from, to)` is, or would be inserted, in sorted edges.
pub(crate) fn cerca_chiave(archi: &Vec<Edge>, from: u64, to: u64) -> (r: (bool, usize))
    requires
        archi_ordinati(archi@),
    ensures
        r.1 <= archi@.len(),
        r.0 ==> r.1 < archi@.len() && archi@[r.1 as int].from.0 == from && archi@[r.1 as int].to.0
            == to,
        !r.0 ==> forall|k: int|
            0 <= k < archi@.len() ==> !(archi@[k].from.0 == from && archi@[k].to.0 == to),
        forall|k: int|
            0 <= k < r.1 ==> coppia_minore(archi@[k].from.0, archi@[k].to.0, from, to),
        !r.0 ==> forall|k: int|
            r.1 <= k < archi@.len() ==> coppia_minore(from, to, archi@[k].from.0, archi@[k].to.0),
{
    let mut lo: usize = 0;
    let mut hi: usize = archi.len();
    while lo < hi
        invariant
            archi_ordinati(archi@),
            0 <= lo <= hi <= archi@.len(),
            forall|k: int|
                0 <= k < lo ==> coppia_minore(archi@[k].from.0, archi@[k].to.0, from, to),
            forall|k: int|
                hi <= k < archi@.len() ==> coppia_minore(from, to, archi@[k].from.0, archi@[k].to.0),
        decreases hi - lo,
    {
        let mid = lo + (hi - lo) / 2;
        let e = archi[mid];
        if e.from.0 == from && e.to.0 == to {
            return (true, mid);
        } else if e.from.0 < from || (e.from.0 == from && e.to.0 < to) {
            proof {
                assert forall|k: int| 0 <= k < mid + 1 implies coppia_minore(
                    archi@[k].from.0,
                    archi@[k].to.0,
                    from,
                    to,
                ) by {
                    if k < mid {
                        assert(coppia_minore(
                            archi@[k].from.0,
                            archi@[k].to.0,
                            archi@[mid as int].from.0,
                            archi@[mid as int].to.0,
                        ));
                    }
                }
            }
            lo = mid + 1;
        } else {
            proof {
                assert forall|k: int| mid <= k < archi@.len() implies coppia_minore(
                    from,
                    to,
                    archi@[k].from.0,
                    archi@[k].to.0,
                ) by {
                    if k > mid {
                        assert(coppia_minore(
                            archi@[mid as int].from.0,
                            archi@[mid as int].to.0,
                            archi@[k].from.0,
                            archi@[k].to.0,
                        ));
                    }
                }
            }
            hi = mid;
        }
    }
    (false, lo)
}

impl Graph {
    /// An empty graph with the given configuration.
    pub fn new(config: GraphConfig) -> (g: Self)
        ensures
            g.config == config,
            g.nodi@.len() == 0,
            g.archi@.len() == 0,
    {
        Graph { config, nodi: Vec::new(), archi: Vec::new() }
    }

    /// The number of nodes.
    pub fn n_nodi(&self) -> (r: usize)
        ensures
            r == self.nodi@.len(),
    {
        self.nodi.len()
    }

    /// The number of edges.
    pub fn n_archi(&self) -> (r: usize)
        ensures
            r == self.archi@.len(),
    {
        self.archi.len()
    }

    /// `true` if the (symmetric) edge between `a` and `b` exists. The search
    /// is binary, over edges sorted by `(from, to)`; on edges that are not
    /// so sorted a `true` is still always right.
    pub fn ha_arco(&self, a: NodeId, b: NodeId) -> (r: bool)
        ensures
            r ==> ha_arco_tra(self.archi@, a, b),
            archi_ordinati(self.archi@) ==> (r == ha_arco_tra(self.archi@, a, b)),
    {
        let from = if a.0 <= b.0 {
            a.0
        } else {
            b.0
        };
        let to = if a.0 <= b.0 {
            b.0
        } else {
            a.0
        };
        let mut lo: usize = 0;
        let mut hi: usize = self.archi.len();
        while lo < hi
            invariant
                from == estremo_minore(a, b),
                to == estremo_maggiore(a, b),
                0 <= lo <= hi <= self.archi@.len(),
                archi_ordinati(self.archi@) ==> forall|k: int|
                    0 <= k < lo ==> coppia_minore(
                        self.archi@[k].from.0,
                        self.archi@[k].to.0,
                        from,
                        to,
                    ),
                archi_ordinati(self.archi@) ==> forall|k: int|
                    hi <= k < self.archi@.len() ==> coppia_minore(
                        from,
                        to,
                        self.archi@[k].from.0,
                        self.archi@[k].to.0,
                    ),
            decreases hi - lo,
        {
            let mid = lo + (hi - lo) / 2;
            let e = self.archi[mid];
            if e.from.0 == from && e.to.0 == to {
                proof {
                    let k = mid as int;
                    assert(0 <= k < self.archi@.len() && self.archi@[k].from.0 == from
                        && self.archi@[k].to.0 == to);
                    assert(ha_arco_tra(self.archi@, a, b));
                }
                return true;
            } else if e.from.0 < from || (e.from.0 == from && e.to.0 < to) {
                proof {
                    if archi_ordinati(self.archi@) {
                        assert forall|k: int| 0 <= k < mid + 1 implies coppia_minore(
                            self.archi@[k].from.0,
                            self.archi@[k].to.0,
                            from,
                            to,
                        ) by {
                            if k < mid {
                                assert(coppia_minore(
                                    self.archi@[k].from.0,
                                    self.archi@[k].to.0,
                                    self.archi@[mid as int].from.0,
                                    self.archi@[mid as int].to.0,
                                ));
                            }
                        }
                    }
                }
                lo = mid + 1;
            } else {
                proof {
                    if archi_ordinati(self.archi@) {
                        assert forall|k: int| mid <= k < self.archi@.len() implies coppia_minore(
                            from,
                            to,
                            self.archi@[k].from.0,
                            self.archi@[k].to.0,
                        ) by {
                            if k > mid {
                                assert(coppia_minore(
                                    self.archi@[mid as int].from.0,
                                    self.archi@[mid as int].to.0,
                                    self.archi@[k].from.0,
                                    self.archi@[k].to.0,
                                ));
                            }
                        }
                    }
                }
                hi = mid;
            }
        }
        false
    }

    /// The neighbours of a node: the other end of every edge touching it,
    /// in edge order.
    pub fn vicini(&self, n: NodeId) -> (r: Vec<NodeId>)
        ensures
            r@ == vicini_in(self.archi@, n),
    {
        let mut r: Vec<NodeId> = Vec::new();
        let mut i: usize = 0;
        while i < self.archi.len()
            invariant
                0 <= i <= self.archi@.len(),
                r@ == vicini_in(self.archi@.take(i as int), n),
            decreases self.archi.len() - i,
        {
            let e = self.archi[i];
            proof {
                lemma_vicini_passo(self.archi@, n, i as int);
            }
            if e.from == n || e.to == n {
                r.push(if e.from == n {
                    e.to
                } else {
                    e.from
                });
            }
            i += 1;
        }
        proof {
            assert(self.archi@.take(self.archi@.len() as int) =~= self.archi@);
        }
        r
    }
}

/// One more edge: the neighbours grow by its other end when it touches `n`.
proof fn lemma_vicini_passo(archi: Seq<Edge>, n: NodeId, i: int)
    requires
        0 <= i < archi.len(),
    ensures
        vicini_in(archi.take(i + 1), n) == if incide(archi[i], n) {
            vicini_in(archi.take(i), n).push(altro_estremo(archi[i], n))
        } else {
            vicini_in(archi.take(i), n)
        },
        archi_incidenti(archi.take(i + 1), n) == if incide(archi[i], n) {
            archi_incidenti(archi.take(i), n).push(archi[i])
        } else {
            archi_incidenti(archi.take(i), n)
        },
{
    assert(archi.take(i + 1).drop_last() =~= archi.take(i));
    reveal_with_fuel(Seq::filter, 1);
    if incide(archi[i], n) {
        assert(vicini_in(archi.take(i + 1), n) =~= vicini_in(archi.take(i), n).push(
            altro_estremo(archi[i], n),
        ));
    }
}

} // verus!
